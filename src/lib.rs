//! Core of a real-time spectrum visualiser: the bounded sample history shared
//! between the capture side and the render side, the perceptual grouping of
//! spectrum bins into bars, and the frame bookkeeping of looped playback.
//!
//! Everything here is independent of the sample type: the floating-point work
//! (windowing, the transform, averaging, smoothing) is done by the caller on
//! top of the positions and ranges that these modules compute.

pub mod bars;
pub mod buffer;
pub mod downmix;
pub mod playback;

pub use bars::{bar_range, BarLayout, LayoutError, MAX_LAYOUT_DIM};
pub use buffer::SampleBuffer;
pub use downmix::downmix;
pub use playback::{plan_frames, source_index};
