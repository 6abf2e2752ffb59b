use audio_visualizer::{BarLayout, SampleBuffer};
use rustfft::num_complex::Complex;
use rustfft::FftPlanner;

fn sine(freq: f32, rate: f32, len: usize) -> Vec<f32> {
    (0..len)
        .map(|i| (2.0 * std::f32::consts::PI * freq * i as f32 / rate).sin())
        .collect()
}

/// Fit to the window length, Hann window, forward transform, magnitude of the first half over the
/// window length, then the mean over each bar's bin range.
fn analyze(layout: &BarLayout, samples: &[f32]) -> Vec<f32> {
    let size = layout.fft_size();
    let fft = FftPlanner::<f32>::new().plan_fft_forward(size);
    let mut buf: Vec<Complex<f32>> = layout
        .fit_window(samples, 0.0f32)
        .iter()
        .enumerate()
        .map(|(i, &s)| {
            let w = 0.5 * (1.0 - (2.0 * std::f32::consts::PI * i as f32 / (size - 1) as f32).cos());
            Complex::new(s * w, 0.0)
        })
        .collect();
    fft.process(&mut buf);
    let spectrum: Vec<f32> = buf[..layout.bins()]
        .iter()
        .map(|c| c.norm() / size as f32)
        .collect();
    layout
        .ranges()
        .iter()
        .map(|&(s, e)| spectrum[s..e].iter().sum::<f32>() / (e - s) as f32)
        .collect()
}

fn loudest(bars: &[f32]) -> usize {
    let mut best = 0;
    for i in 1..bars.len() {
        if bars[i] > bars[best] {
            best = i;
        }
    }
    best
}

fn bar_of_bin(layout: &BarLayout, bin: usize) -> usize {
    // the last bar whose range holds the bin
    let mut found = 0;
    for (i, &(s, e)) in layout.ranges().iter().enumerate() {
        if s <= bin && bin < e {
            found = i;
        }
    }
    found
}

#[test]
fn end_to_end_sine_after_silence() {
    let mut buffer: SampleBuffer<f32> = SampleBuffer::new(8192);
    buffer.push(&vec![0.0f32; 8192]);
    let block = sine(440.0, 48000.0, 2048);
    buffer.push(&block);
    assert_eq!(buffer.len(), 8192);
    let window = buffer.snapshot_latest(2048).unwrap();
    assert_eq!(window, block);

    let layout = BarLayout::new(2048, 88).unwrap();
    let bars = analyze(&layout, &window);
    assert_eq!(bars.len(), 88);
    assert!(bars.iter().all(|&b| b >= 0.0 && b.is_finite()));
    // 440 Hz sits at bin 440 * 2048 / 48000 = 18.77, nearest bin 19, which
    // the quadratic warp puts in bar 12 = [19, 22)
    assert_eq!(bar_of_bin(&layout, 19), 12);
    assert_eq!(loudest(&bars), 12);
}

#[test]
fn sine_peak_lands_in_its_bar() {
    let layout = BarLayout::new(2048, 88).unwrap();
    // 1000 Hz at 48000 Hz: bin 42.67, inside bar 18 = [42, 47)
    let bars = analyze(&layout, &sine(1000.0, 48000.0, 2048));
    assert_eq!(layout.ranges()[18], (42, 47));
    assert_eq!(loudest(&bars), 18);
}

#[test]
fn short_input_still_gives_every_bar() {
    let layout = BarLayout::new(2048, 88).unwrap();
    let bars = analyze(&layout, &sine(440.0, 48000.0, 100));
    assert_eq!(bars.len(), 88);
    assert!(bars.iter().all(|&b| b >= 0.0));
    let silent = analyze(&layout, &[]);
    assert_eq!(silent, vec![0.0f32; 88]);
}

#[test]
fn underrun_gives_no_window() {
    let mut buffer: SampleBuffer<f32> = SampleBuffer::new(8192);
    buffer.push(&vec![0.25f32; 2047]);
    assert_eq!(buffer.snapshot_latest(2048), None);
    buffer.push(&[0.5]);
    let window = buffer.snapshot_latest(2048).unwrap();
    assert_eq!(window.len(), 2048);
    assert_eq!(window[2047], 0.5);
}
