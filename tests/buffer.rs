use audio_visualizer::{downmix, SampleBuffer};

#[test]
fn new_buffer_is_empty() {
    let b: SampleBuffer<f32> = SampleBuffer::new(8);
    assert_eq!(b.len(), 0);
    assert!(b.is_empty());
    assert_eq!(b.capacity(), 8);
    assert_eq!(b.snapshot_latest(0), Some(vec![]));
    assert_eq!(b.snapshot_latest(1), None);
}

#[test]
fn push_within_capacity_keeps_everything_in_order() {
    let mut b: SampleBuffer<i32> = SampleBuffer::new(5);
    b.push(&[1, 2]);
    b.push(&[3]);
    assert_eq!(b.len(), 3);
    assert_eq!(b.snapshot_latest(3), Some(vec![1, 2, 3]));
}

#[test]
fn overflow_evicts_oldest_first() {
    let mut b: SampleBuffer<i32> = SampleBuffer::new(4);
    b.push(&[1, 2, 3]);
    b.push(&[4, 5, 6]);
    assert_eq!(b.len(), 4);
    assert_eq!(b.snapshot_latest(4), Some(vec![3, 4, 5, 6]));
}

#[test]
fn oversized_push_keeps_only_its_own_tail() {
    let mut b: SampleBuffer<i32> = SampleBuffer::new(3);
    b.push(&[9]);
    b.push(&[1, 2, 3, 4, 5, 6, 7]);
    assert_eq!(b.len(), 3);
    assert_eq!(b.snapshot_latest(3), Some(vec![5, 6, 7]));
}

#[test]
fn length_never_exceeds_capacity_over_many_pushes() {
    let mut b: SampleBuffer<u32> = SampleBuffer::new(10);
    let mut all: Vec<u32> = Vec::new();
    let mut next: u32 = 0;
    for size in [1usize, 3, 7, 0, 12, 2, 5, 9, 1] {
        let batch: Vec<u32> = (0..size).map(|k| next + k as u32).collect();
        next += size as u32;
        all.extend(&batch);
        b.push(&batch);
        assert!(b.len() <= 10);
        let keep = all.len().min(10);
        assert_eq!(b.snapshot_latest(keep), Some(all[all.len() - keep..].to_vec()));
    }
}

#[test]
fn snapshot_returns_latest_values_in_push_order() {
    let mut b: SampleBuffer<i32> = SampleBuffer::new(16);
    b.push(&[10]);
    b.push(&[20, 30, 40]);
    b.push(&[50]);
    b.push(&[60, 70]);
    assert_eq!(b.snapshot_latest(4), Some(vec![40, 50, 60, 70]));
    assert_eq!(b.snapshot_latest(1), Some(vec![70]));
    // the history is unchanged by a snapshot
    assert_eq!(b.len(), 7);
}

#[test]
fn snapshot_larger_than_contents_is_insufficient() {
    let mut b: SampleBuffer<f32> = SampleBuffer::new(16);
    b.push(&[0.5, 0.25, 0.125]);
    assert_eq!(b.snapshot_latest(4), None);
    assert_eq!(b.snapshot_latest(3), Some(vec![0.5, 0.25, 0.125]));
    assert_eq!(b.len(), 3);
}

#[test]
fn zero_capacity_holds_nothing() {
    let mut b: SampleBuffer<i32> = SampleBuffer::new(0);
    b.push(&[1, 2, 3]);
    assert_eq!(b.len(), 0);
    assert_eq!(b.snapshot_latest(1), None);
}

fn mean(d: &[f32], a: usize, b: usize, channels: usize) -> f32 {
    d[a..b].iter().sum::<f32>() / channels as f32
}

#[test]
fn downmix_stereo_is_mean_of_each_frame() {
    let data = [1.0f32, 3.0, -2.0, 2.0, 0.5, 0.5];
    let mono = downmix(&data, 2, |d: &[f32], a: usize, b: usize| mean(d, a, b, 2));
    assert_eq!(mono, vec![2.0, 0.0, 0.5]);
}

#[test]
fn downmix_three_channels_with_partial_frame() {
    let data = [3.0f32, 6.0, 9.0, 3.0];
    let mono = downmix(&data, 3, |d: &[f32], a: usize, b: usize| mean(d, a, b, 3));
    assert_eq!(mono, vec![6.0, 1.0]);
}

#[test]
fn downmix_mono_is_identity() {
    let data = [0.1f32, -0.2, 0.3];
    let mono = downmix(&data, 1, |_d: &[f32], _a: usize, _b: usize| 99.0f32);
    assert_eq!(mono, data.to_vec());
}

#[test]
fn downmix_passes_frame_spans() {
    let data = [0u32; 7];
    let spans = downmix(&data, 3, |_d: &[u32], a: usize, b: usize| (a * 100 + b) as u32);
    assert_eq!(spans, vec![3, 306, 607]);
}

#[test]
fn downmix_then_push_feeds_mono_frames() {
    let mut b: SampleBuffer<f32> = SampleBuffer::new(4);
    let data = [1.0f32, 1.0, 2.0, 4.0, 5.0, 7.0];
    let mono = downmix(&data, 2, |d: &[f32], a: usize, e: usize| mean(d, a, e, 2));
    b.push(&mono);
    assert_eq!(b.snapshot_latest(3), Some(vec![1.0, 3.0, 6.0]));
}
