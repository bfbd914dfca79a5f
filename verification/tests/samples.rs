use flico::samples::{SharedSamples, SynthSource, BUF_LEN, SAMPLE_RATE_HZ};

#[test]
fn five_seconds_are_kept() {
    assert_eq!(BUF_LEN, 5 * SAMPLE_RATE_HZ as usize);
}

#[test]
fn full_buffer_drops_the_oldest() {
    let mut buffer: SharedSamples<u32> = SharedSamples::new();
    let first: Vec<u32> = (0..BUF_LEN as u32).collect();
    buffer.push_batch(&first);
    assert_eq!(buffer.len(), BUF_LEN);
    assert_eq!(buffer.take_snapshot(), first);
    buffer.push(BUF_LEN as u32);
    assert_eq!(buffer.len(), BUF_LEN);
    let kept = buffer.take_snapshot();
    assert_eq!(kept[0], 1);
    assert_eq!(kept[BUF_LEN - 1], BUF_LEN as u32);
}

#[test]
fn batches_and_single_samples_come_to_the_same() {
    let all: Vec<u32> = (0..BUF_LEN as u32 + 500).collect();
    let mut a: SharedSamples<u32> = SharedSamples::new();
    a.push_batch(&all);
    let mut b: SharedSamples<u32> = SharedSamples::new();
    b.push_batch(&all[..70_000].to_vec());
    b.push_batch(&all[70_000..].to_vec());
    assert_eq!(a.take_snapshot(), b.take_snapshot());
    assert_eq!(a.take_snapshot()[0], 500);
}

#[test]
fn synthetic_samples_are_numbered_from_one() {
    let mut buffer: SharedSamples<u64> = SharedSamples::new();
    let mut source = SynthSource::new();
    source.pump_synth(&mut buffer, 3, true, |i| i * 10);
    assert_eq!(buffer.take_snapshot(), vec![10, 20, 30]);
    assert_eq!(source.samples_emitted_count(), 3);
    source.pump_synth(&mut buffer, 5, true, |i| i * 10);
    assert_eq!(buffer.take_snapshot(), vec![10, 20, 30, 40, 50]);
}

#[test]
fn pause_leaves_a_gap() {
    let mut buffer: SharedSamples<u64> = SharedSamples::new();
    let mut source = SynthSource::new();
    source.pump_synth(&mut buffer, 2, true, |i| i);
    source.pump_synth(&mut buffer, 4, false, |i| i);
    assert_eq!(source.samples_emitted_count(), 4);
    source.pump_synth(&mut buffer, 5, true, |i| i);
    assert_eq!(buffer.take_snapshot(), vec![1, 2, 5]);
}

#[test]
fn nothing_is_due_before_the_target_moves() {
    let mut buffer: SharedSamples<u64> = SharedSamples::new();
    let mut source = SynthSource::new();
    source.pump_synth(&mut buffer, 2, true, |i| i);
    source.pump_synth(&mut buffer, 2, true, |i| i);
    source.pump_synth(&mut buffer, 1, true, |i| i);
    assert_eq!(source.samples_emitted_count(), 2);
    assert_eq!(buffer.len(), 2);
}
