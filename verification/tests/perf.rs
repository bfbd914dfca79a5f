use flico::perf::{PerfRing, PERF_LEN};

fn average(v: &Vec<f32>) -> f32 {
    v.iter().sum::<f32>() / v.len() as f32
}

#[test]
fn empty_ring_has_mean_zero() {
    let ring = PerfRing::new(0.0f32);
    assert_eq!(ring.mean(0.0, |_: &Vec<f32>| panic!("not asked for")), 0.0);
    assert_eq!(ring.mean(0.0, average), 0.0);
    assert!(ring.live().is_empty());
}

#[test]
fn mean_is_over_what_was_pushed() {
    let mut ring = PerfRing::new(0.0f32);
    ring.push(1.0);
    ring.push(2.0);
    ring.push(6.0);
    assert_eq!(ring.live(), vec![1.0, 2.0, 6.0]);
    assert_eq!(ring.mean(0.0, average), 3.0);
}

#[test]
fn full_ring_goes_round() {
    let mut ring = PerfRing::new(0u32);
    for i in 0..PERF_LEN as u32 {
        ring.push(i);
    }
    assert_eq!(ring.live(), (0..60).collect::<Vec<u32>>());
    ring.push(100);
    ring.push(101);
    let live = ring.live();
    assert_eq!(live.len(), PERF_LEN);
    assert_eq!(&live[..4], &[100, 101, 2, 3]);
    assert_eq!(live[59], 59);
}

#[test]
fn mean_takes_in_each_of_the_newest_timings() {
    let mut ring = PerfRing::new(0u32);
    for i in 0..75u32 {
        ring.push(i);
    }
    let sum = ring.mean(0, |v: &Vec<u32>| v.iter().sum());
    assert_eq!(sum, (15..75).sum::<u32>());
}
