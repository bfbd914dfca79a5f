use flico::fft::{
    fft_plan, next_power_of_two, on_poll, on_sent, FftComputer, FftPlan, FftResult, Polled,
    WorkerStep,
};
use std::cell::Cell;

#[test]
fn powers_of_two() {
    assert_eq!(next_power_of_two(0), 1);
    assert_eq!(next_power_of_two(1), 1);
    assert_eq!(next_power_of_two(2), 2);
    assert_eq!(next_power_of_two(3), 4);
    assert_eq!(next_power_of_two(1024), 1024);
    assert_eq!(next_power_of_two(80_000), 131_072);
    for n in 0..5_000usize {
        assert_eq!(next_power_of_two(n), n.next_power_of_two());
    }
}

#[test]
fn sizes_of_a_transform() {
    assert_eq!(fft_plan(15), None);
    assert_eq!(fft_plan(16), Some(FftPlan { n: 16, n_pad: 16, bins: 9 }));
    assert_eq!(fft_plan(100), Some(FftPlan { n: 100, n_pad: 128, bins: 65 }));
}

#[test]
fn windows_are_made_once() {
    let made = Cell::new(0);
    let make_window = |n: usize| {
        made.set(made.get() + 1);
        vec![1u8; n]
    };
    let mut computer = FftComputer::new(make_window, |n: usize, fs: u32| (n, fs));
    assert_eq!(computer.window(3), &vec![1, 1, 1]);
    assert_eq!(computer.window(2), &vec![1, 1]);
    assert_eq!(computer.window(3), &vec![1, 1, 1]);
    assert_eq!(made.get(), 2);
}

#[test]
fn axes_are_kept_by_length_and_rate() {
    let made = Cell::new(0);
    let make_axis = |n: usize, fs: u32| {
        made.set(made.get() + 1);
        (n, fs)
    };
    let mut computer = FftComputer::new(|n: usize| n, make_axis);
    assert_eq!(computer.axis(64, 7), &(64, 7));
    assert_eq!(computer.axis(64, 8), &(64, 8));
    assert_eq!(computer.axis(128, 7), &(128, 7));
    assert_eq!(computer.axis(64, 7), &(64, 7));
    assert_eq!(made.get(), 3);
}

#[test]
fn compute_hands_sizes_and_window_on() {
    let mut computer = FftComputer::new(|n: usize| vec![2u32; n], |n: usize, fs: u32| (n, fs));
    let transform = |plan: FftPlan, w: &Vec<u32>| Some((plan.bins, w.iter().sum::<u32>()));
    let (result, axis) = computer.compute(20, 5, 9, transform).unwrap();
    assert_eq!(result.seq, 9);
    assert_eq!(result.n, 20);
    assert_eq!(result.n_pad, 32);
    assert_eq!(result.data, (17, 40));
    assert_eq!(axis, &(32, 5));
}

#[test]
fn no_spectrum_of_too_few_samples_or_of_a_failed_transform() {
    let mut computer = FftComputer::new(|n: usize| n, |n: usize, fs: u32| (n, fs));
    assert!(computer.compute(15, 5, 1, |_, _: &usize| -> Option<u8> { panic!("not asked for") }).is_none());
    assert!(computer.compute(16, 5, 1, |_, _: &usize| None::<u8>).is_none());
    assert!(computer.compute(16, 5, 1, |_, w: &usize| Some(*w)).is_some());
}

#[test]
fn newest_job_is_computed() {
    let mut held = 1;
    for polled in [Polled::Job(2), Polled::Job(3)] {
        held = match on_poll(held, polled) {
            WorkerStep::Poll(job) => job,
            _ => panic!("another look is due"),
        };
    }
    assert!(matches!(on_poll(held, Polled::Empty), WorkerStep::Compute(3)));
    assert!(matches!(on_poll(held, Polled::Disconnected), WorkerStep::Stop));
}

#[test]
fn earlier_spectra_do_not_show() {
    let fresh = || FftComputer::new(|n: usize| vec![n; n], |n: usize, fs: u32| (n, fs));
    let transform = |plan: FftPlan, w: &Vec<usize>| Some(w[plan.n - 1] + plan.bins);
    let mut used = fresh();
    for (n, fs) in [(16, 1), (17, 1), (32, 1), (15, 2), (100, 2), (33, 1), (64, 2)] {
        used.compute(n, fs, 0, transform);
    }
    for (n, fs) in [(16, 1), (17, 1), (20, 1), (64, 1), (64, 2), (1000, 7), (15, 1)] {
        let mut unused = fresh();
        let a = used.compute(n, fs, 5, transform);
        let b = unused.compute(n, fs, 5, transform);
        let plain = |(r, axis): (FftResult<usize>, &(usize, u32))| (r.seq, r.n, r.n_pad, r.data, *axis);
        assert_eq!(a.map(plain), b.map(plain));
    }
}

#[test]
fn worker_ends_only_when_a_result_is_not_taken() {
    assert!(on_sent(None));
    assert!(on_sent(Some(true)));
    assert!(!on_sent(Some(false)));
}

/// Runs the worker on rounds of jobs, each a number and a length; gives the numbers of the
/// results. In the round `refused`, if there is one, nobody takes the result.
fn run_worker(rounds: &[Vec<(u64, usize)>], refused: Option<usize>) -> Vec<u64> {
    let mut computer = FftComputer::new(|n: usize| n, |n: usize, fs: u32| (n, fs));
    let mut sent = vec![];
    for (i, jobs) in rounds.iter().enumerate() {
        let mut held = jobs[0];
        let mut queue = jobs[1..].iter();
        let (seq, n) = loop {
            let polled = queue.next().map_or(Polled::Empty, |job| Polled::Job(*job));
            match on_poll(held, polled) {
                WorkerStep::Poll(job) => held = job,
                WorkerStep::Compute(job) => break job,
                WorkerStep::Stop => return sent,
            }
        };
        let result = computer.compute(n, 7, seq, |_, w: &usize| Some(*w));
        let taken = result.map(|(r, _)| {
            if refused != Some(i) {
                sent.push(r.seq);
            }
            refused != Some(i)
        });
        if !on_sent(taken) {
            return sent;
        }
    }
    sent
}

#[test]
fn results_come_in_the_order_of_their_jobs() {
    let rounds = [
        vec![(1, 100)],
        vec![(2, 100), (3, 64), (5, 20)],
        vec![(6, 100), (7, 15)],
        vec![(8, 15)],
        vec![(9, 0), (10, 16)],
    ];
    assert_eq!(run_worker(&rounds, None), vec![1, 5, 10]);
    assert_eq!(run_worker(&rounds, Some(1)), vec![1]);
    assert_eq!(run_worker(&rounds, Some(2)), vec![1, 5, 10]);
}

#[test]
fn axes_of_long_inputs() {
    let (long, longer) = ((1usize << 31) + 1, (1usize << 32) + 1);
    let fresh = || FftComputer::new(|n: usize| n, |n: usize, fs: u32| (n, fs));
    let transform = |_: FftPlan, w: &usize| Some(*w);
    let axis_of = |n: usize, calls: &[(usize, u32)]| {
        let mut computer = fresh();
        for (n, fs) in calls {
            computer.compute(*n, *fs, 0, transform);
        }
        let (result, axis) = computer.compute(n, 7, 1, transform).unwrap();
        assert_eq!((result.n, result.n_pad, result.data), (n, n.next_power_of_two(), n));
        *axis
    };
    assert_eq!(axis_of(long, &[]), (1 << 32, 7));
    assert_eq!(axis_of(longer, &[]), (1 << 33, 7));
    assert_eq!(axis_of(long, &[(16, 7), (long, 7), (longer, 8)]), (1 << 32, 7));
    assert_eq!(axis_of(20, &[(long, 7), (longer, 7)]), (32, 7));
    // The two share a key: the first that comes makes the axis.
    assert_eq!(axis_of(long, &[(longer, 7)]), (1 << 33, 7));
}
