use flico::fft::FftResult;
use flico::scope::{App, FftSlice, KeyCommands, KeyInput, UNDO_CAP};

type View = (i32, i32);

const FULL: View = (-5000, 0);
const MS: u64 = 1_000_000;

fn far() -> u64 {
    1.0f64.to_bits()
}

fn near() -> u64 {
    0.00001f64.to_bits()
}

fn scope() -> App<View, u8> {
    App::new(FULL, true)
}

fn result(seq: u64, data: u8) -> FftResult<u8> {
    FftResult { seq, n: 64, n_pad: 64, data }
}

fn no_keys() -> KeyInput {
    KeyInput {
        space: false,
        e: false,
        tab: false,
        q: false,
        z: false,
        y: false,
        r: false,
        arrow_left: false,
        arrow_right: false,
        command: false,
        shift: false,
    }
}

#[test]
fn starts_with_everything_in_view() {
    let mut s = scope();
    assert_eq!(s.view_or((1, 2)), FULL);
    assert_eq!(s.take_pending(), Some(FULL));
    assert_eq!(s.take_pending(), None);
    assert!(s.is_running() && s.show_details());
    assert!(!s.can_undo() && !s.can_redo());
    assert_eq!(s.job_seq(), 0);
    assert!(s.latest_result().is_none());
    assert_eq!(s.status(), "");
}

#[test]
fn undo_and_redo() {
    let mut s = scope();
    s.observe((-100, 0), false, far(), far(), 0);
    s.observe((-50, 0), false, far(), far(), 1000 * MS);
    assert_eq!(s.last_kept(), Some((-100, 0)));
    s.act_undo();
    assert_eq!(s.view_or(FULL), (-100, 0));
    assert_eq!(s.take_pending(), Some((-100, 0)));
    s.act_undo();
    assert_eq!(s.view_or((9, 9)), FULL);
    assert!(!s.can_undo());
    s.act_undo();
    assert_eq!(s.view_or((9, 9)), FULL);
    s.act_redo();
    s.act_redo();
    assert_eq!(s.view_or(FULL), (-50, 0));
    assert!(!s.can_redo());
    s.act_redo();
    assert_eq!(s.view_or(FULL), (-50, 0));
}

#[test]
fn new_view_takes_the_redo_away() {
    let mut s = scope();
    s.observe((-100, 0), false, far(), far(), 0);
    s.act_undo();
    assert!(s.can_redo());
    s.observe((-70, 0), false, far(), far(), 1000 * MS);
    assert!(!s.can_redo());
    s.act_undo();
    assert_eq!(s.view_or((9, 9)), FULL);
}

#[test]
fn view_like_the_last_is_not_kept_twice() {
    let mut s = scope();
    s.push_undo((1, 2), near());
    s.push_undo((1, 3), near());
    assert_eq!(s.last_kept(), Some((1, 2)));
    s.push_undo((1, 4), 0.0001f64.to_bits());
    assert_eq!(s.last_kept(), Some((1, 4)));
    s.push_undo((1, 5), f64::NAN.to_bits());
    assert_eq!(s.last_kept(), Some((1, 5)));
}

#[test]
fn history_keeps_the_last_views() {
    let mut s = scope();
    for i in 0..70 {
        s.push_undo((i, 0), far());
    }
    let mut undone = 0;
    while s.can_undo() {
        s.act_undo();
        undone += 1;
    }
    assert_eq!(undone, UNDO_CAP);
    assert_eq!(s.view_or(FULL), (6, 0));
    let mut redone = 0;
    while s.can_redo() {
        s.act_redo();
        redone += 1;
    }
    assert_eq!(redone, UNDO_CAP);
    assert_eq!(s.view_or((9, 9)), FULL);
}

#[test]
fn one_gesture_is_undone_at_once() {
    let mut s = scope();
    for k in 0..10 {
        s.observe((-100 - k, 0), false, far(), far(), k as u64 * 300 * MS);
    }
    assert_eq!(s.view_or(FULL), (-109, 0));
    s.act_undo();
    assert_eq!(s.view_or((9, 9)), FULL);
    assert!(!s.can_undo());
}

#[test]
fn pause_ends_a_gesture() {
    let mut s = scope();
    s.observe((-100, 0), false, far(), far(), 0);
    s.observe((-90, 0), false, far(), far(), 300 * MS + 1);
    s.act_undo();
    assert_eq!(s.view_or(FULL), (-100, 0));
}

#[test]
fn small_deviations_are_no_moves() {
    let mut s = scope();
    s.observe((-100, 0), false, near(), far(), 0);
    assert_eq!(s.view_or((9, 9)), FULL);
    s.observe((-100, 0), false, 0.001f64.to_bits(), far(), 0);
    assert_eq!(s.view_or((9, 9)), FULL);
    assert!(!s.can_undo());
}

#[test]
fn moves_by_the_scope_leave_no_trace() {
    let mut s = scope();
    s.observe((-4999, 0), true, far(), far(), 0);
    assert_eq!(s.view_or(FULL), (-4999, 0));
    assert!(!s.can_undo());
}

#[test]
fn reset_shows_everything_and_can_be_undone() {
    let mut s = scope();
    s.observe((-100, 0), false, far(), far(), 0);
    s.act_reset(FULL, near(), far());
    assert_eq!(s.view_or(FULL), (-100, 0));
    s.act_reset(FULL, far(), far());
    assert_eq!(s.view_or((9, 9)), FULL);
    assert_eq!(s.take_pending(), Some(FULL));
    s.act_undo();
    assert_eq!(s.view_or(FULL), (-100, 0));
    assert!(s.can_reset(far()));
    assert!(!s.can_reset(near()));
}

#[test]
fn spectra_keep_the_pace_after_a_gesture() {
    let mut s = scope();
    s.observe((-100, 0), false, far(), far(), 10 * MS);
    let first = s.dispatch_fft(20 * MS, 1000, 0, 500);
    assert_eq!(first, Some(FftSlice { seq: 1, i_lo: 0, i_hi: 500 }));
    s.fft_sent(20 * MS);
    assert_eq!(s.dispatch_fft(119 * MS, 1000, 0, 500), None);
    assert_eq!(
        s.dispatch_fft(120 * MS, 1000, 500, 0),
        Some(FftSlice { seq: 2, i_lo: 0, i_hi: 500 })
    );
    s.fft_sent(120 * MS);
    s.observe((-90, 0), false, far(), far(), 121 * MS);
    assert!(s.dispatch_fft(122 * MS, 1000, 0, 500).is_some());
    assert_eq!(s.job_seq(), 3);
}

#[test]
fn every_frame_gets_a_spectrum_before_the_first_gesture() {
    let mut s = scope();
    assert!(s.dispatch_fft(0, 1000, 0, 1000).is_some());
    s.fft_sent(0);
    assert!(s.dispatch_fft(MS, 1000, 0, 1000).is_some());
}

#[test]
fn refused_request_is_made_again() {
    let mut s = scope();
    s.observe((-100, 0), false, far(), far(), 0);
    assert_eq!(s.dispatch_fft(MS, 1000, 0, 1000).unwrap().seq, 1);
    assert_eq!(s.dispatch_fft(2 * MS, 1000, 0, 1000).unwrap().seq, 2);
}

#[test]
fn too_few_samples_get_no_spectrum() {
    let mut s = scope();
    assert_eq!(s.dispatch_fft(0, 63, 0, 63), None);
    assert_eq!(s.dispatch_fft(0, 1000, 10, 73), None);
    assert_eq!(s.dispatch_fft(0, 1000, 2000, 3000), None);
    assert_eq!(s.job_seq(), 0);
    assert_eq!(
        s.dispatch_fft(0, 64, -1, 64),
        Some(FftSlice { seq: 1, i_lo: 0, i_hi: 64 })
    );
}

#[test]
fn older_results_do_not_replace_newer_ones() {
    let mut s = scope();
    s.drain_fft_results(vec![result(2, 20), result(1, 10)]);
    assert_eq!(s.latest_result().unwrap().data, 20);
    s.drain_fft_results(vec![result(1, 11)]);
    assert_eq!(s.latest_result().unwrap().data, 20);
    s.drain_fft_results(vec![result(2, 21), result(3, 30), result(3, 31)]);
    assert_eq!(s.latest_result().unwrap().data, 31);
    s.drain_fft_results(vec![]);
    assert_eq!(s.latest_result().unwrap().data, 31);
}

#[test]
fn spectrum_computed_at_once_is_shown() {
    let mut s = scope();
    s.observe((-100, 0), false, far(), far(), 0);
    s.fft_computed(Some(result(5, 50)), 10 * MS);
    assert_eq!(s.latest_result().unwrap().data, 50);
    assert_eq!(s.dispatch_fft(20 * MS, 1000, 0, 1000), None);
    s.fft_computed(None, 200 * MS);
    assert_eq!(s.latest_result().unwrap().data, 50);
    assert!(s.dispatch_fft(200 * MS, 1000, 0, 1000).is_some());
}

#[test]
fn keys_switch_and_command() {
    let mut s = scope();
    let keys = KeyInput { space: true, tab: true, e: true, ..no_keys() };
    let c = s.handle_keys(&keys);
    assert!(!s.is_running() && !s.show_details());
    assert_eq!(
        c,
        KeyCommands { export: true, quit: false, undo: false, redo: false, reset: false }
    );
    s.handle_keys(&keys);
    assert!(s.is_running() && s.show_details());
    s.toggle_running();
    assert!(!s.is_running());
}

#[test]
fn keys_for_the_history() {
    let mut s = scope();
    let mut command = |k: KeyInput| {
        let c = s.handle_keys(&k);
        (c.undo, c.redo, c.reset, c.quit)
    };
    let undo = (true, false, false, false);
    let redo = (false, true, false, false);
    assert_eq!(command(KeyInput { z: true, command: true, ..no_keys() }), undo);
    assert_eq!(command(KeyInput { arrow_left: true, ..no_keys() }), undo);
    assert_eq!(command(KeyInput { z: true, command: true, shift: true, ..no_keys() }), redo);
    assert_eq!(command(KeyInput { y: true, command: true, ..no_keys() }), redo);
    assert_eq!(command(KeyInput { arrow_right: true, ..no_keys() }), redo);
    assert_eq!(command(KeyInput { r: true, ..no_keys() }), (false, false, true, false));
    assert_eq!(command(KeyInput { q: true, ..no_keys() }), (false, false, false, true));
    assert_eq!(
        command(KeyInput { z: true, y: true, shift: true, ..no_keys() }),
        (false, false, false, false)
    );
}

#[test]
fn status_is_shown_as_set() {
    let mut s = scope();
    s.set_status("saved".to_string());
    assert_eq!(s.status(), "saved");
}

#[test]
fn scope_starts_as_it_is_told() {
    let running: App<View, u8> = App::new(FULL, true);
    let stopped: App<View, u8> = App::new(FULL, false);
    assert!(running.is_running() && !stopped.is_running());
    assert!(stopped.show_details());
}
