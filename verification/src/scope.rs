//! The state of the scope: the view and its history, the spectra, and what the keys do.
//!
//! A view is a value of a type `V` that the scope does not look into. How far two views lie
//! apart is told to it as a deviation: the encoding of a number of double precision, the sum of
//! the distances of their ends relative to the span of the first. Times are nanoseconds since
//! some fixed moment.

use crate::fft::FftResult;
use crate::ieee::{double_less, double_lt, EM3, EM4};
use crate::window::{index_range, slice_indices};
use vstd::prelude::*;
use vstd::string::*;

verus! {

/// How many views can be undone.
pub const UNDO_CAP: usize = 64;

/// The shortest time between two spectra of the same view: 100 ms.
pub const FFT_PACE_NS: u64 = 100_000_000;

/// Changes of the view further apart than this belong to different gestures: 300 ms.
pub const GESTURE_PAUSE_NS: u64 = 300_000_000;

/// The fewest samples in view of which a spectrum is asked for.
pub const MIN_SLICE: usize = 64;

/// The time from `earlier` to `now`; none where the clock went backwards.
pub open spec fn time_since(now: u64, earlier: u64) -> int {
    if now > earlier {
        now - earlier
    } else {
        0
    }
}

fn elapsed(now: u64, earlier: u64) -> (res: u64)
    ensures
        res == time_since(now, earlier),
{
    if now > earlier {
        now - earlier
    } else {
        0
    }
}

/// A spectrum to compute: its number, and the samples that it is of, as the first index and the
/// one behind the last.
#[derive(Clone, Copy, Debug, PartialEq, Eq, Structural)]
pub struct FftSlice {
    pub seq: u64,
    pub i_lo: usize,
    pub i_hi: usize,
}

/// The keys that were pressed since the last frame, and the modifiers that are held.
#[derive(Clone, Copy, Debug, PartialEq, Eq, Structural)]
pub struct KeyInput {
    pub space: bool,
    pub e: bool,
    pub tab: bool,
    pub q: bool,
    pub z: bool,
    pub y: bool,
    pub r: bool,
    pub arrow_left: bool,
    pub arrow_right: bool,
    pub command: bool,
    pub shift: bool,
}

/// What the keys ask for beyond what they switch at once.
#[derive(Clone, Copy, Debug, PartialEq, Eq, Structural)]
pub struct KeyCommands {
    pub export: bool,
    pub quit: bool,
    pub undo: bool,
    pub redo: bool,
    pub reset: bool,
}

/// What the keys ask for.
pub open spec fn commands_of(keys: KeyInput) -> KeyCommands {
    KeyCommands {
        export: keys.e,
        quit: keys.q,
        undo: keys.command && keys.z && !keys.shift || keys.arrow_left,
        redo: keys.command && keys.z && keys.shift || keys.command && keys.y || keys.arrow_right,
        reset: keys.r,
    }
}

/// The last `UNDO_CAP` of the views.
pub open spec fn capped<V>(views: Seq<V>) -> Seq<V> {
    if views.len() <= UNDO_CAP {
        views
    } else {
        views.skip(views.len() - UNDO_CAP)
    }
}

/// The result to show after `r` came in: a result never gives way to one of an older job.
pub open spec fn newer_result<D>(
    latest: Option<FftResult<D>>,
    r: FftResult<D>,
) -> Option<FftResult<D>> {
    match latest {
        Some(cur) => if cur.seq > r.seq {
            latest
        } else {
            Some(r)
        },
        None => Some(r),
    }
}

/// The result to show after all of `results` came in, in order.
pub open spec fn newest_result<D>(
    latest: Option<FftResult<D>>,
    results: Seq<FftResult<D>>,
) -> Option<FftResult<D>>
    decreases results.len(),
{
    if results.len() == 0 {
        latest
    } else {
        newer_result(newest_result(latest, results.drop_last()), results.last())
    }
}

/// The model of `App`.
#[verifier::ext_equal]
pub struct AppState<V, D> {
    /// The part of the time axis that is shown.
    pub view_x: Option<V>,
    /// The views to go back to, the last one first to be taken.
    pub undo: Seq<V>,
    /// The views to go forward to, the last one first to be taken.
    pub redo: Seq<V>,
    /// A view that the plot has yet to be moved to.
    pub pending_x: Option<V>,
    /// When the user last moved the view.
    pub last_view_change_at: Option<u64>,
    /// The number of the last spectrum that was asked for.
    pub job_seq: u64,
    /// The spectrum that is shown.
    pub latest_result: Option<FftResult<D>>,
    /// When a spectrum was last asked for and the request was taken.
    pub last_fft_at: Option<u64>,
    pub status: Seq<char>,
    pub running: bool,
    pub show_details: bool,
}

impl<V, D> AppState<V, D> {
    /// The whole history holds no more than `UNDO_CAP` views.
    pub open spec fn wf(self) -> bool {
        self.undo.len() + self.redo.len() <= UNDO_CAP
    }

    /// The state at the start, with all samples in view.
    pub open spec fn initial(full: V, running: bool) -> Self {
        AppState {
            view_x: Some(full),
            undo: Seq::empty(),
            redo: Seq::empty(),
            pending_x: Some(full),
            last_view_change_at: None,
            job_seq: 0,
            latest_result: None,
            last_fft_at: None,
            status: Seq::empty(),
            running,
            show_details: true,
        }
    }

    /// `prev` becomes the view to go back to, unless it deviates from the one that is it by
    /// less than a ten-thousandth. There is nothing to go forward to then.
    pub open spec fn push_undo(self, prev: V, deviation: u64) -> Self {
        if self.undo.len() > 0 && double_lt(deviation, EM4) {
            self
        } else {
            AppState { undo: capped(self.undo.push(prev)), redo: Seq::empty(), ..self }
        }
    }

    /// The view goes back, and the one that it was is kept to go forward to.
    pub open spec fn act_undo(self) -> Self {
        if self.undo.len() == 0 {
            self
        } else {
            let prev = self.undo.last();
            AppState {
                undo: self.undo.drop_last(),
                redo: match self.view_x {
                    Some(cur) => self.redo.push(cur),
                    None => self.redo,
                },
                view_x: Some(prev),
                pending_x: Some(prev),
                ..self
            }
        }
    }

    /// The view goes forward, and the one that it was is kept to go back to.
    pub open spec fn act_redo(self) -> Self {
        if self.redo.len() == 0 {
            self
        } else {
            let next = self.redo.last();
            AppState {
                redo: self.redo.drop_last(),
                undo: match self.view_x {
                    Some(cur) => capped(self.undo.push(cur)),
                    None => self.undo,
                },
                view_x: Some(next),
                pending_x: Some(next),
                ..self
            }
        }
    }

    /// The view goes to `target`, and the one that it was is kept to go back to. A view that
    /// deviates from `target` by less than a thousandth stays.
    pub open spec fn act_reset(self, target: V, to_target: u64, from_last: u64) -> Self {
        match self.view_x {
            Some(cur) => if double_lt(to_target, EM3) {
                self
            } else {
                AppState {
                    view_x: Some(target),
                    pending_x: Some(target),
                    ..self.push_undo(cur, from_last)
                }
            },
            None => AppState { view_x: Some(target), pending_x: Some(target), ..self },
        }
    }

    /// What the plot shows deviates from the view by more than a thousandth, or there is no view.
    pub open spec fn has_moved(self, deviation: u64) -> bool {
        self.view_x is None || double_lt(EM3, deviation)
    }

    /// A change of the view at this time starts a new gesture.
    pub open spec fn starts_gesture(self, now: u64) -> bool {
        match self.last_view_change_at {
            Some(t) => time_since(now, t) > GESTURE_PAUSE_NS,
            None => true,
        }
    }

    /// The plot shows `obs`. If the scope moved it there (`moved_by_scope`), that is the view. If
    /// the user did, it is the view too, and the first view of each gesture is kept to go back to.
    pub open spec fn observe(
        self,
        obs: V,
        moved_by_scope: bool,
        deviation: u64,
        from_last: u64,
        now: u64,
    ) -> Self {
        if moved_by_scope {
            AppState { view_x: Some(obs), ..self }
        } else if !self.has_moved(deviation) {
            self
        } else {
            let kept = match self.view_x {
                Some(prev) => if self.starts_gesture(now) {
                    self.push_undo(prev, from_last)
                } else {
                    self
                },
                None => self,
            };
            AppState { view_x: Some(obs), last_view_change_at: Some(now), ..kept }
        }
    }

    /// The last spectrum was asked for long enough ago.
    pub open spec fn fft_is_due(self, now: u64) -> bool {
        match self.last_fft_at {
            Some(t) => time_since(now, t) >= FFT_PACE_NS,
            None => true,
        }
    }

    /// The view was moved since the last spectrum was asked for, as far as is known.
    pub open spec fn view_just_changed(self) -> bool {
        match (self.last_view_change_at, self.last_fft_at) {
            (Some(changed), Some(asked)) => changed >= asked,
            _ => true,
        }
    }

    /// A spectrum is wanted.
    pub open spec fn wants_fft(self, now: u64) -> bool {
        self.fft_is_due(now) || self.view_just_changed()
    }

    /// The effect of the keys.
    pub open spec fn press(self, keys: KeyInput) -> Self {
        AppState {
            running: self.running != keys.space,
            show_details: self.show_details != keys.tab,
            ..self
        }
    }
}

/// The state of the scope.
pub struct App<V, D> {
    view_x: Option<V>,
    undo: Vec<V>,
    redo: Vec<V>,
    pending_x: Option<V>,
    last_view_change_at: Option<u64>,
    job_seq: u64,
    latest_result: Option<FftResult<D>>,
    last_fft_at: Option<u64>,
    status: String,
    running: bool,
    show_details: bool,
}

impl<V, D> View for App<V, D> {
    type V = AppState<V, D>;

    closed spec fn view(&self) -> AppState<V, D> {
        AppState {
            view_x: self.view_x,
            undo: self.undo@,
            redo: self.redo@,
            pending_x: self.pending_x,
            last_view_change_at: self.last_view_change_at,
            job_seq: self.job_seq,
            latest_result: self.latest_result,
            last_fft_at: self.last_fft_at,
            status: self.status@,
            running: self.running,
            show_details: self.show_details,
        }
    }
}

impl<V: Copy, D> App<V, D> {
    /// The scope at the start, with all samples in view.
    pub fn new(full: V, running: bool) -> (res: Self)
        ensures
            res@ == AppState::<V, D>::initial(full, running),
            res@.wf(),
    {
        App {
            view_x: Some(full),
            undo: Vec::with_capacity(UNDO_CAP),
            redo: Vec::with_capacity(UNDO_CAP),
            pending_x: Some(full),
            last_view_change_at: None,
            job_seq: 0,
            latest_result: None,
            last_fft_at: None,
            status: String::new(),
            running,
            show_details: true,
        }
    }

    /// Keeps a view to go back to. `deviation` is that of `prev` from the last view that was
    /// kept, and does not matter where there is none.
    pub fn push_undo(&mut self, prev: V, deviation: u64)
        requires
            old(self)@.wf(),
        ensures
            final(self)@ == old(self)@.push_undo(prev, deviation),
            final(self)@.wf(),
    {
        if self.undo.len() > 0 && double_less(deviation, EM4) {
            return;
        }
        self.undo.push(prev);
        if self.undo.len() > UNDO_CAP {
            let _ = self.undo.remove(0);
        }
        self.redo.clear();
        assert(self@ == old(self)@.push_undo(prev, deviation));
    }

    /// Goes back to the last view that was kept.
    pub fn act_undo(&mut self)
        requires
            old(self)@.wf(),
        ensures
            final(self)@ == old(self)@.act_undo(),
            final(self)@.wf(),
    {
        if let Some(prev) = self.undo.pop() {
            if let Some(cur) = self.view_x {
                self.redo.push(cur);
            }
            self.view_x = Some(prev);
            self.pending_x = Some(prev);
        }
        assert(self@ == old(self)@.act_undo());
    }

    /// Goes forward again after `act_undo`.
    pub fn act_redo(&mut self)
        requires
            old(self)@.wf(),
        ensures
            final(self)@ == old(self)@.act_redo(),
            final(self)@.wf(),
    {
        if let Some(next) = self.redo.pop() {
            if let Some(cur) = self.view_x {
                self.undo.push(cur);
                if self.undo.len() > UNDO_CAP {
                    let _ = self.undo.remove(0);
                }
            }
            self.view_x = Some(next);
            self.pending_x = Some(next);
        }
        assert(self@ == old(self)@.act_redo());
    }

    /// Goes to `target`. `to_target` is the deviation of `target` from the view, and `from_last`
    /// that of the view from the last one that was kept.
    pub fn act_reset(&mut self, target: V, to_target: u64, from_last: u64)
        requires
            old(self)@.wf(),
        ensures
            final(self)@ == old(self)@.act_reset(target, to_target, from_last),
            final(self)@.wf(),
    {
        if let Some(cur) = self.view_x {
            if double_less(to_target, EM3) {
                return;
            }
            self.push_undo(cur, from_last);
        }
        self.view_x = Some(target);
        self.pending_x = Some(target);
    }

    /// Takes note of what the plot shows. `deviation` is that of `obs` from the view, and
    /// `from_last` that of the view from the last one that was kept.
    pub fn observe(
        &mut self,
        obs: V,
        moved_by_scope: bool,
        deviation: u64,
        from_last: u64,
        now: u64,
    )
        requires
            old(self)@.wf(),
        ensures
            final(self)@ == old(self)@.observe(obs, moved_by_scope, deviation, from_last, now),
            final(self)@.wf(),
    {
        let need_update = match self.view_x {
            Some(_) => double_less(EM3, deviation),
            None => true,
        };
        if need_update && !moved_by_scope {
            let new_gesture = match self.last_view_change_at {
                Some(t) => elapsed(now, t) > GESTURE_PAUSE_NS,
                None => true,
            };
            if new_gesture {
                if let Some(prev) = self.view_x {
                    self.push_undo(prev, from_last);
                }
            }
            self.view_x = Some(obs);
            self.last_view_change_at = Some(now);
        } else if moved_by_scope {
            self.view_x = Some(obs);
        }
    }

    /// Decides whether a spectrum is to be computed now, of `n` samples with the ends of the
    /// view at the positions `raw_lo` and `raw_hi`, and of which of them.
    pub fn dispatch_fft(&mut self, now: u64, n: usize, raw_lo: i64, raw_hi: i64) -> (res: Option<
        FftSlice,
    >)
        requires
            n <= i64::MAX,
            old(self)@.job_seq < u64::MAX,
        ensures
            ({
                let (lo, hi) = index_range(raw_lo as int, raw_hi as int, n as int);
                &&& res is Some <==> old(self)@.wants_fft(now) && n >= MIN_SLICE && hi - lo
                    >= MIN_SLICE
                &&& res matches Some(slice) ==> {
                    &&& slice.i_lo == lo
                    &&& slice.i_hi == hi
                    &&& slice.seq == old(self)@.job_seq + 1
                    &&& final(self)@ == (AppState { job_seq: slice.seq, ..old(self)@ })
                }
                &&& res is None ==> final(self)@ == old(self)@
                &&& (old(self)@.last_fft_at is None || old(self)@.last_view_change_at is None) && n
                    >= 64 && hi - lo >= 64 ==> res is Some
                &&& res is Some ==> n >= 64 && hi - lo >= 64
            }),
    {
        let due = match self.last_fft_at {
            Some(t) => elapsed(now, t) >= FFT_PACE_NS,
            None => true,
        };
        let view_just_changed = match (self.last_view_change_at, self.last_fft_at) {
            (Some(changed), Some(asked)) => changed >= asked,
            _ => true,
        };
        if !due && !view_just_changed {
            return None;
        }
        if n < MIN_SLICE {
            return None;
        }
        let (i_lo, i_hi) = slice_indices(raw_lo, raw_hi, n);
        if i_hi - i_lo < MIN_SLICE {
            return None;
        }
        self.job_seq = self.job_seq + 1;
        Some(FftSlice { seq: self.job_seq, i_lo, i_hi })
    }

    /// A spectrum was asked for and the request was taken.
    pub fn fft_sent(&mut self, now: u64)
        ensures
            final(self)@ == (AppState { last_fft_at: Some(now), ..old(self)@ }),
    {
        self.last_fft_at = Some(now);
    }

    /// A spectrum was asked for and computed at once, or could not be.
    pub fn fft_computed(&mut self, result: Option<FftResult<D>>, now: u64)
        ensures
            final(self)@ == match result {
                Some(r) => AppState {
                    latest_result: Some(r),
                    last_fft_at: Some(now),
                    ..old(self)@
                },
                None => old(self)@,
            },
    {
        if let Some(r) = result {
            self.latest_result = Some(r);
            self.last_fft_at = Some(now);
        }
    }

    fn store_result(&mut self, r: FftResult<D>)
        ensures
            final(self)@ == (AppState {
                latest_result: newer_result(old(self)@.latest_result, r),
                ..old(self)@
            }),
    {
        let outdated = match &self.latest_result {
            Some(cur) => cur.seq > r.seq,
            None => false,
        };
        if !outdated {
            self.latest_result = Some(r);
        }
    }

    /// Takes in the results that came, in the order in which they came.
    pub fn drain_fft_results(&mut self, results: Vec<FftResult<D>>)
        ensures
            final(self)@ == (AppState {
                latest_result: newest_result(old(self)@.latest_result, results@),
                ..old(self)@
            }),
    {
        let ghost all = results@;
        for r in it: results
            invariant
                it.seq() == all,
                self@ == (AppState {
                    latest_result: newest_result(
                        old(self)@.latest_result,
                        all.take(it.index() as int),
                    ),
                    ..old(self)@
                }),
        {
            proof {
                let done = all.take(it.index() + 1);
                assert(done.drop_last() == all.take(it.index() as int));
                assert(done.last() == r);
            }
            self.store_result(r);
        }
        assert(all.take(all.len() as int) == all);
    }

    /// Whether samples are kept as they come.
    pub fn is_running(&self) -> (res: bool)
        ensures
            res == self@.running,
    {
        self.running
    }

    /// Starts or stops.
    pub fn toggle_running(&mut self)
        ensures
            final(self)@ == (AppState { running: !old(self)@.running, ..old(self)@ }),
    {
        self.running = !self.running;
    }

    /// Switches what the keys switch, and tells what else they ask for.
    pub fn handle_keys(&mut self, keys: &KeyInput) -> (res: KeyCommands)
        ensures
            final(self)@ == old(self)@.press(*keys),
            res == commands_of(*keys),
    {
        if keys.space {
            self.toggle_running();
        }
        if keys.tab {
            self.show_details = !self.show_details;
        }
        KeyCommands {
            export: keys.e,
            quit: keys.q,
            undo: (keys.command && keys.z && !keys.shift) || keys.arrow_left,
            redo: (keys.command && keys.z && keys.shift) || (keys.command && keys.y)
                || keys.arrow_right,
            reset: keys.r,
        }
    }

    /// The view; `full` where there is none.
    pub fn view_or(&self, full: V) -> (res: V)
        ensures
            res == match self@.view_x {
                Some(view) => view,
                None => full,
            },
    {
        match self.view_x {
            Some(view) => view,
            None => full,
        }
    }

    /// The last view that was kept to go back to.
    pub fn last_kept(&self) -> (res: Option<V>)
        ensures
            res == if self@.undo.len() == 0 {
                None
            } else {
                Some(self@.undo.last())
            },
    {
        if self.undo.len() == 0 {
            None
        } else {
            Some(self.undo[self.undo.len() - 1])
        }
    }

    /// Whether there is a view to go back to.
    pub fn can_undo(&self) -> (res: bool)
        ensures
            res == (self@.undo.len() > 0),
    {
        self.undo.len() > 0
    }

    /// Whether there is a view to go forward to.
    pub fn can_redo(&self) -> (res: bool)
        ensures
            res == (self@.redo.len() > 0),
    {
        self.redo.len() > 0
    }

    /// Whether the view differs from the full one; `deviation` is that of the view from it.
    pub fn can_reset(&self, deviation: u64) -> (res: bool)
        ensures
            res == (self@.view_x is Some && double_lt(EM3, deviation)),
    {
        self.view_x.is_some() && double_less(EM3, deviation)
    }

    /// The view that the plot has yet to be moved to; it is handed out once.
    pub fn take_pending(&mut self) -> (res: Option<V>)
        ensures
            res == old(self)@.pending_x,
            final(self)@ == (AppState { pending_x: None, ..old(self)@ }),
    {
        let pending = self.pending_x;
        self.pending_x = None;
        pending
    }

    /// The number of the last spectrum that was asked for.
    pub fn job_seq(&self) -> (res: u64)
        ensures
            res == self@.job_seq,
    {
        self.job_seq
    }

    /// The spectrum to show.
    pub fn latest_result(&self) -> (res: Option<&FftResult<D>>)
        ensures
            match (res, self@.latest_result) {
                (Some(r), Some(latest)) => *r == latest,
                (None, None) => true,
                _ => false,
            },
    {
        match &self.latest_result {
            Some(r) => Some(r),
            None => None,
        }
    }

    /// Sets the line that tells how the last export went.
    pub fn set_status(&mut self, status: String)
        ensures
            final(self)@ == (AppState { status: status@, ..old(self)@ }),
    {
        self.status = status;
    }

    /// The line that tells how the last export went; empty if there was none.
    pub fn status(&self) -> (res: &str)
        ensures
            res@ == self@.status,
    {
        self.status.as_str()
    }

    /// Whether the details are shown.
    pub fn show_details(&self) -> (res: bool)
        ensures
            res == self@.show_details,
    {
        self.show_details
    }
}

/// Going back and forward again changes nothing but that the plot has to be moved.
pub proof fn undo_then_redo_restores<V, D>(s: AppState<V, D>)
    requires
        s.wf(),
        s.view_x is Some,
        s.undo.len() > 0,
    ensures
        s.act_undo().act_redo() == (AppState { pending_x: s.view_x, ..s }),
{
    assert(s.undo.drop_last().push(s.undo.last()) == s.undo);
    let t = s.act_undo().act_redo();
    assert(t.redo == s.redo);
}

/// Going forward and back again changes nothing but that the plot has to be moved.
pub proof fn redo_then_undo_restores<V, D>(s: AppState<V, D>)
    requires
        s.wf(),
        s.view_x is Some,
        s.redo.len() > 0,
    ensures
        s.act_redo().act_undo() == (AppState { pending_x: s.view_x, ..s }),
{
    assert(s.redo.drop_last().push(s.redo.last()) == s.redo);
    let t = s.act_redo().act_undo();
    assert(t.undo == s.undo);
}

/// Going forward never costs a view to go back to: the limit is not reached by it.
pub proof fn redo_forgets_nothing<V, D>(s: AppState<V, D>)
    requires
        s.wf(),
        s.view_x is Some,
        s.redo.len() > 0,
    ensures
        s.act_redo().undo == s.undo.push(s.view_x->0),
{
}

/// Whatever is done, the whole history holds no more than `UNDO_CAP` views.
pub proof fn history_is_bounded<V, D>(
    s: AppState<V, D>,
    v: V,
    moved_by_scope: bool,
    d1: u64,
    d2: u64,
    now: u64,
)
    requires
        s.wf(),
    ensures
        s.push_undo(v, d1).wf(),
        s.act_undo().wf(),
        s.act_redo().wf(),
        s.act_reset(v, d1, d2).wf(),
        s.observe(v, moved_by_scope, d1, d2, now).wf(),
{
}

/// The start of a gesture can be undone: going back leads to the view before it, as long as
/// that view was worth keeping. There is nothing to go forward to before that.
pub proof fn gesture_can_be_undone<V, D>(
    s: AppState<V, D>,
    obs: V,
    deviation: u64,
    from_last: u64,
    now: u64,
)
    requires
        s.wf(),
        s.view_x is Some,
        s.has_moved(deviation),
        s.starts_gesture(now),
        s.undo.len() == 0 || !double_lt(from_last, EM4),
    ensures
        ({
            let moved = s.observe(obs, false, deviation, from_last, now);
            &&& moved.view_x == Some(obs)
            &&& moved.redo.len() == 0
            &&& moved.act_undo().view_x == s.view_x
            &&& moved.act_undo().redo == seq![obs]
        }),
{
    let moved = s.observe(obs, false, deviation, from_last, now);
    assert(moved.undo.last() == s.view_x->0);
    assert(moved.act_undo().redo == seq![obs]);
}

/// A reset can be undone: going back leads to the view before it, as long as that view was
/// worth keeping.
pub proof fn reset_can_be_undone<V, D>(
    s: AppState<V, D>,
    target: V,
    to_target: u64,
    from_last: u64,
)
    requires
        s.wf(),
        s.view_x is Some,
        !double_lt(to_target, EM3),
        s.undo.len() == 0 || !double_lt(from_last, EM4),
    ensures
        ({
            let reset = s.act_reset(target, to_target, from_last);
            &&& reset.view_x == Some(target)
            &&& reset.act_undo().view_x == s.view_x
        }),
{
    let reset = s.act_reset(target, to_target, from_last);
    assert(reset.undo.last() == s.view_x->0);
}

/// Where the scope itself moves the plot, the history stays as it is.
pub proof fn own_moves_leave_no_trace<V, D>(
    s: AppState<V, D>,
    obs: V,
    deviation: u64,
    from_last: u64,
    now: u64,
)
    ensures
        s.observe(obs, true, deviation, from_last, now) == (AppState { view_x: Some(obs), ..s }),
{
}

/// One move of the plot by the user.
pub struct Move<V> {
    pub obs: V,
    pub deviation: u64,
    pub from_last: u64,
    pub at: u64,
}

/// The state after a series of moves by the user.
pub open spec fn after_moves<V, D>(s: AppState<V, D>, moves: Seq<Move<V>>) -> AppState<V, D>
    decreases moves.len(),
{
    if moves.len() == 0 {
        s
    } else {
        let m = moves.first();
        after_moves(s.observe(m.obs, false, m.deviation, m.from_last, m.at), moves.drop_first())
    }
}

/// The moves of one gesture that has begun at or before `since`: each comes soon after the one
/// before it.
pub open spec fn one_gesture<V>(moves: Seq<Move<V>>, since: u64) -> bool
    decreases moves.len(),
{
    moves.len() == 0 || {
        &&& time_since(moves.first().at, since) <= GESTURE_PAUSE_NS
        &&& double_lt(EM3, moves.first().deviation)
        &&& one_gesture(moves.drop_first(), moves.first().at)
    }
}

/// However many moves a gesture is made of, only its first leaves a trace in the history.
pub proof fn gesture_leaves_one_trace<V, D>(s: AppState<V, D>, moves: Seq<Move<V>>)
    requires
        s.last_view_change_at is Some,
        one_gesture(moves, s.last_view_change_at->0),
    ensures
        after_moves(s, moves).undo == s.undo,
        after_moves(s, moves).redo == s.redo,
        moves.len() > 0 ==> after_moves(s, moves).view_x == Some(moves.last().obs),
    decreases moves.len(),
{
    if moves.len() > 0 {
        let m = moves.first();
        let t = s.observe(m.obs, false, m.deviation, m.from_last, m.at);
        gesture_leaves_one_trace(t, moves.drop_first());
        if moves.len() > 1 {
            assert(moves.drop_first().last() == moves.last());
        } else {
            assert(after_moves(t, moves.drop_first()) == t);
        }
    }
}

/// While the user leaves the view alone, a new spectrum is wanted exactly when the pace allows
/// one.
pub proof fn spectra_are_paced<V, D>(s: AppState<V, D>, now: u64)
    requires
        s.last_fft_at is Some,
        s.last_view_change_at is Some,
        s.last_view_change_at->0 < s.last_fft_at->0,
    ensures
        s.wants_fft(now) <==> now >= s.last_fft_at->0 + FFT_PACE_NS,
{
}

/// A view that has been moved since gets its spectrum without waiting.
pub proof fn moved_view_gets_a_spectrum<V, D>(
    s: AppState<V, D>,
    obs: V,
    deviation: u64,
    from_last: u64,
    moved_at: u64,
    now: u64,
)
    requires
        s.has_moved(deviation),
        s.last_fft_at is Some ==> s.last_fft_at->0 <= moved_at,
    ensures
        s.observe(obs, false, deviation, from_last, moved_at).wants_fft(now),
{
}

/// The result at `k` is the one to show: none has a higher number, and none that came later has
/// the same.
pub open spec fn is_newest<D>(results: Seq<FftResult<D>>, k: int) -> bool {
    &&& 0 <= k < results.len()
    &&& forall|i: int|
        0 <= i < results.len() ==> (#[trigger] results[i]).seq <= results[k].seq && (i > k
            ==> results[i].seq < results[k].seq)
}

/// The result that was shown stays if all that came are older. Otherwise the newest of those
/// that came takes its place; of several with one number, the last that came.
pub proof fn newest_result_is_shown<D>(latest: Option<FftResult<D>>, results: Seq<FftResult<D>>)
    ensures
        ({
            let shown = newest_result(latest, results);
            ||| shown == latest && forall|i: int|
                0 <= i < results.len() ==> (#[trigger] results[i]).seq < latest->0.seq
            ||| exists|k: int|
                {
                    &&& #[trigger] is_newest(results, k)
                    &&& shown == Some(results[k])
                    &&& latest is Some ==> latest->0.seq <= results[k].seq
                }
        }),
    decreases results.len(),
{
    if results.len() > 0 {
        let earlier = results.drop_last();
        let last = results.len() - 1;
        let r = results[last];
        newest_result_is_shown(latest, earlier);
        let before = newest_result(latest, earlier);
        assert(forall|i: int| 0 <= i < last ==> earlier[i] == #[trigger] results[i]);
        if before is None || before->0.seq <= r.seq {
            assert(is_newest(results, last));
        } else if exists|k: int| #[trigger] is_newest(earlier, k) && before == Some(earlier[k]) {
            let k = choose|k: int| #[trigger] is_newest(earlier, k) && before == Some(earlier[k]);
            assert(results[k] == earlier[k]);
            assert(is_newest(results, k));
        }
    }
}

/// The same keys once more undo what they switch.
pub proof fn switches_go_back_and_forth<V, D>(s: AppState<V, D>, keys: KeyInput)
    ensures
        s.press(keys).press(keys) == s,
{
}

/// At the start all samples are in view, the plot has to be moved there, and there is nothing to
/// go back or forward to, no spectrum and no status.
pub proof fn start_shows_everything<V, D>(full: V, running: bool)
    ensures
        ({
            let s = AppState::<V, D>::initial(full, running);
            &&& s.view_x == Some(full)
            &&& s.pending_x == Some(full)
            &&& s.undo.len() == 0 && s.redo.len() == 0
            &&& s.last_view_change_at is None && s.last_fft_at is None
            &&& s.latest_result is None
            &&& s.job_seq == 0
            &&& s.status.len() == 0
            &&& s.running == running
            &&& s.show_details
            &&& forall|now: u64| s.wants_fft(now)
        }),
{
}

/// A scope that has not asked for a spectrum yet wants one at any time, and so does one whose
/// view was never moved. Any other wants one from 100 ms after the last on, and at any time if
/// the view was moved at the time of the last or after it.
pub proof fn spectrum_is_wanted<V, D>(s: AppState<V, D>, now: u64)
    ensures
        s.last_fft_at is None ==> s.wants_fft(now),
        s.last_view_change_at is None ==> s.wants_fft(now),
        match (s.last_view_change_at, s.last_fft_at) {
            (Some(changed), Some(asked)) => s.wants_fft(now) <==> changed >= asked || now - asked
                >= 100_000_000,
            _ => true,
        },
{
}

/// A spectrum that is wanted stays wanted until it is asked for.
pub proof fn wanting_lasts<V, D>(s: AppState<V, D>, now: u64, later: u64)
    requires
        s.wants_fft(now),
        now <= later,
    ensures
        s.wants_fft(later),
{
}

/// Two states agree in all but the view, its history and the time of its last move.
pub open spec fn alike_but_for_the_view<V, D>(s: AppState<V, D>, t: AppState<V, D>) -> bool {
    &&& s.job_seq == t.job_seq
    &&& s.latest_result == t.latest_result
    &&& s.last_fft_at == t.last_fft_at
    &&& s.status == t.status
    &&& s.running == t.running
    &&& s.show_details == t.show_details
}

/// Going back shows the view that was kept last, and the plot has to be moved to it, whatever it
/// had to be moved to before. That view is no longer one to go back to; the one that was shown
/// is the first to go forward to.
pub proof fn undo_shows_the_last_kept_view<V, D>(s: AppState<V, D>)
    ensures
        ({
            let t = s.act_undo();
            &&& s.undo.len() == 0 ==> t == s
            &&& s.undo.len() > 0 ==> {
                &&& t.view_x == Some(s.undo[s.undo.len() - 1])
                &&& t.pending_x == t.view_x
                &&& t.undo == s.undo.take(s.undo.len() - 1)
                &&& s.view_x matches Some(cur) ==> t.redo == s.redo.push(cur)
                &&& s.view_x is None ==> t.redo == s.redo
                &&& t.last_view_change_at == s.last_view_change_at
                &&& alike_but_for_the_view(s, t)
            }
        }),
{
}

/// Going forward shows the view that was last left by going back, and the plot has to be moved to
/// it. That view is no longer one to go forward to; the one that was shown is the first to go
/// back to, and no other is forgotten for it.
pub proof fn redo_shows_the_last_left_view<V, D>(s: AppState<V, D>)
    requires
        s.wf(),
    ensures
        ({
            let t = s.act_redo();
            &&& s.redo.len() == 0 ==> t == s
            &&& s.redo.len() > 0 ==> {
                &&& t.view_x == Some(s.redo[s.redo.len() - 1])
                &&& t.pending_x == t.view_x
                &&& t.redo == s.redo.take(s.redo.len() - 1)
                &&& s.view_x matches Some(cur) ==> t.undo == s.undo.push(cur)
                &&& s.view_x is None ==> t.undo == s.undo
                &&& t.last_view_change_at == s.last_view_change_at
                &&& alike_but_for_the_view(s, t)
            }
        }),
{
}

/// The state after going back `k` times.
pub open spec fn after_undos<V, D>(s: AppState<V, D>, k: nat) -> AppState<V, D>
    decreases k,
{
    if k == 0 {
        s
    } else {
        after_undos(s, (k - 1) as nat).act_undo()
    }
}

/// Going back again and again shows the kept views one by one, the last kept first, and leaves
/// each that was shown to go forward to.
pub proof fn undo_retraces_the_views<V, D>(s: AppState<V, D>, k: nat)
    requires
        s.view_x is Some,
        0 < k <= s.undo.len(),
    ensures
        ({
            let t = after_undos(s, k);
            &&& t.view_x == Some(s.undo[s.undo.len() - k])
            &&& t.pending_x == t.view_x
            &&& t.undo == s.undo.take(s.undo.len() - k)
            &&& t.redo.len() == s.redo.len() + k
            &&& t.redo.take(s.redo.len() as int) == s.redo
            &&& t.redo[s.redo.len() as int] == s.view_x->0
            &&& forall|j: int|
                0 < j < k ==> t.redo[s.redo.len() + j] == #[trigger] s.undo[s.undo.len() - j]
        }),
    decreases k,
{
    let t = after_undos(s, k);
    if k == 1 {
        assert(after_undos(s, 0) == s);
        assert(t.redo.take(s.redo.len() as int) == s.redo);
    } else {
        undo_retraces_the_views(s, (k - 1) as nat);
        let before = after_undos(s, (k - 1) as nat);
        assert(t.undo == s.undo.take(s.undo.len() - k));
        assert(t.redo.take(s.redo.len() as int) == before.redo.take(s.redo.len() as int));
    }
}

/// A view that is kept is the first to go back to, behind all that were kept before it; of these
/// only the oldest is forgotten, and that only where there are 64 already. There is nothing to go
/// forward to then. A view that lies closer than a ten-thousandth to the one that was kept last
/// changes nothing.
pub proof fn kept_view_is_the_first_to_go_back_to<V, D>(s: AppState<V, D>, prev: V, deviation: u64)
    ensures
        ({
            let t = s.push_undo(prev, deviation);
            let close = s.undo.len() > 0 && double_lt(deviation, EM4);
            &&& close ==> t == s
            &&& !close ==> {
                &&& t.undo.len() > 0 && t.undo[t.undo.len() - 1] == prev
                &&& t.redo.len() == 0
                &&& s.undo.len() < 64 ==> t.undo.len() == s.undo.len() + 1
                &&& s.undo.len() >= 64 ==> t.undo.len() == 64
                &&& forall|i: int|
                    0 < i < t.undo.len() ==> #[trigger] t.undo[t.undo.len() - 1 - i]
                        == s.undo[s.undo.len() - i]
                &&& t.view_x == s.view_x
                &&& t.pending_x == s.pending_x
                &&& t.last_view_change_at == s.last_view_change_at
                &&& alike_but_for_the_view(s, t)
            }
        }),
{
}

/// A reset shows `target`, and the plot has to be moved to it; the view that was shown is kept as
/// any other is. Where the view lies closer than a thousandth to `target`, nothing changes.
pub proof fn reset_shows_the_target<V, D>(
    s: AppState<V, D>,
    target: V,
    to_target: u64,
    from_last: u64,
)
    ensures
        ({
            let t = s.act_reset(target, to_target, from_last);
            let close = s.view_x is Some && double_lt(to_target, EM3);
            &&& close ==> t == s
            &&& !close ==> {
                &&& t.view_x == Some(target)
                &&& t.pending_x == Some(target)
                &&& s.view_x matches Some(cur) ==> {
                    &&& t.undo == s.push_undo(cur, from_last).undo
                    &&& t.redo == s.push_undo(cur, from_last).redo
                }
                &&& s.view_x is None ==> t.undo == s.undo && t.redo == s.redo
                &&& t.last_view_change_at == s.last_view_change_at
                &&& alike_but_for_the_view(s, t)
            }
        }),
{
}

/// Where the user moves the plot by more than a thousandth, what it shows is the view, and the
/// time of the move is noted. If the last move was more than 300 ms ago, or there was none, the
/// view before it is kept to go back to; if not, the history stays as it is.
pub proof fn moved_plot_becomes_the_view<V, D>(
    s: AppState<V, D>,
    obs: V,
    deviation: u64,
    from_last: u64,
    now: u64,
)
    requires
        s.view_x is None || double_lt(EM3, deviation),
    ensures
        ({
            let t = s.observe(obs, false, deviation, from_last, now);
            let pause_is_over = match s.last_view_change_at {
                Some(last) => now - last > 300_000_000,
                None => true,
            };
            &&& t.view_x == Some(obs)
            &&& t.pending_x == s.pending_x
            &&& t.last_view_change_at == Some(now)
            &&& alike_but_for_the_view(s, t)
            &&& s.view_x is Some && pause_is_over ==> {
                &&& t.undo == s.push_undo(s.view_x->0, from_last).undo
                &&& t.redo == s.push_undo(s.view_x->0, from_last).redo
            }
            &&& s.view_x is None || !pause_is_over ==> t.undo == s.undo && t.redo == s.redo
        }),
{
}

/// A plot that shows the view, give or take a thousandth, changes nothing; and where the scope
/// itself moved the plot, what it shows is the view and nothing else changes.
pub proof fn unmoved_plot_changes_nothing<V, D>(
    s: AppState<V, D>,
    obs: V,
    deviation: u64,
    from_last: u64,
    now: u64,
)
    ensures
        s.view_x is Some && !double_lt(EM3, deviation) ==> s.observe(
            obs,
            false,
            deviation,
            from_last,
            now,
        ) == s,
        ({
            let t = s.observe(obs, true, deviation, from_last, now);
            &&& t.view_x == Some(obs)
            &&& t.undo == s.undo
            &&& t.redo == s.redo
            &&& t.pending_x == s.pending_x
            &&& t.last_view_change_at == s.last_view_change_at
            &&& alike_but_for_the_view(s, t)
        }),
{
}

/// The first result that comes is shown. After that, a result is shown unless it bears a lower
/// number than the one that is.
pub proof fn results_never_go_back<D>(
    latest: Option<FftResult<D>>,
    results: Seq<FftResult<D>>,
    r: FftResult<D>,
)
    ensures
        newest_result(latest, Seq::empty()) == latest,
        ({
            let (before, after) = (
                newest_result(latest, results),
                newest_result(latest, results.push(r)),
            );
            &&& before is None ==> after == Some(r)
            &&& before is Some && r.seq >= before->0.seq ==> after == Some(r)
            &&& before is Some && r.seq < before->0.seq ==> after == before
        }),
{
    assert(results.push(r).drop_last() == results);
}

/// What each key does, alone and with others: the space bar starts and stops, and the tabulator
/// shows and hides the details; nothing else changes.
pub proof fn keys_switch<V, D>(s: AppState<V, D>, keys: KeyInput)
    ensures
        ({
            let t = s.press(keys);
            &&& keys.space ==> t.running == !s.running
            &&& !keys.space ==> t.running == s.running
            &&& keys.tab ==> t.show_details == !s.show_details
            &&& !keys.tab ==> t.show_details == s.show_details
            &&& t.view_x == s.view_x
            &&& t.undo == s.undo
            &&& t.redo == s.redo
            &&& t.pending_x == s.pending_x
            &&& t.last_view_change_at == s.last_view_change_at
            &&& t.job_seq == s.job_seq
            &&& t.latest_result == s.latest_result
            &&& t.last_fft_at == s.last_fft_at
            &&& t.status == s.status
        }),
{
}

/// What the keys ask for. `e` asks for an export, `q` for the end and `r` for a reset, whatever
/// else is pressed. The arrow to the left goes back, and so does `z` with the command key and
/// without shift. The arrow to the right goes forward, and so do `y` with the command key and `z`
/// with that and shift. Nothing else asks for anything.
pub proof fn keys_ask_for(keys: KeyInput)
    ensures
        ({
            let c = commands_of(keys);
            &&& c.export == keys.e
            &&& c.quit == keys.q
            &&& c.reset == keys.r
            &&& keys.arrow_left ==> c.undo
            &&& keys.command && keys.z && !keys.shift ==> c.undo
            &&& c.undo && !keys.arrow_left ==> keys.command && keys.z && !keys.shift
            &&& keys.arrow_right ==> c.redo
            &&& keys.command && keys.y ==> c.redo
            &&& keys.command && keys.z && keys.shift ==> c.redo
            &&& c.redo && !keys.arrow_right ==> keys.command && (keys.y || keys.z && keys.shift)
        }),
{
}

/// Shift turns `z` with the command key around: what went back goes forward.
pub proof fn shift_turns_undo_into_redo(keys: KeyInput)
    requires
        keys.command && keys.z && !keys.shift,
    ensures
        commands_of(keys).undo,
        commands_of(KeyInput { shift: true, ..keys }).redo,
        !keys.arrow_left ==> !commands_of(KeyInput { shift: true, ..keys }).undo,
        !keys.arrow_right && !keys.y ==> !commands_of(keys).redo,
{
}

} // verus!
