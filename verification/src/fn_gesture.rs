//! The `fn`-key gesture recognizer: a pure state machine that turns a stream
//! of timestamped `fn` edges into push-to-talk gestures. Timestamps and
//! thresholds are nanoseconds on a monotonic clock chosen by the caller.
use vstd::prelude::*;
use crate::shortcuts::{is_fn_gesture, Hotkey, HotkeyKind};

verus! {

/// A raw transition of the `fn` modifier bit.
#[derive(Debug, Clone, Copy, PartialEq, Eq)]
pub enum FnEdge {
    Down,
    Up,
}

/// A recognized gesture.
#[derive(Debug, Clone, Copy, PartialEq, Eq)]
pub enum Gesture {
    /// The first press of a (possible) hold, emitted on `Down`.
    Press,
    /// The `Up` that ends a press held at least the hold threshold.
    Release,
    /// A second press within the gap of a sub-threshold tap.
    DoubleTap,
}

/// A press held at least this long (nanoseconds) is a hold: 350 ms.
pub const HOLD_THRESHOLD: u128 = 350_000_000;

/// A second `Down` within this gap (nanoseconds) of a tap's `Up` is a
/// double-tap: 400 ms.
pub const DOUBLE_TAP_GAP: u128 = 400_000_000;

/// What the previous, now-completed, press left behind.
#[derive(Debug, Clone, Copy, PartialEq, Eq)]
pub enum Prev {
    /// No press is open and none is pending as a double-tap candidate.
    Idle,
    /// A press is held since `at`.
    Down { at: u128 },
    /// The last press was a sub-threshold tap that ended at `up_at`.
    PendingTap { up_at: u128 },
    /// A double-tap fired; the `Up` of its second press is swallowed.
    SwallowUp,
}

/// Pure `fn`-gesture recognizer. Feed it edges with monotonic timestamps;
/// each call returns at most one gesture.
#[derive(Debug)]
pub struct GestureState {
    prev: Prev,
    hold: u128,
    gap: u128,
}

/// `now.saturating_sub(then)`.
pub open spec fn elapsed(now: u128, then: u128) -> int {
    if now >= then {
        now - then
    } else {
        0
    }
}

/// One recognizer step: the next phase and the emitted gesture.
pub open spec fn step(prev: Prev, hold: u128, gap: u128, edge: FnEdge, now: u128) -> (
    Prev,
    Option<Gesture>,
) {
    match edge {
        FnEdge::Down => match prev {
            Prev::PendingTap { up_at } if elapsed(now, up_at) < gap => (
                Prev::SwallowUp,
                Some(Gesture::DoubleTap),
            ),
            _ => (Prev::Down { at: now }, Some(Gesture::Press)),
        },
        FnEdge::Up => match prev {
            Prev::Down { at } => if elapsed(now, at) >= hold {
                (Prev::Idle, Some(Gesture::Release))
            } else {
                (Prev::PendingTap { up_at: now }, None)
            },
            Prev::SwallowUp => (Prev::Idle, None),
            _ => (prev, None),
        },
    }
}

impl GestureState {
    pub closed spec fn phase(&self) -> Prev {
        self.prev
    }

    pub closed spec fn hold_spec(&self) -> u128 {
        self.hold
    }

    pub closed spec fn gap_spec(&self) -> u128 {
        self.gap
    }

    /// A fresh recognizer with the given hold threshold and double-tap gap.
    pub fn new(hold: u128, gap: u128) -> (s: Self)
        ensures
            s.phase() == Prev::Idle,
            s.hold_spec() == hold,
            s.gap_spec() == gap,
    {
        GestureState { prev: Prev::Idle, hold, gap }
    }

    /// Classifies one `fn` edge.
    pub fn on_edge(&mut self, edge: FnEdge, now: u128) -> (g: Option<Gesture>)
        ensures
            (final(self).phase(), g) == step(
                old(self).phase(),
                old(self).hold_spec(),
                old(self).gap_spec(),
                edge,
                now,
            ),
            final(self).hold_spec() == old(self).hold_spec(),
            final(self).gap_spec() == old(self).gap_spec(),
    {
        match edge {
            FnEdge::Down => self.on_down(now),
            FnEdge::Up => self.on_up(now),
        }
    }

    fn on_down(&mut self, now: u128) -> (g: Option<Gesture>)
        ensures
            (final(self).prev, g) == step(old(self).prev, old(self).hold, old(self).gap, FnEdge::Down, now),
            final(self).hold == old(self).hold,
            final(self).gap == old(self).gap,
    {
        let double_tap = match self.prev {
            Prev::PendingTap { up_at } => saturating_elapsed(now, up_at) < self.gap,
            _ => false,
        };
        if double_tap {
            self.prev = Prev::SwallowUp;
            Some(Gesture::DoubleTap)
        } else {
            self.prev = Prev::Down { at: now };
            Some(Gesture::Press)
        }
    }

    fn on_up(&mut self, now: u128) -> (g: Option<Gesture>)
        ensures
            (final(self).prev, g) == step(old(self).prev, old(self).hold, old(self).gap, FnEdge::Up, now),
            final(self).hold == old(self).hold,
            final(self).gap == old(self).gap,
    {
        match self.prev {
            Prev::Down { at } => {
                if saturating_elapsed(now, at) >= self.hold {
                    self.prev = Prev::Idle;
                    Some(Gesture::Release)
                } else {
                    self.prev = Prev::PendingTap { up_at: now };
                    None
                }
            },
            Prev::SwallowUp => {
                self.prev = Prev::Idle;
                None
            },
            _ => None,
        }
    }
}

fn saturating_elapsed(now: u128, then: u128) -> (d: u128)
    ensures
        d == elapsed(now, then),
{
    if now >= then {
        now - then
    } else {
        0
    }
}

impl Default for GestureState {
    fn default() -> (s: Self)
        ensures
            s.phase() == Prev::Idle,
            s.hold_spec() == HOLD_THRESHOLD,
            s.gap_spec() == DOUBLE_TAP_GAP,
    {
        Self::new(HOLD_THRESHOLD, DOUBLE_TAP_GAP)
    }
}

/// Every `Down` emits a gesture, and it is a `Press` or a `DoubleTap`; every
/// `Up` emits nothing or a `Release`.
pub proof fn law_down_emits_press_or_double_tap_up_at_most_release(
    prev: Prev,
    hold: u128,
    gap: u128,
    edge: FnEdge,
    now: u128,
)
    ensures
        edge == FnEdge::Down ==> step(prev, hold, gap, edge, now).1 == Some(Gesture::Press)
            || step(prev, hold, gap, edge, now).1 == Some(Gesture::DoubleTap),
        edge == FnEdge::Up ==> step(prev, hold, gap, edge, now).1 is None
            || step(prev, hold, gap, edge, now).1 == Some(Gesture::Release),
{
}

/// A `Release` is emitted exactly for the `Up` that ends a press held at
/// least the hold threshold.
pub proof fn law_release_iff_held_long_enough(
    prev: Prev,
    hold: u128,
    gap: u128,
    now: u128,
)
    ensures
        step(prev, hold, gap, FnEdge::Up, now).1 == Some(Gesture::Release) <==> (
        prev matches Prev::Down { at } && elapsed(now, at) >= hold),
{
}

/// A `Down` is a double-tap exactly when the preceding press was a
/// sub-threshold tap whose `Up` lies strictly within the gap; after a hold or
/// a swallowed `Up` a re-press is always a fresh `Press`.
pub proof fn law_double_tap_iff_recent_tap(prev: Prev, hold: u128, gap: u128, now: u128)
    ensures
        step(prev, hold, gap, FnEdge::Down, now).1 == Some(Gesture::DoubleTap) <==> (
        prev matches Prev::PendingTap { up_at } && elapsed(now, up_at) < gap),
        (prev == Prev::Idle || prev == Prev::SwallowUp) ==> step(prev, hold, gap, FnEdge::Down, now).1
            == Some(Gesture::Press),
{
}

/// After a double-tap, the next `Up` is swallowed and the recognizer is idle
/// again, so the following press is independent of the double-tap.
pub proof fn law_double_tap_swallows_next_up(
    prev: Prev,
    hold: u128,
    gap: u128,
    t1: u128,
    t2: u128,
)
    requires
        step(prev, hold, gap, FnEdge::Down, t1).1 == Some(Gesture::DoubleTap),
    ensures
        step(step(prev, hold, gap, FnEdge::Down, t1).0, hold, gap, FnEdge::Up, t2) == (
        Prev::Idle,
        Option::<Gesture>::None,
        ),
{
}

/// A stray `Up` with no open press changes nothing and emits nothing.
pub proof fn law_stray_up_is_ignored(prev: Prev, hold: u128, gap: u128, now: u128)
    requires
        prev == Prev::Idle || prev is PendingTap,
    ensures
        step(prev, hold, gap, FnEdge::Up, now) == (prev, Option::<Gesture>::None),
{
}

/// The phase a recognizer started fresh is in after the edges `h`, each an
/// edge with its timestamp, in order.
pub open spec fn phase_after(hold: u128, gap: u128, h: Seq<(FnEdge, u128)>) -> Prev
    decreases h.len(),
{
    if h.len() == 0 {
        Prev::Idle
    } else {
        step(phase_after(hold, gap, h.drop_last()), hold, gap, h.last().0, h.last().1).0
    }
}

/// The gesture the `k`-th edge of `h` emitted.
pub open spec fn emitted(hold: u128, gap: u128, h: Seq<(FnEdge, u128)>, k: int) -> Option<Gesture> {
    step(phase_after(hold, gap, h.take(k)), hold, gap, h[k].0, h[k].1).1
}

/// The position of the last `Down` in `h`.
pub open spec fn last_down(h: Seq<(FnEdge, u128)>) -> Option<int>
    decreases h.len(),
{
    if h.len() == 0 {
        None
    } else if h.last().0 == FnEdge::Down {
        Some(h.len() - 1)
    } else {
        last_down(h.drop_last())
    }
}

/// The last edge of `h` is a `Down` that emitted `g`.
pub open spec fn ends_with_down(hold: u128, gap: u128, h: Seq<(FnEdge, u128)>, g: Gesture) -> bool {
    last_down(h) == Some(h.len() - 1) && emitted(hold, gap, h, h.len() - 1) == Some(g)
}

/// The last `Down` of `h` emitted a `Press`, and the first edge after it is
/// an `Up` that came before the hold threshold: a tap.
pub open spec fn ends_with_tap(hold: u128, gap: u128, h: Seq<(FnEdge, u128)>) -> bool {
    last_down(h) matches Some(k) && emitted(hold, gap, h, k) == Some(Gesture::Press) && k + 1
        < h.len() && elapsed(h[k + 1].1, h[k].1) < hold
}

proof fn lemma_last_down(h: Seq<(FnEdge, u128)>)
    ensures
        last_down(h) matches Some(k) ==> 0 <= k < h.len() && h[k].0 == FnEdge::Down && forall|j: int|
            k < j < h.len() ==> #[trigger] h[j].0 == FnEdge::Up,
        last_down(h) is None ==> forall|j: int| 0 <= j < h.len() ==> #[trigger] h[j].0 == FnEdge::Up,
    decreases h.len(),
{
    if h.len() > 0 && h.last().0 != FnEdge::Down {
        lemma_last_down(h.drop_last());
        assert forall|j: int| 0 <= j < h.len() - 1 implies #[trigger] h[j] == h.drop_last()[j] by {}
    }
}

proof fn lemma_emitted_prefix(hold: u128, gap: u128, h: Seq<(FnEdge, u128)>, k: int)
    requires
        0 <= k < h.len() - 1,
    ensures
        emitted(hold, gap, h, k) == emitted(hold, gap, h.drop_last(), k),
{
    assert(h.take(k) =~= h.drop_last().take(k));
    assert(h[k] == h.drop_last()[k]);
}

/// The phase after a history, read off the history: a press is open exactly
/// when the last edge is a `Down` that emitted `Press` (held since then); an
/// `Up` is being swallowed exactly when the last edge is a `Down` that
/// emitted `DoubleTap`; a tap is pending exactly when the last `Down`
/// emitted `Press` and the `Up` right after it came before the threshold;
/// otherwise the recognizer is idle, as fresh.
proof fn lemma_phase_by_history(hold: u128, gap: u128, h: Seq<(FnEdge, u128)>)
    ensures
        (phase_after(hold, gap, h) is Down) <==> ends_with_down(hold, gap, h, Gesture::Press),
        phase_after(hold, gap, h) matches Prev::Down { at } ==> at == h.last().1,
        (phase_after(hold, gap, h) == Prev::SwallowUp) <==> ends_with_down(
            hold,
            gap,
            h,
            Gesture::DoubleTap,
        ),
        (phase_after(hold, gap, h) is PendingTap) <==> ends_with_tap(hold, gap, h),
        phase_after(hold, gap, h) matches Prev::PendingTap { up_at } ==> up_at == h[last_down(
            h,
        )->0 + 1].1,
    decreases h.len(),
{
    lemma_last_down(h);
    if h.len() > 0 {
        let f = h.drop_last();
        let n = h.len() - 1;
        lemma_phase_by_history(hold, gap, f);
        lemma_last_down(f);
        assert(h.take(n) =~= f);
        let prev = phase_after(hold, gap, f);
        if h.last().0 == FnEdge::Up {
            assert(last_down(h) == last_down(f));
            if let Some(k) = last_down(f) {
                if k < n - 1 {
                    lemma_emitted_prefix(hold, gap, h, k);
                    assert(h[k + 1] == f[k + 1]);
                    assert(h[k] == f[k]);
                } else {
                    assert(k == n - 1);
                    lemma_emitted_prefix(hold, gap, h, k);
                    assert(h[k] == f[k]);
                    assert(h[k + 1] == h.last());
                }
            }
        }
    }
}

/// Over whole histories: the `Up` at `t` after the edges `h` emits a
/// `Release` exactly when the last edge was a `Down` that emitted `Press` at
/// `d` (so no `Up` came since) and `t - d` reaches the hold threshold.
pub proof fn law_release_by_history(hold: u128, gap: u128, h: Seq<(FnEdge, u128)>, t: u128)
    ensures
        step(phase_after(hold, gap, h), hold, gap, FnEdge::Up, t).1 == Some(Gesture::Release) <==> (
        ends_with_down(hold, gap, h, Gesture::Press) && elapsed(t, h.last().1) >= hold),
{
    lemma_phase_by_history(hold, gap, h);
}

/// Over whole histories: the `Down` at `t` after the edges `h` emits a
/// `DoubleTap` exactly when the last `Down` emitted `Press` at `d`, the first
/// `Up` after it came at `u` with `u - d` under the hold threshold, and
/// `t - u` is under the gap. Every other `Down` emits `Press`.
pub proof fn law_double_tap_by_history(hold: u128, gap: u128, h: Seq<(FnEdge, u128)>, t: u128)
    ensures
        step(phase_after(hold, gap, h), hold, gap, FnEdge::Down, t).1 == Some(Gesture::DoubleTap)
            <==> (ends_with_tap(hold, gap, h) && elapsed(t, h[last_down(h)->0 + 1].1) < gap),
        step(phase_after(hold, gap, h), hold, gap, FnEdge::Down, t).1 != Some(Gesture::DoubleTap)
            ==> step(phase_after(hold, gap, h), hold, gap, FnEdge::Down, t).1 == Some(Gesture::Press),
{
    lemma_phase_by_history(hold, gap, h);
}

/// What a recognized gesture does to dictation.
#[derive(Debug, Clone, Copy, PartialEq, Eq)]
pub enum GestureRoute {
    /// The push-to-talk hotkey went down.
    Pressed,
    /// The push-to-talk hotkey came up.
    Released,
    /// Nothing: the gesture is not the push-to-talk trigger, or a double-tap
    /// (which already latched through its first press).
    Nothing,
}

/// Routes a gesture: only while push-to-talk is bound to an `fn` gesture
/// does a press or a release reach dictation.
pub fn route_gesture(push_to_talk: &Hotkey, gesture: Gesture) -> (r: GestureRoute)
    ensures
        r == (if !((push_to_talk.kind == HotkeyKind::Hold || push_to_talk.kind
            == HotkeyKind::DoubleTap) && push_to_talk.key@ == "fn"@) {
            GestureRoute::Nothing
        } else {
            match gesture {
                Gesture::Press => GestureRoute::Pressed,
                Gesture::Release => GestureRoute::Released,
                Gesture::DoubleTap => GestureRoute::Nothing,
            }
        }),
{
    if !is_fn_gesture(push_to_talk) {
        return GestureRoute::Nothing;
    }
    match gesture {
        Gesture::Press => GestureRoute::Pressed,
        Gesture::Release => GestureRoute::Released,
        Gesture::DoubleTap => GestureRoute::Nothing,
    }
}

/// Off macOS there is no Input Monitoring permission to report.
pub fn input_monitoring_status() -> (s: &'static str)
    ensures
        s@ == "unknown"@,
{
    "unknown"
}

/// Off macOS there is no Input Monitoring permission to request.
pub fn request_input_monitoring() {
}

/// Deep link into System Settings → Privacy & Security → Input Monitoring.
pub const INPUT_MONITORING_SETTINGS_URL: &'static str =
    "x-apple.systempreferences:com.apple.preference.security?Privacy_ListenEvent";

} // verus!
