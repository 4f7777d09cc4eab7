use std::collections::VecDeque;

use vstd::prelude::*;

use crate::assets::{AssetManifest, ManifestView};
use crate::pet::sat_sub_u64;

verus! {

/// Samples older than this, relative to the newest, leave the window.
pub const SAMPLE_WINDOW_MS: u64 = 900;
/// No new stroke is recognised this soon after the last one.
pub const STROKE_COOLDOWN_MS: u64 = 1_200;
/// A stroke needs at least this many samples in the window.
pub const STROKE_MIN_SAMPLES: usize = 6;
/// A stroke needs a path at least this long, in micro-pixels (24 px).
pub const STROKE_MIN_PATH_MICROS: u128 = 24_000_000;

#[derive(Clone, Copy, Debug, PartialEq, Eq, Structural)]
pub enum GestureEvent {
    Stroked,
}

/// A pointer position inside a stroke zone and when it was seen.
#[derive(Clone, Copy, Debug, PartialEq, Eq, Structural)]
pub struct Sample {
    pub x: i32,
    pub y: i32,
    pub at_ms: u64,
}

/// The integer square root: the largest `r` with `r * r <= n`.
pub open spec fn is_isqrt(r: nat, n: nat) -> bool {
    r * r <= n < (r + 1) * (r + 1)
}

pub open spec fn isqrt(n: nat) -> nat {
    choose|r: nat| is_isqrt(r, n)
}

proof fn lemma_isqrt_unique(r: nat, s: nat, n: nat)
    requires
        is_isqrt(r, n),
        is_isqrt(s, n),
    ensures
        r == s,
{
    if r < s {
        assert((r + 1) * (r + 1) <= s * s) by (nonlinear_arith)
            requires r + 1 <= s;
    } else if s < r {
        assert((s + 1) * (s + 1) <= r * r) by (nonlinear_arith)
            requires s + 1 <= r;
    }
}

/// Computes `isqrt(n)` by bisection.
fn isqrt_u128(n: u128) -> (r: u128)
    requires
        n < 0x1_0000_0000_0000_0000_0000_0000_0000,
    ensures
        r == isqrt(n as nat),
        r < 0x1_0000_0000_0000_0000,
{
    let mut lo: u128 = 0;
    let mut hi: u128 = 0x1_0000_0000_0000_0000;
    assert(hi * hi > n) by (nonlinear_arith)
        requires hi == 0x1_0000_0000_0000_0000u128, n < 0x1_0000_0000_0000_0000_0000_0000_0000;
    while hi - lo > 1
        invariant
            lo < hi <= 0x1_0000_0000_0000_0000,
            lo * lo <= n,
            n < hi * hi,
        decreases hi - lo,
    {
        let mid = lo + (hi - lo) / 2;
        assert(mid * mid < 0x1_0000_0000_0000_0000_0000_0000_0000_0000) by (nonlinear_arith)
            requires mid < 0x1_0000_0000_0000_0000;
        if mid * mid <= n {
            lo = mid;
        } else {
            hi = mid;
        }
    }
    proof {
        assert(hi == lo + 1);
        assert(is_isqrt(lo as nat, n as nat));
        let r = isqrt(n as nat);
        assert(is_isqrt(r, n as nat));
        lemma_isqrt_unique(lo as nat, r, n as nat);
    }
    lo
}

pub open spec fn sq(v: int) -> int {
    v * v
}

/// Length of the step between two samples, in micro-pixels, rounded down.
pub open spec fn segment_micros(a: Sample, b: Sample) -> nat {
    isqrt(((sq(b.x - a.x) + sq(b.y - a.y)) * 1_000_000_000_000) as nat)
}

/// Length of the path through the samples, in micro-pixels.
pub open spec fn path_micros(s: Seq<Sample>) -> nat
    decreases s.len(),
{
    if s.len() < 2 {
        0
    } else {
        path_micros(s.drop_last()) + segment_micros(s[s.len() - 2], s[s.len() - 1])
    }
}

pub open spec fn sign_of(v: int) -> int {
    if v > 0 { 1 } else if v < 0 { -1 } else { 0 }
}

/// How often the horizontal direction reverses along the samples (steps with no
/// horizontal motion keep the last direction), and the last direction.
pub open spec fn direction_changes(s: Seq<Sample>) -> (nat, int)
    decreases s.len(),
{
    if s.len() < 2 {
        (0, 0)
    } else {
        let (changes, last) = direction_changes(s.drop_last());
        let sign = sign_of(s[s.len() - 1].x - s[s.len() - 2].x);
        (
            if sign != 0 && last != 0 && sign != last { changes + 1 } else { changes },
            if sign != 0 { sign } else { last },
        )
    }
}

/// The samples still in the window at `now_ms`: old ones leave from the front.
pub open spec fn trimmed(s: Seq<Sample>, now_ms: u64) -> Seq<Sample>
    decreases s.len(),
{
    if s.len() > 0 && sat_sub_u64(now_ms, s[0].at_ms) > SAMPLE_WINDOW_MS {
        trimmed(s.drop_first(), now_ms)
    } else {
        s
    }
}

/// The abstract state of the tracker.
pub struct TrackerState {
    pub samples: Seq<Sample>,
    pub last_stroke_ms: u64,
}

impl TrackerState {
    /// Whether the samples make a stroke: enough of them, a long enough path, and at least
    /// one reversal.
    pub open spec fn is_stroke(samples: Seq<Sample>) -> bool {
        &&& samples.len() >= STROKE_MIN_SAMPLES
        &&& path_micros(samples) >= STROKE_MIN_PATH_MICROS
        &&& direction_changes(samples).0 >= 1
    }

    /// The tracker after the pointer moved to `(x, y)` at `at_ms`, and the gesture recognised.
    pub open spec fn moved(self, x: i32, y: i32, at_ms: u64, m: ManifestView) -> (TrackerState, Option<GestureEvent>) {
        if !m.stroke_zone_at(x as int, y as int) {
            (TrackerState { samples: Seq::empty(), ..self }, None)
        } else {
            let samples = trimmed(self.samples.push(Sample { x, y, at_ms }), at_ms);
            let kept = TrackerState { samples, ..self };
            if sat_sub_u64(at_ms, self.last_stroke_ms) < STROKE_COOLDOWN_MS {
                (kept, None)
            } else if TrackerState::is_stroke(samples) {
                (TrackerState { samples: Seq::empty(), last_stroke_ms: at_ms }, Some(GestureEvent::Stroked))
            } else {
                (kept, None)
            }
        }
    }
}

/// Recognises a stroke from pointer motion over the pet.
#[derive(Clone, Debug)]
pub struct GestureTracker {
    samples: VecDeque<Sample>,
    last_stroke_ms: u64,
}

impl View for GestureTracker {
    type V = TrackerState;

    closed spec fn view(&self) -> TrackerState {
        TrackerState { samples: self.samples@, last_stroke_ms: self.last_stroke_ms }
    }
}

impl Default for GestureTracker {
    fn default() -> (tracker: Self)
        ensures
            tracker@ == (TrackerState { samples: Seq::empty(), last_stroke_ms: 0 }),
    {
        let tracker = Self { samples: VecDeque::new(), last_stroke_ms: 0 };
        assert(tracker@.samples =~= Seq::<Sample>::empty());
        tracker
    }
}

impl GestureTracker {
    pub fn pointer_moved(&mut self, x: i32, y: i32, at_ms: u64, manifest: &AssetManifest) -> (event: Option<
        GestureEvent,
    >)
        ensures
            (final(self)@, event) == old(self)@.moved(x, y, at_ms, manifest@),
    {
        if !manifest.is_stroke_zone(x, y) {
            self.samples.clear();
            return None;
        }
        self.samples.push_back(Sample { x, y, at_ms });
        let ghost pushed = self.samples@;
        while self.samples.len() > 0 && at_ms.saturating_sub(self.samples[0].at_ms) > SAMPLE_WINDOW_MS
            invariant
                trimmed(pushed, at_ms) == trimmed(self.samples@, at_ms),
                pushed == old(self)@.samples.push(Sample { x, y, at_ms }),
                self.last_stroke_ms == old(self).last_stroke_ms,
                manifest@.stroke_zone_at(x as int, y as int),
            decreases self.samples@.len(),
        {
            self.samples.pop_front();
        }
        assert(trimmed(self.samples@, at_ms) == self.samples@);

        let since = at_ms.saturating_sub(self.last_stroke_ms);
        if since < STROKE_COOLDOWN_MS {
            return None;
        }
        if self.samples.len() < STROKE_MIN_SAMPLES {
            return None;
        }

        let n = self.samples.len();
        let ghost s = self.samples@;
        let mut distance: u128 = 0;
        let mut changes: u64 = 0;
        let mut last_sign: i64 = 0;
        let mut i: usize = 1;
        while i < n
            invariant
                n == s.len(),
                s == self.samples@,
                1 <= i <= n,
                distance == path_micros(s.take(i as int)),
                distance <= i * 0x1_0000_0000_0000_0000,
                changes == direction_changes(s.take(i as int)).0,
                last_sign == direction_changes(s.take(i as int)).1,
                changes <= i,
            decreases n - i,
        {
            let previous = self.samples[i - 1];
            let sample = self.samples[i];
            let dx = sample.x as i64 - previous.x as i64;
            let dy = sample.y as i64 - previous.y as i64;
            let ax = (if dx < 0 { -dx } else { dx }) as u128;
            let ay = (if dy < 0 { -dy } else { dy }) as u128;
            assert(ax * ax <= 0x1_0000_0000_0000_0000 && ay * ay <= 0x1_0000_0000_0000_0000) by (nonlinear_arith)
                requires ax <= 0x1_0000_0000, ay <= 0x1_0000_0000;
            let squared = ax * ax + ay * ay;
            assert(squared == sq(sample.x - previous.x) + sq(sample.y - previous.y)) by (nonlinear_arith)
                requires
                    ax == (if dx < 0 { -(dx as int) } else { dx as int }),
                    ay == (if dy < 0 { -(dy as int) } else { dy as int }),
                    dx == sample.x - previous.x,
                    dy == sample.y - previous.y,
                    squared == ax * ax + ay * ay;
            let step = isqrt_u128(squared * 1_000_000_000_000);
            proof {
                assert(s.take(i + 1).drop_last() =~= s.take(i as int));
                assert(s.take(i + 1)[i - 1] == previous);
                assert(s.take(i + 1)[i as int] == sample);
            }
            distance = distance + step;
            let sign: i64 = if dx > 0 { 1 } else if dx < 0 { -1 } else { 0 };
            if sign != 0 && last_sign != 0 && sign != last_sign {
                changes = changes + 1;
            }
            if sign != 0 {
                last_sign = sign;
            }
            i = i + 1;
        }
        assert(s.take(n as int) =~= s);

        if distance >= STROKE_MIN_PATH_MICROS && changes >= 1 {
            self.last_stroke_ms = at_ms;
            self.samples.clear();
            Some(GestureEvent::Stroked)
        } else {
            None
        }
    }
}


/// Moving the pointer off the stroke zones forgets the motion so far.
pub proof fn lemma_outside_motion_resets(t: TrackerState, x: i32, y: i32, at_ms: u64, m: ManifestView)
    requires
        !m.stroke_zone_at(x as int, y as int),
    ensures
        t.moved(x, y, at_ms, m).0.samples.len() == 0,
        t.moved(x, y, at_ms, m).1 is None,
{
}

/// After a stroke, no other is recognised for 1.2 seconds.
pub proof fn lemma_stroke_cooldown(
    t: TrackerState,
    x1: i32,
    y1: i32,
    at1: u64,
    x2: i32,
    y2: i32,
    at2: u64,
    m: ManifestView,
)
    requires
        t.moved(x1, y1, at1, m).1 is Some,
        at1 <= at2 < at1 + STROKE_COOLDOWN_MS,
    ensures
        t.moved(x1, y1, at1, m).0.moved(x2, y2, at2, m).1 is None,
{
}

/// A recognised stroke is six or more recent samples on the stroke zones, tracing at least
/// 24 px with at least one reversal.
pub proof fn lemma_stroke_needs_motion(t: TrackerState, x: i32, y: i32, at_ms: u64, m: ManifestView)
    requires
        t.moved(x, y, at_ms, m).1 is Some,
    ensures
        m.stroke_zone_at(x as int, y as int),
        TrackerState::is_stroke(trimmed(t.samples.push(Sample { x, y, at_ms }), at_ms)),
        sat_sub_u64(at_ms, t.last_stroke_ms) >= STROKE_COOLDOWN_MS,
{
}

/// A pause in the pointer's horizontal motion does not hide a reversal: inserting, after
/// any sample, one more sample at the same x leaves the number of reversals, and the last
/// horizontal direction, as they were.
pub proof fn lemma_pause_keeps_reversals(s: Seq<Sample>, k: int, q: Sample)
    requires
        1 <= k <= s.len(),
        q.x == s[k - 1].x,
    ensures
        direction_changes(s.insert(k, q)) == direction_changes(s),
    decreases s.len(),
{
    let t = s.insert(k, q);
    if k == s.len() {
        assert(t.drop_last() =~= s);
    } else {
        assert(t.drop_last() =~= s.drop_last().insert(k, q));
        lemma_pause_keeps_reversals(s.drop_last(), k, q);
        assert(t[t.len() - 1] == s[s.len() - 1]);
        assert(t[t.len() - 2].x == s[s.len() - 2].x);
    }
}

proof fn lemma_isqrt_zero()
    ensures
        isqrt(0) == 0,
{
    assert(is_isqrt(0nat, 0nat)) by (nonlinear_arith);
    lemma_isqrt_unique(isqrt(0), 0, 0);
}

/// Repeating a sample, at the same place, adds nothing to the path.
proof fn lemma_repeat_keeps_path(s: Seq<Sample>, k: int, q: Sample)
    requires
        1 <= k <= s.len(),
        q.x == s[k - 1].x,
        q.y == s[k - 1].y,
    ensures
        path_micros(s.insert(k, q)) == path_micros(s),
    decreases s.len(),
{
    let t = s.insert(k, q);
    lemma_isqrt_zero();
    if k == s.len() {
        assert(t.drop_last() =~= s);
        assert(sq(q.x - s[k - 1].x) + sq(q.y - s[k - 1].y) == 0);
    } else {
        assert(t.drop_last() =~= s.drop_last().insert(k, q));
        lemma_repeat_keeps_path(s.drop_last(), k, q);
        assert(t[t.len() - 1] == s[s.len() - 1]);
        assert(t[t.len() - 2].x == s[s.len() - 2].x && t[t.len() - 2].y == s[s.len() - 2].y);
    }
}

/// A pointer that rests for one more sample, at the same place, in the middle of a stroke
/// still strokes: the run with the repeated sample is a stroke too.
pub proof fn lemma_rest_keeps_stroke(s: Seq<Sample>, k: int, q: Sample)
    requires
        TrackerState::is_stroke(s),
        1 <= k <= s.len(),
        q.x == s[k - 1].x,
        q.y == s[k - 1].y,
    ensures
        TrackerState::is_stroke(s.insert(k, q)),
{
    lemma_pause_keeps_reversals(s, k, q);
    lemma_repeat_keeps_path(s, k, q);
}

/// The tracker after a run of pointer motions, and what each of them recognised.
pub open spec fn replay(t: TrackerState, moves: Seq<Sample>, m: ManifestView) -> (TrackerState, Seq<Option<GestureEvent>>)
    decreases moves.len(),
{
    if moves.len() == 0 {
        (t, Seq::empty())
    } else {
        let (u, events) = replay(t, moves.drop_last(), m);
        let mv = moves.last();
        let (v, e) = u.moved(mv.x, mv.y, mv.at_ms, m);
        (v, events.push(e))
    }
}

proof fn lemma_trimmed_len(s: Seq<Sample>, now_ms: u64)
    ensures
        trimmed(s, now_ms).len() <= s.len(),
    decreases s.len(),
{
    if s.len() > 0 && sat_sub_u64(now_ms, s[0].at_ms) > SAMPLE_WINDOW_MS {
        lemma_trimmed_len(s.drop_first(), now_ms);
    }
}

proof fn lemma_replay_bounds(t: TrackerState, moves: Seq<Sample>, m: ManifestView, since: u64)
    requires
        t.last_stroke_ms >= since,
    ensures
        replay(t, moves, m).0.last_stroke_ms >= since,
        replay(t, moves, m).1.len() == moves.len(),
        replay(t, moves, m).0.samples.len() <= t.samples.len() + moves.len(),
        forall|i: int|
            0 <= i < moves.len() && (#[trigger] moves[i]).at_ms < since + STROKE_COOLDOWN_MS
                ==> replay(t, moves, m).1[i] is None,
        forall|i: int|
            0 <= i < moves.len() && t.samples.len() + i + 1 < STROKE_MIN_SAMPLES
                ==> #[trigger] replay(t, moves, m).1[i] is None,
    decreases moves.len(),
{
    if moves.len() > 0 {
        let prefix = moves.drop_last();
        lemma_replay_bounds(t, prefix, m, since);
        let (u, events) = replay(t, prefix, m);
        let mv = moves.last();
        lemma_trimmed_len(u.samples.push(Sample { x: mv.x, y: mv.y, at_ms: mv.at_ms }), mv.at_ms);
        assert forall|i: int|
            0 <= i < moves.len() && (#[trigger] moves[i]).at_ms < since + STROKE_COOLDOWN_MS
                implies replay(t, moves, m).1[i] is None by {
            if i < prefix.len() {
                assert(moves[i] == prefix[i]);
            }
        }
        assert forall|i: int|
            0 <= i < moves.len() && t.samples.len() + i + 1 < STROKE_MIN_SAMPLES
                implies #[trigger] replay(t, moves, m).1[i] is None by {
            if i < prefix.len() {
                assert(moves[i] == prefix[i]);
            }
        }
    }
}

/// However the pointer moves after a stroke, no motion within 1.2 seconds of it is
/// recognised as another stroke, and none of the next five motions is: the stroke
/// forgot the motion before it.
pub proof fn lemma_stroke_cooldown_over_motions(
    t: TrackerState,
    x: i32,
    y: i32,
    at_ms: u64,
    moves: Seq<Sample>,
    m: ManifestView,
)
    requires
        t.moved(x, y, at_ms, m).1 == Some(GestureEvent::Stroked),
    ensures
        ({
            let events = replay(t.moved(x, y, at_ms, m).0, moves, m).1;
            &&& events.len() == moves.len()
            &&& forall|i: int|
                0 <= i < moves.len() && (#[trigger] moves[i]).at_ms < at_ms + STROKE_COOLDOWN_MS ==> events[i] is None
            &&& forall|i: int| 0 <= i < moves.len() && i < 5 ==> #[trigger] events[i] is None
        }),
{
    lemma_replay_bounds(t.moved(x, y, at_ms, m).0, moves, m, at_ms);
}

/// A fresh tracker recognises no stroke in its first 1.2 seconds.
pub proof fn lemma_fresh_tracker_waits(moves: Seq<Sample>, m: ManifestView)
    ensures
        forall|i: int|
            0 <= i < moves.len() && (#[trigger] moves[i]).at_ms < STROKE_COOLDOWN_MS
                ==> replay(TrackerState { samples: Seq::empty(), last_stroke_ms: 0 }, moves, m).1[i] is None,
{
    lemma_replay_bounds(TrackerState { samples: Seq::empty(), last_stroke_ms: 0 }, moves, m, 0);
}

} // verus!
