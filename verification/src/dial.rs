//! Dials: target ranges, eased path segments, randomized drift paths, and the
//! per-dial state machine that consumes them tick by tick.

use std::collections::VecDeque;
use vstd::prelude::*;

verus! {

/// The value required to have the needle point to the very end of the dial,
/// in thousandths of a dial unit.
pub const DIAL_MAX_VALUE: i64 = 10_000_000;

/// Largest magnitude allowed for the endpoints of a dial's target range,
/// in thousandths of a unit. Keeps all path arithmetic far from overflow.
pub const RANGE_BOUND: i64 = 100_000_000;

/// Largest magnitude a path segment endpoint can reach, in thousandths of a
/// unit. Wide enough for any value a generated path can wander to.
pub const SEG_BOUND: i64 = 10_000_000_000;

/// Longest duration a path segment or a whole trial may have, in milliseconds.
pub const DUR_BOUND: u64 = 1_000_000_000;

/// How far beyond a range bound `slightly_out` may land, in thousandths of a
/// unit (400 dial units).
pub const SLIGHTLY_OUT_MAX: i64 = 400_000;

/// A "range" which a dial can be inside or out of. This is used to keep track
/// of whether the dial is "in range" so that we know when to sound an alarm.
/// Bounds are in thousandths of a dial unit.
#[derive(Debug, Copy, Clone)]
pub struct DialRange {
    /// The "start" of the range. This should always be *less* than what the value should be
    pub start: i64,
    /// The "end" of the range. This should always be *greater* than what the value should be
    pub end: i64,
}

impl DialRange {
    /// A usable range runs upward and keeps its bounds small enough that
    /// path generation can never overflow.
    pub open spec fn wf(&self) -> bool {
        &&& self.start < self.end
        &&& -RANGE_BOUND <= self.start
        &&& self.end <= RANGE_BOUND
    }

    /// Containment is inclusive on both bounds.
    pub open spec fn spec_contains(&self, value: int) -> bool {
        self.start <= value <= self.end
    }

    /// The value in the direct middle of the range.
    pub open spec fn spec_middle(&self) -> int {
        (self.end - self.start) / 2 + self.start
    }

    /// The distance from one bound to the other.
    pub open spec fn width(&self) -> int {
        self.end - self.start
    }

    pub fn new(start: i64, end: i64) -> (r: DialRange)
        ensures
            r.start == start,
            r.end == end,
    {
        DialRange { start, end }
    }

    /// Returns true if the value is contained within this range "inclusively"
    pub fn contains(&self, value: i64) -> (r: bool)
        ensures
            r == self.spec_contains(value as int),
    {
        value <= self.end && value >= self.start
    }

    /// Returns the value that is in the direct middle of the range
    pub fn middle(&self) -> (r: i64)
        requires
            self.wf(),
        ensures
            r == self.spec_middle(),
    {
        (self.end - self.start) / 2 + self.start
    }

    /// Returns a random value that is near the provided value within half of
    /// the maximum range. Which side it lands on is a coin flip, re-aimed when
    /// the first choice would leave the range; only the half-width bound is
    /// promised to callers.
    pub fn random_near(&self, value: i64) -> (r: i64)
        requires
            self.wf(),
            -SEG_BOUND <= value <= SEG_BOUND,
        ensures
            value - self.width() / 2 <= r <= value + self.width() / 2,
    {
        let decrease: bool = crate::rng::random_bool();

        let random_magnitude: u64 = crate::rng::random_at_most((self.end - self.start) as u64);
        let mut tamed_magnitude: i64 = (random_magnitude / 2) as i64;

        if decrease {
            tamed_magnitude = -tamed_magnitude;
        }

        if !self.contains(value + tamed_magnitude) {
            value - tamed_magnitude
        } else {
            value + tamed_magnitude
        }
    }

    /// Returns a random value that is inside of this range, with no other constraints
    pub fn random_in(&self) -> (r: i64)
        requires
            self.wf(),
        ensures
            self.spec_contains(r as int),
    {
        self.start + crate::rng::random_at_most((self.end - self.start) as u64) as i64
    }

    /// Returns a value that is slightly outside of the range, useful for when
    /// we have to drift out but not too quickly. It takes into account the
    /// current value so that it can drift out past the closer bound.
    pub fn slightly_out(&self, value: i64) -> (r: i64)
        requires
            self.wf(),
        ensures
            !self.spec_contains(r as int),
            value < self.spec_middle() ==> self.start - SLIGHTLY_OUT_MAX <= r < self.start,
            value >= self.spec_middle() ==> self.end < r <= self.end + SLIGHTLY_OUT_MAX,
    {
        let halfway: i64 = (self.end - self.start) / 2 + self.start;
        let amount: i64 = 1 + crate::rng::random_at_most((SLIGHTLY_OUT_MAX - 1) as u64) as i64;

        if value < halfway {
            // Here we will choose a value that is less than our range
            self.start - amount
        } else {
            // Here we will choose a value that is greater than our range
            self.end + amount
        }
    }
}

/// Every value between the bounds, the bounds themselves included, is
/// contained in the range, and every value strictly beyond either bound
/// is not.
pub proof fn lemma_contains_exactly_the_interval(range: DialRange, value: int)
    ensures
        range.start <= value <= range.end ==> range.spec_contains(value),
        value < range.start || value > range.end ==> !range.spec_contains(value),
{
}

/// The middle of a well-formed range always lies within the range.
pub proof fn lemma_middle_in_range(range: DialRange)
    requires
        range.wf(),
    ensures
        range.spec_contains(range.spec_middle()),
{
}

/// Numerator of the ease curve: a smooth S-shaped polynomial that rises from
/// `0` at `time == 0` to `cube(duration)` at `time == duration`, slowly at
/// both ends and fastest in the middle.
pub open spec fn ease_num(time: int, duration: int) -> int {
    time * time * (3 * duration - 2 * time)
}

pub open spec fn cube(x: int) -> int {
    x * x * x
}

/// Within a segment the ease numerator stays between `0` and the cube of the
/// duration, so the eased value stays between the segment's endpoints.
pub proof fn lemma_ease_num_bounds(time: int, duration: int)
    requires
        0 <= time <= duration,
    ensures
        0 <= ease_num(time, duration) <= cube(duration),
{
    assert(0 <= time * time * (3 * duration - 2 * time)) by (nonlinear_arith)
        requires
            0 <= time <= duration,
    ;
    assert(cube(duration) - ease_num(time, duration) == (duration - time) * (duration - time) * (
    duration + 2 * time)) by (nonlinear_arith);
    assert((duration - time) * (duration - time) * (duration + 2 * time) >= 0) by (nonlinear_arith)
        requires
            0 <= time <= duration,
    ;
}

/// A single segment in a Dial's random path that it traverses over time.
/// Endpoints are in thousandths of a dial unit; the duration is in
/// milliseconds.
#[derive(Debug, Clone, Copy)]
pub struct PathSegment {
    /// The start position of the dial
    pub start: i64,
    /// The end position of the dial
    pub end: i64,
    /// The time that this path segment should take
    pub duration: u64,
}

impl PathSegment {
    /// Endpoints and duration small enough that the ease arithmetic can never
    /// overflow.
    pub open spec fn wf(&self) -> bool {
        &&& -SEG_BOUND <= self.start <= SEG_BOUND
        &&& -SEG_BOUND <= self.end <= SEG_BOUND
        &&& self.duration <= DUR_BOUND
    }

    /// Where the needle stands `time` milliseconds into this segment: the
    /// start value plus the segment's span scaled by the ease curve. A
    /// zero-duration segment is already at its end.
    pub open spec fn spec_value_at_time(&self, time: int) -> int {
        if self.duration == 0 {
            self.end as int
        } else {
            let d = self.duration as int;
            if self.start <= self.end {
                self.start + (self.end - self.start) * ease_num(time, d) / cube(d)
            } else {
                self.start - (self.start - self.end) * ease_num(time, d) / cube(d)
            }
        }
    }

    /// Returns 1 if the segment has the value increasing, and -1 if it is decreasing
    pub open spec fn spec_travel_direction(&self) -> int {
        if self.start < self.end {
            1
        } else {
            -1
        }
    }

    /// Returns the value at the time in the path segment.
    pub fn value_at_time(&self, time: u64) -> (v: i64)
        requires
            self.wf(),
            time <= self.duration,
        ensures
            v == self.spec_value_at_time(time as int),
            self.start <= self.end ==> self.start <= v <= self.end,
            self.end < self.start ==> self.end <= v <= self.start,
            time == self.duration ==> v == self.end,
            self.duration > 0 && time == 0 ==> v == self.start,
    {
        if self.duration == 0 {
            return self.end;
        }
        let t = time as u128;
        let d = self.duration as u128;
        proof {
            lemma_ease_num_bounds(time as int, self.duration as int);
            lemma_ease_overflow_bounds(time as int, self.duration as int);
            assert(cube(self.duration as int) >= 1) by (nonlinear_arith)
                requires
                    self.duration >= 1,
            ;
        }
        let e: u128 = t * t * (3 * d - 2 * t);
        let d3: u128 = d * d * d;
        let span: u128 = if self.start <= self.end {
            (self.end - self.start) as u128
        } else {
            (self.start - self.end) as u128
        };
        proof {
            assert(span * e <= 20_000_000_000 * 3_000_000_000_000_000_000_000_000_000)
                by (nonlinear_arith)
                requires
                    0 <= span <= 20_000_000_000,
                    0 <= e <= 3_000_000_000_000_000_000_000_000_000,
            ;
            lemma_scaled_ease_bounds(span as int, ease_num(time as int, self.duration as int), cube(
            self.duration as int));
            if time == 0 {
                assert(ease_num(0, self.duration as int) == 0) by (nonlinear_arith);
            }
            if time == self.duration {
                assert(ease_num(self.duration as int, self.duration as int) == cube(
                self.duration as int)) by (nonlinear_arith);
            }
        }
        let q: i64 = (span * e / d3) as i64;
        if self.start <= self.end {
            self.start + q
        } else {
            self.start - q
        }
    }

    /// Returns true if the time is within the path segment duration, false if not
    pub fn in_segment(&self, time: u64) -> (r: bool)
        ensures
            r == (time <= self.duration),
    {
        time <= self.duration
    }

    /// Returns 1 if the segment has the value increasing, and -1 if it is decreasing
    pub fn travel_direction(&self) -> (r: i64)
        ensures
            r == self.spec_travel_direction(),
    {
        if self.start < self.end {
            1
        } else {
            -1
        }
    }
}

/// Concrete numeric bounds on the ease arithmetic, so that evaluating it in
/// 128-bit integers can be shown free of overflow.
proof fn lemma_ease_overflow_bounds(t: int, d: int)
    requires
        0 <= t <= d <= 1_000_000_000,
    ensures
        t * t <= 1_000_000_000_000_000_000,
        t * t * (3 * d - 2 * t) <= 3_000_000_000_000_000_000_000_000_000,
        d * d <= 1_000_000_000_000_000_000,
        d * d * d <= 1_000_000_000_000_000_000_000_000_000,
{
    assert(t * t <= 1_000_000_000_000_000_000) by (nonlinear_arith)
        requires
            0 <= t <= 1_000_000_000,
    ;
    assert(t * t * (3 * d - 2 * t) <= 3_000_000_000_000_000_000_000_000_000) by (nonlinear_arith)
        requires
            0 <= t <= d <= 1_000_000_000,
    ;
    assert(d * d <= 1_000_000_000_000_000_000) by (nonlinear_arith)
        requires
            0 <= d <= 1_000_000_000,
    ;
    assert(d * d * d <= 1_000_000_000_000_000_000_000_000_000) by (nonlinear_arith)
        requires
            0 <= d <= 1_000_000_000,
    ;
}

/// Every segment of the path keeps its endpoints and duration within the
/// overflow-safe bounds.
pub open spec fn all_wf(path: Seq<PathSegment>) -> bool {
    forall|i: int| 0 <= i < path.len() ==> (#[trigger] path[i]).wf()
}

/// A wandering step: the segment moves the needle by at most half the
/// range's width, as `random_near` draws it.
pub open spec fn near_step(seg: PathSegment, range: DialRange) -> bool {
    -(range.width() / 2) <= seg.end - seg.start <= range.width() / 2
}

/// Each segment starts where the one before it ended.
pub open spec fn seg_chained(path: Seq<PathSegment>) -> bool {
    forall|i: int| 0 < i < path.len() ==> (#[trigger] path[i]).start == path[i - 1].end
}

/// Total time the path takes: the sum of its segments' durations.
pub open spec fn sum_durations(path: Seq<PathSegment>) -> int
    decreases path.len(),
{
    if path.len() == 0 {
        0
    } else {
        sum_durations(path.drop_last()) + path.last().duration
    }
}

proof fn lemma_sum_durations_push(path: Seq<PathSegment>, seg: PathSegment)
    ensures
        sum_durations(path.push(seg)) == sum_durations(path) + seg.duration,
{
    assert(path.push(seg).drop_last() =~= path);
}

/// Generates a new random path for the dial to traverse within
/// `time_to_drift` milliseconds, wandering near the given range. When
/// `drift_out` is set, the last segment carries the needle from inside the
/// range to a point just beyond the bound nearer to where it entered that
/// segment, and the segment durations add up to `time_to_drift` exactly.
pub fn generate_random_dial_path(
    range: &DialRange,
    time_to_drift: u64,
    drift_out: bool,
    max_path_segments: usize,
    min_path_segments: usize,
) -> (path: VecDeque<PathSegment>)
    requires
        range.wf(),
        1 <= min_path_segments <= max_path_segments <= 64,
        time_to_drift <= DUR_BOUND,
    ensures
        all_wf(path@),
        seg_chained(path@),
        path@.len() > 0 ==> range.spec_contains(path@[0].start as int),
        drift_out ==> {
            &&& min_path_segments <= path@.len() <= max_path_segments
            &&& sum_durations(path@) == time_to_drift
            &&& forall|j: int|
                0 <= j < path@.len() - 1 ==> near_step(#[trigger] path@[j], *range) && path@[
                j].duration == time_to_drift as int / (path@.len() as int)
            &&& path@.last().duration == time_to_drift - (path@.len() - 1) * (
            time_to_drift as int / (path@.len() as int))
            &&& !range.spec_contains(path@.last().end as int)
            &&& (path@.last().start < range.spec_middle() ==> range.start - SLIGHTLY_OUT_MAX
                <= path@.last().end < range.start)
            &&& (path@.last().start >= range.spec_middle() ==> range.end < path@.last().end
                <= range.end + SLIGHTLY_OUT_MAX)
        },
        !drift_out ==> {
            &&& min_path_segments - 1 <= path@.len() <= max_path_segments - 1
            &&& sum_durations(path@) == path@.len() * (time_to_drift as int / (path@.len() as int + 1))
            &&& forall|j: int|
                0 <= j < path@.len() ==> near_step(#[trigger] path@[j], *range) && path@[j].duration
                    == time_to_drift as int / (path@.len() as int + 1)
        },
{
    let num_draw: u64 = crate::rng::random_at_most((max_path_segments - 1) as u64);
    let mut num_segments: usize = num_draw as usize;
    if num_segments < min_path_segments {
        num_segments = min_path_segments;
    }

    let duration: u64 = time_to_drift / (num_segments as u64);
    proof {
        lemma_div_le(time_to_drift as int, num_segments as int);
    }

    let mut segments: VecDeque<PathSegment> = VecDeque::new();
    let mut last_value: i64 = range.random_in();

    let mut i: usize = 0;
    while i < num_segments - 1
        invariant
            range.wf(),
            1 <= num_segments <= 64,
            i <= num_segments - 1,
            duration == time_to_drift as int / (num_segments as int),
            duration <= time_to_drift <= DUR_BOUND,
            segments@.len() == i,
            sum_durations(segments@) == i * duration,
            all_wf(segments@),
            seg_chained(segments@),
            forall|j: int|
                0 <= j < segments@.len() ==> near_step(#[trigger] segments@[j], *range) && segments@[
                j].duration == duration,
            -((i + 1) * RANGE_BOUND as int) <= last_value <= (i + 1) * RANGE_BOUND as int,
            i == 0 ==> range.spec_contains(last_value as int),
            i > 0 ==> segments@.last().end == last_value,
            segments@.len() > 0 ==> range.spec_contains(segments@[0].start as int),
        decreases num_segments - 1 - i,
    {
        let next_value = range.random_near(last_value);

        let segment = PathSegment { start: last_value, end: next_value, duration };

        proof {
            lemma_sum_durations_push(segments@, segment);
            let ig: int = i as int;
            let d0: int = duration as int;
            assert((ig + 1) * d0 == ig * d0 + d0) by (nonlinear_arith);
        }
        segments.push_back(segment);

        last_value = next_value;
        i += 1;
    }

    if drift_out {
        let end_value = range.slightly_out(last_value);
        proof {
            lemma_last_duration_bounds(time_to_drift as int, num_segments as int);
            let n: int = num_segments as int;
            let d0: int = duration as int;
            assert(d0 * (n - 1) == (n - 1) * d0) by (nonlinear_arith);
        }
        let last_duration: u64 = time_to_drift - duration * ((num_segments - 1) as u64);

        let last_segment = PathSegment { start: last_value, end: end_value, duration: last_duration };

        proof {
            lemma_sum_durations_push(segments@, last_segment);
        }
        segments.push_back(last_segment);
    }

    segments
}

/// How fast the needle keeps moving once its path is exhausted, in
/// thousandths of a dial unit per millisecond (20 units per second).
pub const DRIFT_RATE: i64 = 20;

/// The most path segments a random path may hold.
pub const MAX_PATH_SEGMENTS: usize = 8;

/// The fewest path segments a random path may hold.
pub const MIN_PATH_SEGMENTS: usize = 4;

/// A dial's unique id, packed from its grid position so that ids never
/// collide.
#[derive(Copy, Clone, Debug, PartialEq, Eq, Hash, Structural)]
pub struct DialId(pub u64);

/// The mathematical state of a dial: everything its state machine reads or
/// writes, with the per-trial paths as a sequence of segment sequences.
#[verifier::ext_equal]
pub ghost struct DialView {
    pub value: int,
    pub row_id: u32,
    pub col_id: u32,
    pub in_range: DialRange,
    pub trials: Seq<Seq<PathSegment>>,
    pub segment_time: int,
    pub travel_direction: int,
    pub out_of_range: bool,
    pub clear_key: char,
}

/// A dial state the library can operate on.
pub open spec fn dial_view_wf(v: DialView) -> bool {
    &&& v.in_range.wf()
    &&& v.travel_direction == 1 || v.travel_direction == -1
    &&& 0 <= v.segment_time <= u64::MAX
    &&& i64::MIN <= v.value <= i64::MAX
    &&& forall|i: int| 0 <= i < v.trials.len() ==> all_wf(#[trigger] v.trials[i])
}

/// What one freshly generated trial path promises: well-formed chained
/// segments whose durations add up to the trial time, starting inside the
/// range and ending just beyond the bound nearer to the point where the
/// final segment began.
pub open spec fn trial_generated(path: Seq<PathSegment>, range: DialRange, total_time: int) -> bool {
    &&& all_wf(path)
    &&& seg_chained(path)
    &&& MIN_PATH_SEGMENTS <= path.len() <= MAX_PATH_SEGMENTS
    &&& sum_durations(path) == total_time
    &&& forall|j: int|
        0 <= j < path.len() - 1 ==> near_step(#[trigger] path[j], range) && path[j].duration
            == total_time / (path.len() as int)
    &&& path.last().duration == total_time - (path.len() - 1) * (total_time / (path.len() as int))
    &&& range.spec_contains(path[0].start as int)
    &&& !range.spec_contains(path.last().end as int)
    &&& (path.last().start < range.spec_middle() ==> range.start - SLIGHTLY_OUT_MAX
        <= path.last().end < range.start)
    &&& (path.last().start >= range.spec_middle() ==> range.end < path.last().end <= range.end
        + SLIGHTLY_OUT_MAX)
}

/// Addition on a tick counter that stops at the largest representable time
/// instead of wrapping.
pub open spec fn sat_add_u64(a: int, b: int) -> int {
    if a + b > u64::MAX {
        u64::MAX as int
    } else {
        a + b
    }
}

/// A needle position pushed past either machine stop stays at that stop.
pub open spec fn clamp_i64(x: int) -> int {
    if x > i64::MAX {
        i64::MAX as int
    } else if x < i64::MIN {
        i64::MIN as int
    } else {
        x
    }
}

/// One tick of the dial state machine: advance the segment clock, then
/// either follow the active segment, retire an expired segment, keep
/// drifting at the fixed rate when the active trial has no segments left,
/// or stay frozen when no trials remain. Reports, and latches, a fresh
/// departure from the target range.
pub open spec fn spec_update(v: DialView, delta: int) -> (DialView, bool) {
    let st = sat_add_u64(v.segment_time, delta);
    let moved = if v.trials.len() == 0 {
        DialView { segment_time: st, ..v }
    } else if v.trials[0].len() > 0 {
        let seg = v.trials[0][0];
        if st <= seg.duration {
            DialView { value: seg.spec_value_at_time(st), segment_time: st, ..v }
        } else {
            DialView {
                travel_direction: seg.spec_travel_direction(),
                trials: v.trials.update(0, v.trials[0].drop_first()),
                segment_time: 0,
                ..v
            }
        }
    } else {
        DialView {
            value: clamp_i64(v.value + v.travel_direction * DRIFT_RATE * delta),
            segment_time: st,
            ..v
        }
    };
    let newly = !v.out_of_range && !v.in_range.spec_contains(moved.value);
    (DialView { out_of_range: v.out_of_range || newly, ..moved }, newly)
}

/// Discarding the active trial: the next trial, if any, becomes active on
/// the following update; with no trials left the needle snaps to the middle
/// of the range for good. Either way the out-of-range latch is cleared.
pub open spec fn spec_reset(v: DialView) -> DialView {
    let trials = if v.trials.len() > 0 {
        v.trials.drop_first()
    } else {
        v.trials
    };
    let value = if trials.len() == 0 {
        v.in_range.spec_middle()
    } else {
        v.value
    };
    DialView { trials, value, out_of_range: false, ..v }
}

/// Unsigned division never exceeds its dividend.
proof fn lemma_div_le(x: int, n: int)
    requires
        0 <= x,
        1 <= n,
    ensures
        0 <= x / n <= x,
{
    vstd::arithmetic::div_mod::lemma_div_pos_is_pos(x, n);
    vstd::arithmetic::div_mod::lemma_fundamental_div_mod(x, n);
    assert(x / n <= n * (x / n)) by (nonlinear_arith)
        requires
            1 <= n,
            0 <= x / n,
    ;
    vstd::arithmetic::mul::lemma_mul_nonnegative(n, x % n);
}

/// What is left of the total time after the first `n - 1` equal segments is
/// still a legal duration, and together they sum back to the total.
proof fn lemma_last_duration_bounds(t: int, n: int)
    requires
        0 <= t,
        1 <= n,
    ensures
        0 <= (n - 1) * (t / n) <= t,
        (n - 1) * (t / n) + (t - (n - 1) * (t / n)) == t,
{
    lemma_div_le(t, n);
    vstd::arithmetic::div_mod::lemma_fundamental_div_mod(t, n);
    assert((n - 1) * (t / n) >= 0) by (nonlinear_arith)
        requires
            1 <= n,
            0 <= t / n,
    ;
    assert((n - 1) * (t / n) <= n * (t / n)) by (nonlinear_arith)
        requires
            1 <= n,
            0 <= t / n,
    ;
    assert(t % n >= 0) by {
        vstd::arithmetic::div_mod::lemma_mod_bound(t, n);
    }
}

/// Scaling a span by an ease fraction in `[0, 1]` gives back something
/// between `0` and the whole span.
proof fn lemma_scaled_ease_bounds(span: int, e: int, d3: int)
    requires
        0 <= span,
        0 <= e <= d3,
        0 < d3,
    ensures
        0 <= span * e / d3 <= span,
        e == d3 ==> span * e / d3 == span,
        e == 0 ==> span * e / d3 == 0,
{
    assert(0 <= span * e) by (nonlinear_arith)
        requires
            0 <= span,
            0 <= e,
    ;
    assert(span * e <= span * d3) by (nonlinear_arith)
        requires
            0 <= span,
            e <= d3,
    ;
    vstd::arithmetic::div_mod::lemma_div_pos_is_pos(span * e, d3);
    vstd::arithmetic::div_mod::lemma_div_is_ordered(span * e, span * d3, d3);
    vstd::arithmetic::div_mod::lemma_div_multiples_vanish(span, d3);
    assert(span * d3 == d3 * span) by (nonlinear_arith);
    if e == 0 {
        assert(span * e == 0) by (nonlinear_arith)
            requires
                e == 0,
        ;
        vstd::arithmetic::div_mod::lemma_div_multiples_vanish(0, d3);
    }
}

/// Represents a dial inside of our application "model"
#[derive(Debug, Clone)]
pub struct Dial {
    // The current value of the dial, which is where the needle is pointing
    value: i64,
    // The row this dial is located in
    row_id: u32,
    // The column this dial is located at
    col_id: u32,
    // The "in-range" for this dial: where it is supposed to be, and if it exits, the alarm sounds
    in_range: DialRange,
    // This dial's random paths that it needs to traverse in order to drift up and down.
    // These are separated per trial
    trial_paths: VecDeque<VecDeque<PathSegment>>,
    // The current time into the current path segment
    segment_time: u64,
    // The current direction of travel in the path segment
    travel_direction: i64,
    // If the dial has now drifted out of range and needs to be handled
    out_of_range: bool,
    // The key that acknowledges this dial's alarm
    clear_key: char,
}

impl View for Dial {
    type V = DialView;

    closed spec fn view(&self) -> DialView {
        DialView {
            value: self.value as int,
            row_id: self.row_id,
            col_id: self.col_id,
            in_range: self.in_range,
            trials: Seq::new(self.trial_paths@.len(), |i: int| self.trial_paths@[i]@),
            segment_time: self.segment_time as int,
            travel_direction: self.travel_direction as int,
            out_of_range: self.out_of_range,
            clear_key: self.clear_key,
        }
    }
}

pub open spec fn spec_dial_id(v: DialView) -> DialId {
    DialId(((v.row_id as u64) << 32) | (v.col_id as u64))
}

impl Dial {
    pub open spec fn wf(&self) -> bool {
        dial_view_wf(self@)
    }

    /// Creates a new Dial with the provided row, column, in-range and clear
    /// key, and one drift time per trial, each saying how long that trial
    /// takes until the dial goes out of its in-range. One random path per
    /// trial is generated up front; the needle starts at the middle of the
    /// range.
    pub fn new(
        row_id: u32,
        col_id: u32,
        in_range: DialRange,
        trial_times: Vec<u64>,
        clear_key: char,
    ) -> (d: Dial)
        requires
            in_range.wf(),
            forall|i: int| 0 <= i < trial_times@.len() ==> trial_times@[i] <= DUR_BOUND,
        ensures
            d.wf(),
            d@.value == in_range.spec_middle(),
            d@.row_id == row_id,
            d@.col_id == col_id,
            d@.in_range == in_range,
            d@.clear_key == clear_key,
            d@.segment_time == 0,
            d@.travel_direction == 1,
            !d@.out_of_range,
            d@.trials.len() == trial_times@.len(),
            forall|i: int|
                0 <= i < trial_times@.len() ==> trial_generated(
                    #[trigger] d@.trials[i],
                    in_range,
                    trial_times@[i] as int,
                ),
    {
        let mut trial_paths: VecDeque<VecDeque<PathSegment>> = VecDeque::new();

        let mut i: usize = 0;
        while i < trial_times.len()
            invariant
                in_range.wf(),
                i <= trial_times@.len(),
                forall|j: int| 0 <= j < trial_times@.len() ==> trial_times@[j] <= DUR_BOUND,
                trial_paths@.len() == i,
                forall|j: int|
                    0 <= j < i ==> trial_generated(
                        #[trigger] trial_paths@[j]@,
                        in_range,
                        trial_times@[j] as int,
                    ),
            decreases trial_times@.len() - i,
        {
            let random_path = generate_random_dial_path(
                &in_range,
                trial_times[i],
                true,
                MAX_PATH_SEGMENTS,
                MIN_PATH_SEGMENTS,
            );

            trial_paths.push_back(random_path);
            i += 1;
        }

        let d = Dial {
            value: in_range.middle(),
            row_id,
            col_id,
            in_range,
            trial_paths,
            segment_time: 0,
            travel_direction: 1,
            out_of_range: false,
            clear_key,
        };
        proof {
            assert(forall|j: int|
                0 <= j < trial_times@.len() ==> d@.trials[j] == trial_paths@[j]@);
        }
        d
    }

    /// Resets the dial: the current trial's path is discarded; if no trials
    /// remain the needle snaps to the middle of the range until the program
    /// is over, otherwise the next trial starts on the following update. The
    /// out-of-range latch is cleared either way.
    pub fn reset(&mut self)
        requires
            old(self).wf(),
        ensures
            final(self).wf(),
            final(self)@ == spec_reset(old(self)@),
    {
        if self.trial_paths.len() > 0 {
            self.trial_paths.pop_front();
        }

        if self.trial_paths.len() == 0 {
            self.value = self.in_range.middle();
        }

        self.out_of_range = false;

        proof {
            assert(final(self)@.trials =~= spec_reset(old(self)@).trials);
            assert(final(self)@ =~= spec_reset(old(self)@));
        }
    }

    /// Updates the dial using the amount of time that has passed since the
    /// last update, in milliseconds. Returns true exactly when the dial has
    /// newly drifted out of range this update; after that it must be reset
    /// before it can report again.
    pub fn update(&mut self, delta_time: u64) -> (newly_out: bool)
        requires
            old(self).wf(),
        ensures
            final(self).wf(),
            final(self)@ == spec_update(old(self)@, delta_time as int).0,
            newly_out == spec_update(old(self)@, delta_time as int).1,
    {
        // Update the current time within the segment, stopping at the
        // largest representable time rather than wrapping
        if delta_time > u64::MAX - self.segment_time {
            self.segment_time = u64::MAX;
        } else {
            self.segment_time = self.segment_time + delta_time;
        }

        if self.trial_paths.len() == 0 {
            // All trials are consumed: the needle stays frozen
        } else if self.trial_paths[0].len() > 0 {
            let current: PathSegment = self.trial_paths[0][0];
            proof {
                assert(self.trial_paths == old(self).trial_paths);
                assert(self@.trials[0] == self.trial_paths@[0]@);
                assert(old(self)@.trials[0] == old(self).trial_paths@[0]@);
                assert(all_wf(old(self)@.trials[0]));
                assert(current == self@.trials[0][0]);
                assert(current.wf());
            }
            if current.in_segment(self.segment_time) {
                // Calculate our current position in the path at the current time
                self.value = current.value_at_time(self.segment_time);
            } else {
                // Move onto the next path segment
                self.travel_direction = current.travel_direction();
                let mut front = self.trial_paths.pop_front().unwrap();
                front.pop_front();
                self.trial_paths.push_front(front);
                self.segment_time = 0;
                proof {
                    assert(self@.trials =~~= spec_update(old(self)@,
                    delta_time as int).0.trials);
                }
            }
        } else {
            // Keep drifting
            proof {
                let dir: int = self.travel_direction as int;
                let dt: int = delta_time as int;
                assert(-20 * dt <= dir * (DRIFT_RATE as int) * dt <= 20 * dt) by (nonlinear_arith)
                    requires
                        dir == 1 || dir == -1,
                        0 <= dt,
                        DRIFT_RATE == 20,
                ;
            }
            let drift: i128 = (self.travel_direction as i128) * (DRIFT_RATE as i128) * (
            delta_time as i128);
            let moved: i128 = (self.value as i128) + drift;
            if moved > i64::MAX as i128 {
                self.value = i64::MAX;
            } else if moved < i64::MIN as i128 {
                self.value = i64::MIN;
            } else {
                self.value = moved as i64;
            }
        }

        let newly_out = !self.out_of_range && !self.in_range.contains(self.value);
        if newly_out {
            self.out_of_range = true;
        }

        proof {
            assert(final(self)@ =~~= spec_update(old(self)@, delta_time as int).0);
        }
        newly_out
    }

    /// The value of the dial, where it is currently pointing
    pub fn value(&self) -> (v: i64)
        ensures
            v == self@.value,
    {
        self.value
    }

    /// The in-range for this dial
    pub fn in_range(&self) -> (r: DialRange)
        ensures
            r == self@.in_range,
    {
        self.in_range
    }

    /// The key that acknowledges this dial's alarm
    pub fn clear_key(&self) -> (k: char)
        ensures
            k == self@.clear_key,
    {
        self.clear_key
    }

    /// A unique id for this dial. `row_id` and `col_id` are both u32's,
    /// therefore shifting the row by 32 bits is guaranteed to give a perfect
    /// hash without collisions.
    pub fn dial_id(&self) -> (id: DialId)
        ensures
            id == spec_dial_id(self@),
    {
        DialId(((self.row_id as u64) << 32) | (self.col_id as u64))
    }
}

/// The dial state after a whole sequence of updates, with no reset in
/// between.
pub open spec fn run_updates(v: DialView, deltas: Seq<int>) -> DialView
    decreases deltas.len(),
{
    if deltas.len() == 0 {
        v
    } else {
        run_updates(spec_update(v, deltas[0]).0, deltas.drop_first())
    }
}

/// Whether any update in the sequence reports newly-out-of-range.
pub open spec fn any_newly_out(v: DialView, deltas: Seq<int>) -> bool
    decreases deltas.len(),
{
    if deltas.len() == 0 {
        false
    } else {
        spec_update(v, deltas[0]).1 || any_newly_out(spec_update(v, deltas[0]).0, deltas.drop_first())
    }
}

/// A latched dial never reports again until it is reset: once
/// `out_of_range` is set, no sequence of further updates reports
/// newly-out-of-range, and the latch stays set.
pub proof fn lemma_latched_never_reports(v: DialView, deltas: Seq<int>)
    requires
        v.out_of_range,
    ensures
        !any_newly_out(v, deltas),
        run_updates(v, deltas).out_of_range,
    decreases deltas.len(),
{
    if deltas.len() > 0 {
        lemma_latched_never_reports(spec_update(v, deltas[0]).0, deltas.drop_first());
    }
}

/// An excursion is reported at most once: the update that reports
/// newly-out-of-range latches the dial, so every later update before a
/// reset reports false.
pub proof fn lemma_newly_out_reported_at_most_once(v: DialView, delta: int, deltas: Seq<int>)
    requires
        spec_update(v, delta).1,
    ensures
        spec_update(v, delta).0.out_of_range,
        !any_newly_out(spec_update(v, delta).0, deltas),
{
    lemma_latched_never_reports(spec_update(v, delta).0, deltas);
}

/// The other half of the one-report story: an unlatched dial whose active
/// trial has run out of segments keeps drifting at the fixed rate, and the
/// first tick long enough to carry the needle past its bound reports the
/// excursion — so a drift-out trial's excursion is reported at least once,
/// however the tick cadence falls.
pub proof fn lemma_free_drift_reports(v: DialView, delta: int)
    requires
        dial_view_wf(v),
        0 <= delta <= u64::MAX,
        v.trials.len() > 0,
        v.trials[0].len() == 0,
        !v.out_of_range,
        v.travel_direction == 1 ==> v.value + DRIFT_RATE * delta > v.in_range.end,
        v.travel_direction == -1 ==> v.value - DRIFT_RATE * delta < v.in_range.start,
    ensures
        spec_update(v, delta).1,
        spec_update(v, delta).0.out_of_range,
        !v.in_range.spec_contains(spec_update(v, delta).0.value),
{
    if v.travel_direction == 1 {
        assert(v.travel_direction * DRIFT_RATE * delta == DRIFT_RATE * delta) by (nonlinear_arith)
            requires
                v.travel_direction == 1,
        ;
    } else {
        assert(v.travel_direction * DRIFT_RATE * delta == -(DRIFT_RATE * delta))
            by (nonlinear_arith)
            requires
                v.travel_direction == -1,
        ;
    }
}

/// After a reset with trials remaining, it is the next trial's path that
/// is consumed from then on: the exhausted trial is gone and the head of
/// the queue is what was previously second, with the latch cleared.
pub proof fn lemma_reset_resumes_next_trial(v: DialView)
    requires
        v.trials.len() >= 2,
    ensures
        spec_reset(v).trials == v.trials.drop_first(),
        spec_reset(v).trials[0] == v.trials[1],
        spec_reset(v).value == v.value,
        !spec_reset(v).out_of_range,
{
}

/// A dial with no trials left keeps its value frozen under any further
/// updates.
pub proof fn lemma_idle_value_frozen(v: DialView, deltas: Seq<int>)
    requires
        v.trials.len() == 0,
    ensures
        run_updates(v, deltas).value == v.value,
        run_updates(v, deltas).trials.len() == 0,
    decreases deltas.len(),
{
    if deltas.len() > 0 {
        lemma_idle_value_frozen(spec_update(v, deltas[0]).0, deltas.drop_first());
    }
}

/// After a reset that consumes the last trial, the needle sits at the
/// middle of the range and stays there indefinitely under further updates.
pub proof fn lemma_reset_to_idle_stays_at_middle(v: DialView, deltas: Seq<int>)
    requires
        v.trials.len() <= 1,
    ensures
        spec_reset(v).value == v.in_range.spec_middle(),
        spec_reset(v).trials.len() == 0,
        run_updates(spec_reset(v), deltas).value == v.in_range.spec_middle(),
{
    lemma_idle_value_frozen(spec_reset(v), deltas);
}

/// Two dials at different grid positions never share an id.
pub proof fn lemma_dial_id_injective(r1: u32, c1: u32, r2: u32, c2: u32)
    requires
        ((r1 as u64) << 32) | (c1 as u64) == ((r2 as u64) << 32) | (c2 as u64),
    ensures
        r1 == r2,
        c1 == c2,
{
    assert((((r1 as u64) << 32) | (c1 as u64) == ((r2 as u64) << 32) | (c2 as u64)) ==> (r1 == r2
        && c1 == c2)) by (bit_vector);
}

} // verus!
