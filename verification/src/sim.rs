//! The shared simulation state and its per-tick step: advance every dial,
//! queue an alarm for each dial that newly left its range, and resolve the
//! oldest queued alarm when the operator has pressed a key.

use std::collections::VecDeque;
use vstd::prelude::*;

use crate::config::{alarm_defined, Alarm, Config, ConfigError};
use crate::dial::{
    dial_view_wf, spec_dial_id, spec_reset, spec_update, trial_generated, Dial, DialId, DialRange,
    DialView, DUR_BOUND, RANGE_BOUND,
};

verus! {

/// A pending, unacknowledged out-of-range condition for one dial.
#[derive(Clone, Copy, Debug, PartialEq, Eq, Structural)]
pub struct QueuedAlarm {
    /// Position of the dial in the simulation's dial list
    pub dial_index: usize,
    /// The dial's unique id
    pub dial_id: DialId,
    /// Simulated time at which the alarm was raised, in milliseconds
    pub time_raised_ms: u64,
    /// The key that clears this alarm
    pub correct_key: char,
}

/// What one resolved alarm reports toward logging: which dial, how long the
/// operator took, and whether the pressed key was the right one.
#[derive(Clone, Copy, Debug, PartialEq, Eq, Structural)]
pub struct DialReaction {
    pub dial_id: DialId,
    pub reaction_time_ms: u64,
    pub correct: bool,
    pub key: char,
}

/// Milliseconds from when an alarm was raised to now; zero if the clock
/// reads earlier than the alarm.
pub open spec fn spec_elapsed(now: int, raised: int) -> int {
    if now >= raised {
        now - raised
    } else {
        0
    }
}

/// The reaction record produced when `a` is resolved by pressing `key` at
/// time `now`.
pub open spec fn spec_reaction(a: QueuedAlarm, key: char, now: int) -> DialReaction {
    DialReaction {
        dial_id: a.dial_id,
        reaction_time_ms: spec_elapsed(now, a.time_raised_ms as int) as u64,
        correct: a.correct_key == key,
        key,
    }
}

/// Resolving one key press against the alarm queue: the oldest alarm, if
/// any, is popped and judged, whatever key was pressed.
pub open spec fn spec_resolve(q: Seq<QueuedAlarm>, key: char, now: int) -> (Seq<QueuedAlarm>, Option<
    DialReaction,
>) {
    if q.len() == 0 {
        (q, None::<DialReaction>)
    } else {
        (q.drop_first(), Some(spec_reaction(q[0], key, now)))
    }
}

/// The alarm raised for the dial at `index` the moment it first leaves its
/// range.
pub open spec fn mk_alarm(v: DialView, index: int, now: int) -> QueuedAlarm {
    QueuedAlarm {
        dial_index: index as usize,
        dial_id: spec_dial_id(v),
        time_raised_ms: now as u64,
        correct_key: v.clear_key,
    }
}

/// The alarms one tick raises over a list of dials, in dial order.
pub open spec fn raised_alarms(dials: Seq<DialView>, delta: int, now: int) -> Seq<QueuedAlarm>
    decreases dials.len(),
{
    if dials.len() == 0 {
        Seq::empty()
    } else {
        raised_alarms(dials.drop_last(), delta, now) + (if spec_update(dials.last(), delta).1 {
            seq![mk_alarm(dials.last(), dials.len() - 1, now)]
        } else {
            Seq::empty()
        })
    }
}

/// All dials advanced by one tick of `delta` milliseconds.
pub open spec fn advanced(dials: Seq<DialView>, delta: int) -> Seq<DialView> {
    Seq::new(dials.len(), |i: int| spec_update(dials[i], delta).0)
}

/// The shared aggregate that the simulation loop advances and the
/// rendering/input collaborator reads: every dial, and the FIFO queue of
/// alarms awaiting acknowledgment.
pub struct SimulationState {
    pub dials: Vec<Dial>,
    pub queued_alarms: VecDeque<QueuedAlarm>,
}

impl SimulationState {
    /// The mathematical states of all dials, in order.
    pub open spec fn dial_views(&self) -> Seq<DialView> {
        Seq::new(self.dials@.len(), |i: int| self.dials@[i]@)
    }

    /// Every dial is operable and every queued alarm points at a dial that
    /// exists.
    pub open spec fn wf(&self) -> bool {
        &&& forall|i: int| 0 <= i < self.dials@.len() ==> dial_view_wf(#[trigger] self.dials@[i]@)
        &&& forall|i: int|
            0 <= i < self.queued_alarms@.len() ==> (#[trigger] self.queued_alarms@[i]).dial_index
                < self.dials@.len()
    }

    pub fn new() -> (s: SimulationState)
        ensures
            s.wf(),
            s.dial_views().len() == 0,
            s.queued_alarms@.len() == 0,
    {
        SimulationState { dials: Vec::new(), queued_alarms: VecDeque::new() }
    }

    /// Advance every dial by `delta_ms` and append one alarm, stamped
    /// `now_ms`, for each dial that newly left its range, in dial order.
    fn advance_dials(&mut self, delta_ms: u64, now_ms: u64)
        requires
            old(self).wf(),
        ensures
            final(self).wf(),
            final(self).dials@.len() == old(self).dials@.len(),
            final(self).dial_views() =~= advanced(old(self).dial_views(), delta_ms as int),
            final(self).queued_alarms@ == old(self).queued_alarms@ + raised_alarms(
                old(self).dial_views(),
                delta_ms as int,
                now_ms as int,
            ),
    {
        let ghost old_views = self.dial_views();
        let ghost old_q = self.queued_alarms@;

        let mut i: usize = 0;
        while i < self.dials.len()
            invariant
                i <= self.dials@.len(),
                self.dials@.len() == old_views.len(),
                forall|j: int| 0 <= j < self.dials@.len() ==> dial_view_wf(#[trigger] self.dials@[j]@),
                forall|j: int|
                    0 <= j < i ==> #[trigger] self.dials@[j]@ == spec_update(
                        old_views[j],
                        delta_ms as int,
                    ).0,
                forall|j: int| i <= j < self.dials@.len() ==> #[trigger] self.dials@[j]@ == old_views[j],
                self.queued_alarms@ == old_q + raised_alarms(
                    old_views.take(i as int),
                    delta_ms as int,
                    now_ms as int,
                ),
                forall|j: int|
                    0 <= j < self.queued_alarms@.len() ==> (#[trigger] self.queued_alarms@[j]).dial_index
                        < self.dials@.len(),
            decreases self.dials@.len() - i,
        {
            let newly = self.dials[i].update(delta_ms);
            if newly {
                let id = self.dials[i].dial_id();
                let key = self.dials[i].clear_key();
                let alarm = QueuedAlarm {
                    dial_index: i,
                    dial_id: id,
                    time_raised_ms: now_ms,
                    correct_key: key,
                };
                self.queued_alarms.push_back(alarm);
            }
            i += 1;
            proof {
                assert(old_views.take(i as int).drop_last() =~= old_views.take(i as int - 1));
                assert(old_views.take(i as int).last() == old_views[i as int - 1]);
            }
        }
        proof {
            assert(old_views.take(old_views.len() as int) =~= old_views);
        }
    }

    /// Resolve one pressed key: pop the oldest queued alarm, judge the key
    /// against it, reset the dial it names, and report the reaction. With no
    /// alarm queued the press does nothing.
    fn resolve_key(&mut self, now_ms: u64, key: char) -> (r: Option<DialReaction>)
        requires
            old(self).wf(),
        ensures
            final(self).wf(),
            final(self).dials@.len() == old(self).dials@.len(),
            r == spec_resolve(old(self).queued_alarms@, key, now_ms as int).1,
            final(self).queued_alarms@ == spec_resolve(
                old(self).queued_alarms@,
                key,
                now_ms as int,
            ).0,
            old(self).queued_alarms@.len() == 0 ==> final(self).dial_views()
                =~= old(self).dial_views(),
            old(self).queued_alarms@.len() > 0 ==> final(self).dial_views()
                =~= old(self).dial_views().update(
                old(self).queued_alarms@[0].dial_index as int,
                spec_reset(old(self).dial_views()[old(self).queued_alarms@[0].dial_index as int]),
            ),
    {
        match self.queued_alarms.pop_front() {
            None => None,
            Some(alarm) => {
                let millis: u64 = if now_ms >= alarm.time_raised_ms {
                    now_ms - alarm.time_raised_ms
                } else {
                    0
                };
                let reaction = DialReaction {
                    dial_id: alarm.dial_id,
                    reaction_time_ms: millis,
                    correct: alarm.correct_key == key,
                    key,
                };
                self.dials[alarm.dial_index].reset();
                Some(reaction)
            },
        }
    }

    /// One tick of the simulation: advance every dial by `delta_ms`, queue
    /// an alarm stamped `now_ms` for each dial that newly left its range,
    /// and, if the operator pressed a key, resolve the oldest queued alarm.
    /// At most one alarm is resolved per tick.
    pub fn tick(&mut self, delta_ms: u64, now_ms: u64, pressed_key: Option<char>) -> (r: Option<
        DialReaction,
    >)
        requires
            old(self).wf(),
        ensures
            final(self).wf(),
            final(self).dials@.len() == old(self).dials@.len(),
            ({
                let av = advanced(old(self).dial_views(), delta_ms as int);
                let q1 = old(self).queued_alarms@ + raised_alarms(
                    old(self).dial_views(),
                    delta_ms as int,
                    now_ms as int,
                );
                match pressed_key {
                    None => {
                        &&& r is None
                        &&& final(self).dial_views() =~= av
                        &&& final(self).queued_alarms@ == q1
                    },
                    Some(key) => {
                        &&& r == spec_resolve(q1, key, now_ms as int).1
                        &&& final(self).queued_alarms@ == spec_resolve(q1, key, now_ms as int).0
                        &&& q1.len() == 0 ==> final(self).dial_views() =~= av
                        &&& q1.len() > 0 ==> final(self).dial_views() =~= av.update(
                            q1[0].dial_index as int,
                            spec_reset(av[q1[0].dial_index as int]),
                        )
                    },
                }
            }),
    {
        self.advance_dials(delta_ms, now_ms);

        match pressed_key {
            None => None,
            Some(key) => self.resolve_key(now_ms, key),
        }
    }
}

/// Whether one configured dial's numbers can drive a simulation: its range
/// must run upward within the machine bounds and its drift time must be
/// representable.
pub open spec fn dial_config_ok(d: crate::config::Dial) -> bool {
    &&& d.start < d.end
    &&& -RANGE_BOUND <= d.start
    &&& d.end <= RANGE_BOUND
    &&& d.rate <= DUR_BOUND
}

/// Position of the first alarm carrying this name, `-1` when none does.
pub open spec fn first_alarm_with(alarms: Seq<Alarm>, name: Seq<char>) -> int
    decreases alarms.len(),
{
    if alarms.len() == 0 {
        -1
    } else if alarms[0].name@ == name {
        0
    } else {
        let r = first_alarm_with(alarms.drop_first(), name);
        if r == -1 {
            -1
        } else {
            r + 1
        }
    }
}

/// When a name has a first match, that match is in bounds, carries the
/// name, and nothing before it does; when it has none, no alarm carries the
/// name.
pub proof fn lemma_first_alarm_with(alarms: Seq<Alarm>, name: Seq<char>)
    ensures
        first_alarm_with(alarms, name) == -1 ==> !alarm_defined(alarms, name),
        first_alarm_with(alarms, name) != -1 ==> {
            let r = first_alarm_with(alarms, name);
            &&& 0 <= r < alarms.len()
            &&& alarms[r].name@ == name
            &&& forall|k: int| 0 <= k < r ==> (#[trigger] alarms[k]).name@ != name
        },
    decreases alarms.len(),
{
    if alarms.len() > 0 && alarms[0].name@ != name {
        lemma_first_alarm_with(alarms.drop_first(), name);
        let rest = first_alarm_with(alarms.drop_first(), name);
        if rest == -1 {
            assert forall|j: int| 0 <= j < alarms.len() implies (#[trigger] alarms[j]).name@
                != name by {
                if j > 0 {
                    assert(alarms.drop_first()[j - 1] == alarms[j]);
                }
            }
        } else {
            assert(alarms[rest + 1] == alarms.drop_first()[rest]);
            assert forall|k: int| 0 <= k < rest + 1 implies (#[trigger] alarms[k]).name@ != name by {
                if k > 0 {
                    assert(alarms.drop_first()[k - 1] == alarms[k]);
                }
            }
        }
    }
}

/// Position of the first alarm carrying this name, `None` when no alarm
/// does.
fn find_alarm(alarms: &Vec<Alarm>, name: &String) -> (r: Option<usize>)
    ensures
        match r {
            Some(j) => {
                &&& j as int == first_alarm_with(alarms@, name@)
                &&& j < alarms@.len()
                &&& alarms@[j as int].name@ == name@
            },
            None => !alarm_defined(alarms@, name@),
        },
{
    proof {
        lemma_first_alarm_with(alarms@, name@);
    }
    let mut j: usize = 0;
    while j < alarms.len()
        invariant
            j <= alarms@.len(),
            forall|k: int| 0 <= k < j ==> (#[trigger] alarms@[k]).name@ != name@,
            first_alarm_with(alarms@, name@) == -1 || first_alarm_with(alarms@, name@) >= j,
            first_alarm_with(alarms@, name@) != -1 ==> {
                let r = first_alarm_with(alarms@, name@);
                0 <= r < alarms@.len() && alarms@[r].name@ == name@
            },
            first_alarm_with(alarms@, name@) == -1 ==> !alarm_defined(alarms@, name@),
        decreases alarms@.len() - j,
    {
        let eq = crate::config::str_eq(alarms[j].name.as_str(), name.as_str());
        if eq {
            proof {
                assert(alarms@[j as int].name@ == name@);
                assert(alarm_defined(alarms@, name@));
                lemma_first_alarm_with(alarms@, name@);
                let r: int = first_alarm_with(alarms@, name@);
                assert(r != -1);
                if r > j as int {
                    assert(alarms@[j as int].name@ != name@);
                }
                assert(r == j as int);
            }
            return Some(j);
        }
        j += 1;
    }
    None
}

/// One simulation dial per configured dial, in configuration order: dial
/// `i` sits at grid column `i`, watches the configured range from its
/// middle, runs a single pre-generated trial lasting the configured drift
/// time, and is cleared by the key of the first alarm carrying its alarm
/// name. Construction is refused at the first dial whose numbers are
/// unusable or whose alarm name no alarm defines.
pub fn dials_from_config(config: &Config) -> (r: Result<Vec<Dial>, ConfigError>)
    requires
        config.dials@.len() <= u32::MAX,
    ensures
        match r {
            Ok(dials) => {
                &&& dials@.len() == config.dials@.len()
                &&& forall|i: int|
                    0 <= i < config.dials@.len() ==> {
                        let cd = config.dials@[i];
                        let d = (#[trigger] dials@[i])@;
                        &&& dial_config_ok(cd)
                        &&& d.in_range.start == cd.start
                        &&& d.in_range.end == cd.end
                        &&& d.value == d.in_range.spec_middle()
                        &&& d.row_id == 0
                        &&& d.col_id == i
                        &&& !d.out_of_range
                        &&& d.trials.len() == 1
                        &&& trial_generated(d.trials[0], d.in_range, cd.rate as int)
                        &&& first_alarm_with(config.alarms@, cd.alarm@) >= 0
                        &&& d.clear_key == config.alarms@[first_alarm_with(
                            config.alarms@,
                            cd.alarm@,
                        )].clear_key
                        &&& dial_view_wf(d)
                    }
            },
            Err(ConfigError::InvalidDial(i)) => {
                &&& (i as int) < config.dials@.len()
                &&& !dial_config_ok(config.dials@[i as int])
                &&& forall|k: int|
                    0 <= k < i ==> dial_config_ok(#[trigger] config.dials@[k]) && alarm_defined(
                        config.alarms@,
                        config.dials@[k].alarm@,
                    )
            },
            Err(ConfigError::MissingAlarm(name)) => exists|i: int|
                {
                    &&& 0 <= i < config.dials@.len()
                    &&& name@ == (#[trigger] config.dials@[i]).alarm@
                    &&& dial_config_ok(config.dials@[i])
                    &&& !alarm_defined(config.alarms@, config.dials@[i].alarm@)
                    &&& forall|k: int|
                        0 <= k < i ==> dial_config_ok(#[trigger] config.dials@[k]) && alarm_defined(
                            config.alarms@,
                            config.dials@[k].alarm@,
                        )
                },
        },
{
    let mut dials: Vec<Dial> = Vec::new();
    let mut i: usize = 0;
    while i < config.dials.len()
        invariant
            config.dials@.len() <= u32::MAX,
            i <= config.dials@.len(),
            dials@.len() == i,
            forall|k: int|
                0 <= k < i ==> dial_config_ok(#[trigger] config.dials@[k]) && alarm_defined(
                    config.alarms@,
                    config.dials@[k].alarm@,
                ),
            forall|k: int|
                0 <= k < i ==> {
                    let cd = config.dials@[k];
                    let d = (#[trigger] dials@[k])@;
                    &&& d.in_range.start == cd.start
                    &&& d.in_range.end == cd.end
                    &&& d.value == d.in_range.spec_middle()
                    &&& d.row_id == 0
                    &&& d.col_id == k
                    &&& !d.out_of_range
                    &&& d.trials.len() == 1
                    &&& trial_generated(d.trials[0], d.in_range, cd.rate as int)
                    &&& first_alarm_with(config.alarms@, cd.alarm@) >= 0
                    &&& d.clear_key == config.alarms@[first_alarm_with(
                        config.alarms@,
                        cd.alarm@,
                    )].clear_key
                    &&& dial_view_wf(d)
                },
        decreases config.dials@.len() - i,
    {
        let ok = config.dials[i].start < config.dials[i].end && -RANGE_BOUND
            <= config.dials[i].start && config.dials[i].end <= RANGE_BOUND && config.dials[i].rate
            <= DUR_BOUND;
        if !ok {
            return Err(ConfigError::InvalidDial(i));
        }
        match find_alarm(&config.alarms, &config.dials[i].alarm) {
            None => {
                return Err(ConfigError::MissingAlarm(config.dials[i].alarm.clone()));
            },
            Some(j) => {
                let range = DialRange::new(config.dials[i].start, config.dials[i].end);
                let mut times: Vec<u64> = Vec::new();
                times.push(config.dials[i].rate);
                let d = Dial::new(0, i as u32, range, times, config.alarms[j].clear_key);
                dials.push(d);
            },
        }
        i += 1;
    }
    Ok(dials)
}

/// Alarm resolution is first-in first-out: with at least one alarm queued,
/// pressing any key resolves the oldest alarm — the key pressed changes only
/// the correctness judgment, never which alarm is resolved.
pub proof fn lemma_resolution_is_fifo(q: Seq<QueuedAlarm>, key_a: char, key_b: char, now: int)
    requires
        q.len() >= 1,
    ensures
        spec_resolve(q, key_a, now).1 == Some(spec_reaction(q[0], key_a, now)),
        spec_resolve(q, key_a, now).1.unwrap().dial_id == q[0].dial_id,
        spec_resolve(q, key_b, now).1.unwrap().dial_id == q[0].dial_id,
        spec_resolve(q, key_a, now).0 == q.drop_first(),
{
}

} // verus!
