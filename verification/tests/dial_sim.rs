//! The dial state machine and the simulation tick: one alarm per excursion,
//! reset semantics, and first-in first-out alarm resolution.

use dials::dial::{Dial, DialId, DialRange};
use dials::sim::{QueuedAlarm, SimulationState};
use std::collections::VecDeque;

/// Run the dial for `total_ms` in `step_ms` ticks, returning how often the
/// dial reported newly-out-of-range and the value it had at the first
/// report.
fn run_dial(dial: &mut Dial, total_ms: u64, step_ms: u64) -> (u32, Option<i64>) {
    let mut reports = 0u32;
    let mut first_out_value = None;
    let mut t = 0u64;
    while t < total_ms {
        if dial.update(step_ms) {
            reports += 1;
            if first_out_value.is_none() {
                first_out_value = Some(dial.value());
            }
        }
        t += step_ms;
    }
    (reports, first_out_value)
}

#[test]
fn dial_starts_at_the_middle_of_its_range() {
    let range = DialRange::new(200, 4200);
    let dial = Dial::new(0, 0, range, vec![60_000], 'A');
    assert_eq!(dial.value(), 2200);
    assert_eq!(dial.in_range().start, 200);
    assert_eq!(dial.in_range().end, 4200);
    assert_eq!(dial.clear_key(), 'A');
}

#[test]
fn single_trial_reports_out_of_range_exactly_once() {
    // Range {200, 4200}, one trial of 60 seconds with drift-out: after the
    // whole path plus slack for the final drift, the dial must have
    // reported newly-out-of-range exactly once, with its value outside the
    // range at that moment.
    let range = DialRange::new(200, 4200);
    let mut dial = Dial::new(0, 0, range, vec![60_000], 'A');

    let (reports, first_out_value) = run_dial(&mut dial, 120_000, 100);
    assert_eq!(reports, 1);
    let out_value = first_out_value.unwrap();
    assert!(!range.contains(out_value));

    // Still latched: a lot more time passes and nothing is reported again.
    let (more, _) = run_dial(&mut dial, 60_000, 100);
    assert_eq!(more, 0);
}

#[test]
fn reset_with_trials_remaining_resumes_the_next_trial() {
    let range = DialRange::new(200, 4200);
    let mut dial = Dial::new(0, 0, range, vec![5_000, 5_000], 'A');

    let (reports, _) = run_dial(&mut dial, 20_000, 50);
    assert_eq!(reports, 1);

    // Acknowledge the excursion: the second trial becomes active and in
    // time produces its own excursion.
    dial.reset();
    let (second, _) = run_dial(&mut dial, 20_000, 50);
    assert_eq!(second, 1);
}

#[test]
fn reset_with_no_trials_remaining_freezes_at_the_middle() {
    let range = DialRange::new(200, 4200);
    let mut dial = Dial::new(0, 0, range, vec![5_000], 'A');

    let (reports, _) = run_dial(&mut dial, 20_000, 50);
    assert_eq!(reports, 1);

    dial.reset();
    assert_eq!(dial.value(), 2200);

    // The needle never moves again, and nothing more is reported.
    for _ in 0..1000 {
        assert!(!dial.update(250));
        assert_eq!(dial.value(), 2200);
    }
}

#[test]
fn dial_id_packs_the_grid_position() {
    let range = DialRange::new(200, 4200);
    let dial = Dial::new(3, 7, range, vec![1_000], 'A');
    assert_eq!(dial.dial_id(), DialId((3u64 << 32) | 7u64));

    let other = Dial::new(7, 3, range, vec![1_000], 'A');
    assert_ne!(dial.dial_id(), other.dial_id());
}

fn two_dial_state() -> SimulationState {
    let range = DialRange::new(200, 4200);
    SimulationState {
        dials: vec![
            Dial::new(0, 0, range, vec![600_000], 'A'),
            Dial::new(0, 1, range, vec![600_000], 'B'),
        ],
        queued_alarms: VecDeque::new(),
    }
}

#[test]
fn alarm_resolution_is_fifo_and_times_the_reaction() {
    // Alarms raised at t = 1.0 s (dial 0) and t = 1.5 s (dial 1); a key
    // press at t = 2.0 s resolves dial 0's alarm with a reaction time of
    // 1000 ms, whatever key was pressed.
    let mut state = two_dial_state();
    state.queued_alarms.push_back(QueuedAlarm {
        dial_index: 0,
        dial_id: DialId(0),
        time_raised_ms: 1_000,
        correct_key: 'A',
    });
    state.queued_alarms.push_back(QueuedAlarm {
        dial_index: 1,
        dial_id: DialId(1),
        time_raised_ms: 1_500,
        correct_key: 'B',
    });

    let reaction = state.tick(10, 2_000, Some('B')).unwrap();
    assert_eq!(reaction.dial_id, DialId(0));
    assert_eq!(reaction.reaction_time_ms, 1_000);
    assert!(!reaction.correct);
    assert_eq!(reaction.key, 'B');

    // Only the oldest alarm was resolved; dial 1's is still pending.
    assert_eq!(state.queued_alarms.len(), 1);
    assert_eq!(state.queued_alarms[0].dial_id, DialId(1));

    let second = state.tick(10, 2_500, Some('B')).unwrap();
    assert_eq!(second.dial_id, DialId(1));
    assert_eq!(second.reaction_time_ms, 1_000);
    assert!(second.correct);
}

#[test]
fn empty_simulation_ticks_quietly() {
    let mut state = SimulationState::new();
    assert!(state.tick(10, 10, Some('A')).is_none());
    assert!(state.dials.is_empty());
    assert!(state.queued_alarms.is_empty());
}

#[test]
fn key_press_with_no_alarm_queued_does_nothing() {
    let mut state = two_dial_state();
    assert!(state.tick(10, 1_000, Some('A')).is_none());
    assert!(state.queued_alarms.is_empty());
}

#[test]
fn tick_without_key_press_resolves_nothing() {
    let mut state = two_dial_state();
    state.queued_alarms.push_back(QueuedAlarm {
        dial_index: 0,
        dial_id: DialId(0),
        time_raised_ms: 1_000,
        correct_key: 'A',
    });
    assert!(state.tick(10, 2_000, None).is_none());
    assert_eq!(state.queued_alarms.len(), 1);
}

#[test]
fn tick_queues_an_alarm_when_a_dial_drifts_out() {
    let range = DialRange::new(200, 4200);
    let mut state = SimulationState {
        dials: vec![Dial::new(0, 0, range, vec![2_000], 'A')],
        queued_alarms: VecDeque::new(),
    };

    let mut raised = 0u32;
    let mut now = 0u64;
    while now < 10_000 {
        now += 20;
        state.tick(20, now, None);
        raised = state.queued_alarms.len() as u32;
        if raised > 0 {
            break;
        }
    }
    assert_eq!(raised, 1);
    let alarm = &state.queued_alarms[0];
    assert_eq!(alarm.dial_index, 0);
    assert_eq!(alarm.correct_key, 'A');
    assert_eq!(alarm.time_raised_ms, now);
    assert!(!range.contains(state.dials[0].value()));

    // Resolving it resets the dial; no trials remain, so the needle sits at
    // the middle again.
    let reaction = state.tick(20, now + 500, Some('A')).unwrap();
    assert!(reaction.correct);
    assert_eq!(state.dials[0].value(), 2200);
}
