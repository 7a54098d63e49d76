//! Configuration: validation, clear-key normalization, the default
//! configuration, and building simulation dials from a configuration.

use dials::config::{Alarm, Ball, BallVelocity, Config, ConfigError, Dial};
use dials::sim::dials_from_config;

fn small_config() -> Config {
    Config {
        output_data_path: None,
        ball: Ball {
            random_direction_change_time_min: 1_000,
            random_direction_change_time_max: 8_000,
            velocity_meter: BallVelocity::Small,
        },
        dials: vec![Dial { alarm: "klaxon".to_owned(), start: 200, end: 4200, rate: 60_000 }],
        alarms: vec![Alarm {
            name: "klaxon".to_owned(),
            audio_path: "alarm.wav".to_owned(),
            clear_key: 'a',
        }],
    }
}

#[test]
fn validate_accepts_a_consistent_config_and_uppercases_keys() {
    let mut config = small_config();
    assert!(dials::config::validate_config(&mut config).is_ok());
    // The clear key was normalized to uppercase.
    assert_eq!(config.alarms[0].clear_key, 'A');
    // Everything else is untouched.
    assert_eq!(config.alarms[0].name, "klaxon");
    assert_eq!(config.dials[0].alarm, "klaxon");
}

#[test]
fn validate_rejects_a_dial_with_an_undefined_alarm() {
    let mut config = small_config();
    config.dials.push(Dial { alarm: "siren".to_owned(), start: 200, end: 4200, rate: 60_000 });
    match dials::config::validate_config(&mut config) {
        Err(ConfigError::MissingAlarm(name)) => assert_eq!(name, "siren"),
        other => panic!("expected a missing alarm, got {:?}", other),
    }
    // The rejected configuration is left untouched: no key was uppercased.
    assert_eq!(config.alarms[0].clear_key, 'a');
}

#[test]
fn default_config_has_five_staggered_dials() {
    let config = Config::default();
    assert!(config.output_data_path.is_none());
    assert_eq!(config.ball.random_direction_change_time_min, 1_000);
    assert_eq!(config.ball.random_direction_change_time_max, 8_000);
    assert_eq!(config.ball.velocity_meter, BallVelocity::Small);

    assert_eq!(config.dials.len(), 5);
    assert_eq!(config.alarms.len(), 5);
    for i in 0..5u32 {
        let dial = &config.dials[i as usize];
        assert_eq!(dial.start, (i as i64 + 1) * 200_000);
        assert_eq!(dial.end, (i as i64 + 1) * 200_000 + 4_000_000);
        assert_eq!(dial.rate, 50_000);
        let digit = char::from_digit(i + 1, 10).unwrap();
        assert_eq!(dial.alarm, digit.to_string());

        let alarm = &config.alarms[i as usize];
        assert_eq!(alarm.name, digit.to_string());
        assert_eq!(alarm.audio_path, "alarm.wav");
        assert_eq!(alarm.clear_key, digit);
    }
}

#[test]
fn default_config_validates() {
    let mut config = Config::default();
    assert!(dials::config::validate_config(&mut config).is_ok());
}

#[test]
fn dials_are_built_from_the_config_in_order() {
    let config = Config::default();
    let dials = dials_from_config(&config).unwrap();
    assert_eq!(dials.len(), 5);
    for (i, dial) in dials.iter().enumerate() {
        let expected_start = (i as i64 + 1) * 200_000;
        assert_eq!(dial.in_range().start, expected_start);
        assert_eq!(dial.in_range().end, expected_start + 4_000_000);
        // The needle starts at the middle of its range.
        assert_eq!(dial.value(), expected_start + 2_000_000);
        // Cleared by the digit key of the alarm the dial names.
        assert_eq!(dial.clear_key(), char::from_digit(i as u32 + 1, 10).unwrap());
    }
}

#[test]
fn building_dials_rejects_an_unusable_range() {
    let mut config = small_config();
    config.dials[0].start = 4200;
    config.dials[0].end = 200;
    match dials_from_config(&config) {
        Err(ConfigError::InvalidDial(i)) => assert_eq!(i, 0),
        other => panic!("expected an invalid dial, got {:?}", other.map(|_| ())),
    }
}

#[test]
fn building_dials_rejects_an_undefined_alarm() {
    let mut config = small_config();
    config.dials[0].alarm = "siren".to_owned();
    match dials_from_config(&config) {
        Err(ConfigError::MissingAlarm(name)) => assert_eq!(name, "siren"),
        other => panic!("expected a missing alarm, got {:?}", other.map(|_| ())),
    }
}

#[test]
fn ball_velocity_names_round_trip() {
    for v in [BallVelocity::Small, BallVelocity::Medium, BallVelocity::Fast] {
        assert_eq!(BallVelocity::from_name(v.name()), Some(v));
    }
    assert_eq!(BallVelocity::from_name("small"), Some(BallVelocity::Small));
    assert_eq!(BallVelocity::from_name("medium"), Some(BallVelocity::Medium));
    assert_eq!(BallVelocity::from_name("fast"), Some(BallVelocity::Fast));
    assert_eq!(BallVelocity::from_name("tiny"), None);
    assert_eq!(BallVelocity::from_name(""), None);
}
