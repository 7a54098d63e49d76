//! Configuration consumed by the simulation core: per-dial target ranges and
//! drift times, named alarms with their clear keys, and the ball's
//! parameters. Validation checks that every dial's alarm resolves to a
//! defined alarm and normalizes clear keys to uppercase.
//!
//! Times are in milliseconds and dial values in thousandths of a dial unit.

use vstd::prelude::*;
use vstd::string::StrSliceExecFns;

verus! {

/// How fast the ball moves.
#[derive(Clone, Copy, Debug, PartialEq, Eq, Structural)]
pub enum BallVelocity {
    Small,
    Medium,
    Fast,
}

impl BallVelocity {
    /// The name this velocity carries in configuration files.
    pub open spec fn spec_name(self) -> Seq<char> {
        match self {
            BallVelocity::Small => "small"@,
            BallVelocity::Medium => "medium"@,
            BallVelocity::Fast => "fast"@,
        }
    }

    pub fn name(&self) -> (r: &'static str)
        ensures
            r@ == self.spec_name(),
    {
        match self {
            BallVelocity::Small => "small",
            BallVelocity::Medium => "medium",
            BallVelocity::Fast => "fast",
        }
    }

    /// The velocity a configuration name stands for, `None` for any other
    /// name.
    pub fn from_name(s: &str) -> (r: Option<BallVelocity>)
        ensures
            match r {
                Some(v) => s@ == v.spec_name(),
                None => {
                    &&& s@ != BallVelocity::Small.spec_name()
                    &&& s@ != BallVelocity::Medium.spec_name()
                    &&& s@ != BallVelocity::Fast.spec_name()
                },
            },
    {
        if str_eq(s, "small") {
            Some(BallVelocity::Small)
        } else if str_eq(s, "medium") {
            Some(BallVelocity::Medium)
        } else if str_eq(s, "fast") {
            Some(BallVelocity::Fast)
        } else {
            None
        }
    }
}

/// Character-wise string equality.
pub(crate) fn str_eq(a: &str, b: &str) -> (r: bool)
    ensures
        r == (a@ == b@),
{
    let a_len = a.unicode_len();
    let b_len = b.unicode_len();
    if a_len != b_len {
        proof {
            if a@ == b@ {
                assert(a@.len() == b@.len());
            }
        }
        return false;
    }
    let mut i: usize = 0;
    while i < a_len
        invariant
            a_len == a@.len(),
            b_len == b@.len(),
            a_len == b_len,
            i <= a_len,
            forall|j: int| 0 <= j < i ==> a@[j] == b@[j],
        decreases a_len - i,
    {
        if a.get_char(i) != b.get_char(i) {
            proof {
                if a@ == b@ {
                    assert(a@[i as int] == b@[i as int]);
                }
            }
            return false;
        }
        i += 1;
    }
    proof {
        assert(a@ =~= b@);
    }
    true
}

/// The ball's configuration: bounds on its random redirect interval, in
/// milliseconds, and its velocity tier.
#[derive(Clone, Debug)]
pub struct Ball {
    pub random_direction_change_time_min: u64,
    pub random_direction_change_time_max: u64,
    pub velocity_meter: BallVelocity,
}

/// One dial's configuration.
#[derive(Clone, Debug)]
pub struct Dial {
    /// The name of the alarm this dial uses
    pub alarm: String,
    /// The start of the "in-range", in thousandths of a dial unit
    pub start: i64,
    /// The end of the "in-range", in thousandths of a dial unit
    pub end: i64,
    /// How long the dial drifts until it leaves its in-range, in milliseconds
    pub rate: u64,
}

/// One alarm's configuration.
#[derive(Clone, Debug)]
pub struct Alarm {
    /// The user defined name of this alarm. Used to match up which alarm is
    /// being used in [`Dial::alarm`]
    pub name: String,
    /// The path to the audio file for this alarm
    pub audio_path: String,
    /// The key that clears this alarm. Case insensitive single letter
    pub clear_key: char,
}

/// The whole configuration.
#[derive(Clone, Debug)]
pub struct Config {
    /// Where the output data gets stored to once the experiment is done
    pub output_data_path: Option<String>,
    pub ball: Ball,
    pub dials: Vec<Dial>,
    pub alarms: Vec<Alarm>,
}

/// The digit character naming the dial and alarm at one-based position `i`
/// in the default configuration.
pub open spec fn digit_char(i: int) -> char {
    if i == 1 {
        '1'
    } else if i == 2 {
        '2'
    } else if i == 3 {
        '3'
    } else if i == 4 {
        '4'
    } else {
        '5'
    }
}

impl Default for Config {
    /// The configuration written out when none exists: five dials with
    /// staggered 4000-unit ranges drifting out after 50 seconds, each
    /// cleared by its own digit key.
    fn default() -> (c: Config)
        ensures
            c.output_data_path is None,
            c.ball.random_direction_change_time_min == 1000,
            c.ball.random_direction_change_time_max == 8000,
            c.ball.velocity_meter == BallVelocity::Small,
            c.dials@.len() == 5,
            forall|j: int|
                0 <= j < 5 ==> {
                    let d = #[trigger] c.dials@[j];
                    &&& d.start == (j + 1) * 200_000
                    &&& d.end == (j + 1) * 200_000 + 4_000_000
                    &&& d.rate == 50_000
                    &&& d.alarm@ == seq![digit_char(j + 1)]
                },
            c.alarms@.len() == 5,
            forall|j: int|
                0 <= j < 5 ==> {
                    let a = #[trigger] c.alarms@[j];
                    &&& a.name@ == seq![digit_char(j + 1)]
                    &&& a.audio_path@ == "alarm.wav"@
                    &&& a.clear_key == digit_char(j + 1)
                },
    {
        let mut dials: Vec<Dial> = Vec::new();
        let mut alarms: Vec<Alarm> = Vec::new();

        let mut i: usize = 1;
        while i <= 5
            invariant
                1 <= i <= 6,
                dials@.len() == i - 1,
                alarms@.len() == i - 1,
                forall|j: int|
                    0 <= j < i - 1 ==> {
                        let d = #[trigger] dials@[j];
                        &&& d.start == (j + 1) * 200_000
                        &&& d.end == (j + 1) * 200_000 + 4_000_000
                        &&& d.rate == 50_000
                        &&& d.alarm@ == seq![digit_char(j + 1)]
                    },
                forall|j: int|
                    0 <= j < i - 1 ==> {
                        let a = #[trigger] alarms@[j];
                        &&& a.name@ == seq![digit_char(j + 1)]
                        &&& a.audio_path@ == "alarm.wav"@
                        &&& a.clear_key == digit_char(j + 1)
                    },
            decreases 6 - i,
        {
            let (name, key): (&str, char) = match i {
                1 => ("1", '1'),
                2 => ("2", '2'),
                3 => ("3", '3'),
                4 => ("4", '4'),
                _ => ("5", '5'),
            };
            proof {
                reveal_strlit("1");
                reveal_strlit("2");
                reveal_strlit("3");
                reveal_strlit("4");
                reveal_strlit("5");
                assert(name@ =~= seq![digit_char(i as int)]);
            }
            dials.push(
                Dial {
                    alarm: name.to_owned(),
                    start: (i as i64) * 200_000,
                    end: (i as i64) * 200_000 + 4_000_000,
                    rate: 50_000,
                },
            );
            alarms.push(
                Alarm { name: name.to_owned(), audio_path: "alarm.wav".to_owned(), clear_key: key },
            );
            i += 1;
        }

        Config {
            output_data_path: None,
            ball: Ball {
                random_direction_change_time_min: 1000,
                random_direction_change_time_max: 8000,
                velocity_meter: BallVelocity::Small,
            },
            dials,
            alarms,
        }
    }
}

/// Why a configuration was rejected.
#[derive(Clone, Debug)]
pub enum ConfigError {
    /// A dial references an alarm name that no alarm defines.
    MissingAlarm(String),
    /// A dial's numbers cannot drive a simulation: its range must run
    /// upward within the machine bounds and its drift time must be
    /// representable. The payload is the dial's position in the list.
    InvalidDial(usize),
}

/// Whether some alarm in the list carries this name.
pub open spec fn alarm_defined(alarms: Seq<Alarm>, name: Seq<char>) -> bool {
    exists|j: int| 0 <= j < alarms.len() && (#[trigger] alarms[j]).name@ == name
}

/// Whether every dial's alarm name resolves to a defined alarm.
pub open spec fn all_alarms_defined(c: Config) -> bool {
    forall|i: int|
        0 <= i < c.dials@.len() ==> alarm_defined(c.alarms@, (#[trigger] c.dials@[i]).alarm@)
}

/// The result of `char::to_uppercase`, reduced to its first character: the
/// uppercase form of a configured clear key.
pub uninterp spec fn upper_of(c: char) -> char;

/// Relies on `char::to_uppercase`: the Unicode uppercase mapping of the
/// character, a function of the character alone. The mapping always yields
/// at least one character, so taking the first cannot panic; that first
/// character is the normalized key.
#[verifier::external_body]
fn uppercase_key(c: char) -> (r: char)
    ensures
        r == upper_of(c),
{
    c.to_uppercase().next().unwrap()
}

/// Whether some alarm in the list carries this name.
fn contains_alarm(alarms: &Vec<Alarm>, name: &String) -> (r: bool)
    ensures
        r == alarm_defined(alarms@, name@),
{
    let mut j: usize = 0;
    while j < alarms.len()
        invariant
            j <= alarms@.len(),
            forall|k: int| 0 <= k < j ==> (#[trigger] alarms@[k]).name@ != name@,
        decreases alarms@.len() - j,
    {
        if str_eq(alarms[j].name.as_str(), name.as_str()) {
            return true;
        }
        j += 1;
    }
    false
}

/// Checks that every dial's alarm resolves to a defined alarm — rejecting
/// the configuration at the first dial whose alarm is missing — and then
/// normalizes every alarm's clear key to uppercase. A rejected
/// configuration is left untouched.
pub fn validate_config(config: &mut Config) -> (r: Result<(), ConfigError>)
    ensures
        r is Ok <==> all_alarms_defined(*old(config)),
        match r {
            Ok(_) => {
                &&& final(config).output_data_path == old(config).output_data_path
                &&& final(config).ball == old(config).ball
                &&& final(config).dials == old(config).dials
                &&& final(config).alarms@.len() == old(config).alarms@.len()
                &&& forall|j: int|
                    0 <= j < old(config).alarms@.len() ==> {
                        let a = #[trigger] final(config).alarms@[j];
                        let b = old(config).alarms@[j];
                        a.name == b.name && a.audio_path == b.audio_path && a.clear_key == upper_of(
                            b.clear_key,
                        )
                    }
            },
            Err(ConfigError::MissingAlarm(name)) => {
                &&& *final(config) == *old(config)
                &&& exists|i: int|
                    {
                        &&& 0 <= i < old(config).dials@.len()
                        &&& name@ == (#[trigger] old(config).dials@[i]).alarm@
                        &&& !alarm_defined(old(config).alarms@, old(config).dials@[i].alarm@)
                        &&& forall|k: int|
                            0 <= k < i ==> alarm_defined(
                                old(config).alarms@,
                                (#[trigger] old(config).dials@[k]).alarm@,
                            )
                    }
            },
            Err(ConfigError::InvalidDial(_)) => false,
        },
{
    let mut i: usize = 0;
    while i < config.dials.len()
        invariant
            *config == *old(config),
            i <= config.dials@.len(),
            forall|k: int|
                0 <= k < i ==> alarm_defined(config.alarms@, (#[trigger] config.dials@[k]).alarm@),
        decreases config.dials@.len() - i,
    {
        if !contains_alarm(&config.alarms, &config.dials[i].alarm) {
            return Err(ConfigError::MissingAlarm(config.dials[i].alarm.clone()));
        }
        i += 1;
    }

    let mut normalized: Vec<Alarm> = Vec::new();
    let mut j: usize = 0;
    while j < config.alarms.len()
        invariant
            config.dials == old(config).dials,
            config.alarms == old(config).alarms,
            config.ball == old(config).ball,
            config.output_data_path == old(config).output_data_path,
            j <= config.alarms@.len(),
            normalized@.len() == j,
            forall|k: int|
                0 <= k < j ==> {
                    let a = #[trigger] normalized@[k];
                    let b = config.alarms@[k];
                    a.name == b.name && a.audio_path == b.audio_path && a.clear_key == upper_of(
                        b.clear_key,
                    )
                },
        decreases config.alarms@.len() - j,
    {
        let upper = uppercase_key(config.alarms[j].clear_key);
        let entry = Alarm {
            name: config.alarms[j].name.clone(),
            audio_path: config.alarms[j].audio_path.clone(),
            clear_key: upper,
        };
        normalized.push(entry);
        j += 1;
    }
    config.alarms = normalized;
    Ok(())
}

} // verus!
