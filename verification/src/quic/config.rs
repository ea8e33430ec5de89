//! Settings of the transport, as the environment gives them.

use crate::text;
use vstd::prelude::*;

verus! {

pub const DEFAULT_CONNECTIONS: u64 = 8;
pub const MIN_CONNECTIONS: u64 = 1;
pub const MAX_CONNECTIONS: u64 = 8;
pub const DEFAULT_LANES: u64 = 8;
pub const MIN_LANES: u64 = 1;
pub const MAX_LANES: u64 = 64;
pub const DEFAULT_MAX_BATCH_FRAMES: u64 = 64;
pub const MAX_BATCH_FRAMES_LIMIT: u64 = 4_096;
pub const DEFAULT_BATCH_INTERVAL_US: u64 = 1_000;
pub const MAX_BATCH_INTERVAL_US: u64 = 100_000;
pub const RESPONSE_BUFFER_CAPACITY: u64 = 64;
pub const MAX_RESPONSE_BUFFER_CAPACITY: u64 = 65_536;

/// What the environment says. A setting that is absent is `None`.
#[derive(Debug)]
pub struct QuicResponseEnv {
    pub connections: Option<String>,
    pub lanes: Option<String>,
    pub batch_interval_us: Option<String>,
    pub max_batch_frames: Option<String>,
    pub response_buffer_capacity: Option<String>,
    pub coalescing_queue: bool,
    pub priority_prologue_stream: bool,
}

#[derive(Clone, Copy, Debug, PartialEq, Eq, Structural)]
pub struct QuicResponseConfig {
    pub connections: usize,
    /// Total lanes across every connection in the bundle.
    pub lanes: usize,
    /// How long a batch waits for more frames, in microseconds.
    pub batch_interval: u64,
    pub max_batch_frames: usize,
    pub coalescing_queue: bool,
    pub response_buffer_capacity: usize,
    pub priority_prologue_stream: bool,
}

/// The settings that are numbers.
#[derive(Clone, Copy, Debug, PartialEq, Eq, Structural)]
pub enum Setting {
    Connections,
    Lanes,
    BatchIntervalUs,
    MaxBatchFrames,
    BufferCapacity,
}

#[derive(Clone, Copy, Debug, PartialEq, Eq, Structural)]
pub enum ConfigError {
    NotANumber { setting: Setting },
    OutOfRange { setting: Setting, value: u64, min: u64, max: u64 },
    MoreConnectionsThanLanes { connections: usize, lanes: usize },
}

impl QuicResponseConfig {
    /// Every setting is within its range, and no connection is without a lane.
    pub open spec fn wf(self) -> bool {
        &&& MIN_CONNECTIONS <= self.connections <= MAX_CONNECTIONS
        &&& MIN_LANES <= self.lanes <= MAX_LANES
        &&& self.connections <= self.lanes
        &&& self.batch_interval <= MAX_BATCH_INTERVAL_US
        &&& 1 <= self.max_batch_frames <= MAX_BATCH_FRAMES_LIMIT
        &&& 1 <= self.response_buffer_capacity <= MAX_RESPONSE_BUFFER_CAPACITY
    }
}

/// The value of a setting: its default where it is absent or empty, else the
/// number that it holds, which fits in `limit` and lies within the range.
pub open spec fn setting_value(
    raw: Option<String>,
    setting: Setting,
    default: u64,
    min: u64,
    max: u64,
    limit: u64,
) -> Result<u64, ConfigError> {
    match raw {
        None => Ok(default),
        Some(raw) => if raw@.len() == 0 {
            Ok(default)
        } else {
            match text::unsigned_reading(raw@, limit as nat) {
                None => Err(ConfigError::NotANumber { setting }),
                Some(value) => if value < min || value > max {
                    Err(ConfigError::OutOfRange { setting, value: value as u64, min, max })
                } else {
                    Ok(value as u64)
                },
            }
        },
    }
}

pub open spec fn connections_value(env: QuicResponseEnv) -> Result<u64, ConfigError> {
    setting_value(
        env.connections,
        Setting::Connections,
        DEFAULT_CONNECTIONS,
        MIN_CONNECTIONS,
        MAX_CONNECTIONS,
        usize::MAX as u64,
    )
}

pub open spec fn lanes_value(env: QuicResponseEnv) -> Result<u64, ConfigError> {
    setting_value(
        env.lanes,
        Setting::Lanes,
        DEFAULT_LANES,
        MIN_LANES,
        MAX_LANES,
        usize::MAX as u64,
    )
}

pub open spec fn batch_interval_value(env: QuicResponseEnv) -> Result<u64, ConfigError> {
    setting_value(
        env.batch_interval_us,
        Setting::BatchIntervalUs,
        DEFAULT_BATCH_INTERVAL_US,
        0,
        MAX_BATCH_INTERVAL_US,
        u64::MAX,
    )
}

pub open spec fn max_batch_frames_value(env: QuicResponseEnv) -> Result<u64, ConfigError> {
    setting_value(
        env.max_batch_frames,
        Setting::MaxBatchFrames,
        DEFAULT_MAX_BATCH_FRAMES,
        1,
        MAX_BATCH_FRAMES_LIMIT,
        usize::MAX as u64,
    )
}

pub open spec fn buffer_capacity_value(env: QuicResponseEnv) -> Result<u64, ConfigError> {
    setting_value(
        env.response_buffer_capacity,
        Setting::BufferCapacity,
        RESPONSE_BUFFER_CAPACITY,
        1,
        MAX_RESPONSE_BUFFER_CAPACITY,
        usize::MAX as u64,
    )
}

/// The configuration that an environment stands for. The first setting that is
/// wrong decides the error.
pub open spec fn config_reading(env: QuicResponseEnv) -> Result<QuicResponseConfig, ConfigError> {
    let connections = connections_value(env);
    let lanes = lanes_value(env);
    let interval = batch_interval_value(env);
    let frames = max_batch_frames_value(env);
    let capacity = buffer_capacity_value(env);
    if connections is Err {
        Err(connections->Err_0)
    } else if lanes is Err {
        Err(lanes->Err_0)
    } else if interval is Err {
        Err(interval->Err_0)
    } else if frames is Err {
        Err(frames->Err_0)
    } else if capacity is Err {
        Err(capacity->Err_0)
    } else if connections->Ok_0 > lanes->Ok_0 {
        Err(
            ConfigError::MoreConnectionsThanLanes {
                connections: connections->Ok_0 as usize,
                lanes: lanes->Ok_0 as usize,
            },
        )
    } else {
        Ok(
            QuicResponseConfig {
                connections: connections->Ok_0 as usize,
                lanes: lanes->Ok_0 as usize,
                batch_interval: interval->Ok_0,
                max_batch_frames: frames->Ok_0 as usize,
                coalescing_queue: env.coalescing_queue,
                response_buffer_capacity: capacity->Ok_0 as usize,
                priority_prologue_stream: env.priority_prologue_stream,
            },
        )
    }
}

/// The value of one setting.
fn parse_env_range(
    raw: &Option<String>,
    setting: Setting,
    default: u64,
    min: u64,
    max: u64,
    limit: u64,
) -> (r: Result<u64, ConfigError>)
    ensures
        r == setting_value(*raw, setting, default, min, max, limit),
{
    match raw {
        None => Ok(default),
        Some(raw) => {
            let chars = text::chars_of(raw.as_str());
            if chars.len() == 0 {
                return Ok(default);
            }
            match text::read_unsigned(raw.as_str(), limit) {
                None => Err(ConfigError::NotANumber { setting }),
                Some(value) => {
                    if value < min || value > max {
                        Err(ConfigError::OutOfRange { setting, value, min, max })
                    } else {
                        Ok(value)
                    }
                },
            }
        },
    }
}

impl QuicResponseConfig {
    /// Reads the configuration out of the environment.
    pub fn from_env(env: &QuicResponseEnv) -> (r: Result<Self, ConfigError>)
        ensures
            r == config_reading(*env),
            r is Ok ==> r->Ok_0.wf(),
    {
        let word: u64 = usize::MAX as u64;
        let connections: u64 = match parse_env_range(
            &env.connections,
            Setting::Connections,
            DEFAULT_CONNECTIONS,
            MIN_CONNECTIONS,
            MAX_CONNECTIONS,
            word,
        ) {
            Ok(value) => value,
            Err(error) => return Err(error),
        };
        let lanes: u64 = match parse_env_range(
            &env.lanes,
            Setting::Lanes,
            DEFAULT_LANES,
            MIN_LANES,
            MAX_LANES,
            word,
        ) {
            Ok(value) => value,
            Err(error) => return Err(error),
        };
        let interval_us: u64 = match parse_env_range(
            &env.batch_interval_us,
            Setting::BatchIntervalUs,
            DEFAULT_BATCH_INTERVAL_US,
            0,
            MAX_BATCH_INTERVAL_US,
            u64::MAX,
        ) {
            Ok(value) => value,
            Err(error) => return Err(error),
        };
        let max_batch_frames: u64 = match parse_env_range(
            &env.max_batch_frames,
            Setting::MaxBatchFrames,
            DEFAULT_MAX_BATCH_FRAMES,
            1,
            MAX_BATCH_FRAMES_LIMIT,
            word,
        ) {
            Ok(value) => value,
            Err(error) => return Err(error),
        };
        let response_buffer_capacity: u64 = match parse_env_range(
            &env.response_buffer_capacity,
            Setting::BufferCapacity,
            RESPONSE_BUFFER_CAPACITY,
            1,
            MAX_RESPONSE_BUFFER_CAPACITY,
            word,
        ) {
            Ok(value) => value,
            Err(error) => return Err(error),
        };
        if connections > lanes {
            return Err(
                ConfigError::MoreConnectionsThanLanes {
                    connections: connections as usize,
                    lanes: lanes as usize,
                },
            );
        }
        Ok(
            QuicResponseConfig {
                connections: connections as usize,
                lanes: lanes as usize,
                batch_interval: interval_us,
                max_batch_frames: max_batch_frames as usize,
                coalescing_queue: env.coalescing_queue,
                response_buffer_capacity: response_buffer_capacity as usize,
                priority_prologue_stream: env.priority_prologue_stream,
            },
        )
    }
}

/// Whether `value` is what `raw` says: the default where it says nothing, and
/// else the number that it holds, which lies within the range.
pub open spec fn says(raw: Option<String>, value: nat, default: nat, min: nat, max: nat) -> bool {
    &&& raw is None || raw->0@.len() == 0 ==> value == default
    &&& raw is Some && raw->0@.len() > 0 ==> text::unsigned_reading(raw->0@, u64::MAX as nat)
        == Some(value) && min <= value <= max
}

proof fn lemma_wider_reading(text: Seq<char>, limit: nat)
    requires
        limit <= u64::MAX,
    ensures
        text::unsigned_reading(text, limit) is Some ==> text::unsigned_reading(
            text,
            u64::MAX as nat,
        ) == text::unsigned_reading(text, limit),
{
}

/// A configuration that is accepted is what the environment says, setting by
/// setting.
pub proof fn settings_are_what_the_environment_says(env: QuicResponseEnv)
    ensures
        config_reading(env) matches Ok(config) ==> {
            &&& says(env.connections, config.connections as nat, 8, 1, 8)
            &&& says(env.lanes, config.lanes as nat, 8, 1, 64)
            &&& says(env.batch_interval_us, config.batch_interval as nat, 1_000, 0, 100_000)
            &&& says(env.max_batch_frames, config.max_batch_frames as nat, 64, 1, 4_096)
            &&& says(
                env.response_buffer_capacity,
                config.response_buffer_capacity as nat,
                64,
                1,
                65_536,
            )
            &&& config.coalescing_queue == env.coalescing_queue
            &&& config.priority_prologue_stream == env.priority_prologue_stream
            &&& config.connections <= config.lanes
        },
{
    if config_reading(env) is Ok {
        if env.connections is Some {
            lemma_wider_reading(env.connections->0@, usize::MAX as nat);
        }
        if env.lanes is Some {
            lemma_wider_reading(env.lanes->0@, usize::MAX as nat);
        }
        if env.max_batch_frames is Some {
            lemma_wider_reading(env.max_batch_frames->0@, usize::MAX as nat);
        }
        if env.response_buffer_capacity is Some {
            lemma_wider_reading(env.response_buffer_capacity->0@, usize::MAX as nat);
        }
    }
}

/// Settings that are all within their ranges, with no more connections than
/// lanes, are accepted.
pub proof fn valid_settings_are_accepted(
    env: QuicResponseEnv,
    connections: nat,
    lanes: nat,
    interval: nat,
    frames: nat,
    capacity: nat,
)
    requires
        says(env.connections, connections, 8, 1, 8),
        says(env.lanes, lanes, 8, 1, 64),
        says(env.batch_interval_us, interval, 1_000, 0, 100_000),
        says(env.max_batch_frames, frames, 64, 1, 4_096),
        says(env.response_buffer_capacity, capacity, 64, 1, 65_536),
    ensures
        connections <= lanes ==> config_reading(env) is Ok,
        connections > lanes ==> (config_reading(env) matches Err(
            ConfigError::MoreConnectionsThanLanes { connections: c, lanes: l },
        ) && c == connections && l == lanes),
{
}

/// A setting is refused if it is no number, or none within its range, and the
/// error names the setting.
pub proof fn wrong_settings_are_refused(
    raw: Option<String>,
    setting: Setting,
    default: u64,
    min: u64,
    max: u64,
    limit: u64,
)
    ensures
        ({
            let r = setting_value(raw, setting, default, min, max, limit);
            let number = text::unsigned_reading(raw->0@, limit as nat);
            &&& raw is None || raw->0@.len() == 0 ==> r == Ok::<u64, ConfigError>(default)
            &&& raw is Some && raw->0@.len() > 0 ==> {
                &&& number is None ==> r == Err::<u64, ConfigError>(
                    ConfigError::NotANumber { setting },
                )
                &&& number is Some && min <= number->0 <= max ==> (r matches Ok(value) && value
                    == number->0)
                &&& number is Some && !(min <= number->0 <= max) ==> (r matches Err(
                    ConfigError::OutOfRange { setting: s, value, min: low, max: high },
                ) && s == setting && value == number->0 && low == min && high == max)
            }
        }),
{
}

} // verus!
