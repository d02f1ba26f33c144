//! The settings that the server starts with.

use vstd::prelude::*;
use vstd::string::*;
use crate::text;

verus! {

/// How long a shutdown waits for requests in flight, in milliseconds, unless told
/// otherwise.
pub const GRACE_PERIOD_MS: u64 = 30000;

/// Settings that have been checked.
#[derive(Debug, Clone, Copy, PartialEq, Eq, Structural)]
pub struct ServeConfig {
    pub port: u16,
    pub keep_alive_timeout_seconds: u64,
    pub max_keepalive: usize,
    pub cpu_time_slice_ms: u64,
}

/// Why settings are refused.
#[derive(Debug, Clone, Copy, PartialEq, Eq, Structural)]
pub enum ConfigError {
    /// Not a TCP port.
    Port(i64),
    /// A negative timeout.
    KeepAliveTimeout(i64),
    /// A limit that is negative or outgrows the machine.
    MaxKeepalive(i64),
    /// A limit of zero.
    ZeroMaxKeepalive,
    /// A negative time slice.
    CpuTimeSlice(i64),
    /// A negative grace period.
    GracePeriod(i64),
}

/// What the settings come to: the first that is out of range decides the error.
pub open spec fn checked(
    port: i64,
    keep_alive_timeout_seconds: i64,
    max_keepalive: i64,
    cpu_time_slice_ms: i64,
) -> Result<ServeConfig, ConfigError> {
    if !(0 <= port <= u16::MAX) {
        Err(ConfigError::Port(port))
    } else if keep_alive_timeout_seconds < 0 {
        Err(ConfigError::KeepAliveTimeout(keep_alive_timeout_seconds))
    } else if !(0 <= max_keepalive <= usize::MAX) {
        Err(ConfigError::MaxKeepalive(max_keepalive))
    } else if max_keepalive == 0 {
        Err(ConfigError::ZeroMaxKeepalive)
    } else if cpu_time_slice_ms < 0 {
        Err(ConfigError::CpuTimeSlice(cpu_time_slice_ms))
    } else {
        Ok(
            ServeConfig {
                port: port as u16,
                keep_alive_timeout_seconds: keep_alive_timeout_seconds as u64,
                max_keepalive: max_keepalive as usize,
                cpu_time_slice_ms: cpu_time_slice_ms as u64,
            },
        )
    }
}

/// What is said about settings that are refused.
pub open spec fn complaint(error: ConfigError) -> Seq<char> {
    match error {
        ConfigError::Port(port) => "port "@ + text::signed_decimal(port as int)
            + " is not a valid TCP port (0-65535)"@,
        ConfigError::KeepAliveTimeout(seconds) => "keep_alive_timeout "@ + text::signed_decimal(
            seconds as int,
        ) + " must not be negative"@,
        ConfigError::MaxKeepalive(limit) => "max_keepalive "@ + text::signed_decimal(limit as int)
            + " must not be negative"@,
        ConfigError::ZeroMaxKeepalive =>
            "max_keepalive must be at least 1 (0 has no coherent meaning: a connection always answers the request it already read off the wire before this limit is checked)"@,
        ConfigError::CpuTimeSlice(slice) => "cpu_time_slice "@ + text::signed_decimal(slice as int)
            + " must not be negative"@,
        ConfigError::GracePeriod(seconds) => "grace_period "@ + text::signed_decimal(
            seconds as int,
        ) + " must not be negative"@,
    }
}

fn phrase_of(front: &str, number: i64, back: &str) -> (phrase: String)
    ensures
        phrase@ == front@ + text::signed_decimal(number as int) + back@,
{
    let mut phrase = front.to_owned();
    phrase.append(text::signed_decimal_text(number).as_str());
    phrase.append(back);
    phrase
}

impl ServeConfig {
    /// Checks settings.
    pub fn check(
        port: i64,
        keep_alive_timeout_seconds: i64,
        max_keepalive: i64,
        cpu_time_slice_ms: i64,
    ) -> (config: Result<ServeConfig, ConfigError>)
        ensures
            config == checked(port, keep_alive_timeout_seconds, max_keepalive, cpu_time_slice_ms),
    {
        if port < 0 || port > 65535 {
            return Err(ConfigError::Port(port));
        }
        if keep_alive_timeout_seconds < 0 {
            return Err(ConfigError::KeepAliveTimeout(keep_alive_timeout_seconds));
        }
        if max_keepalive < 0 || max_keepalive as u64 > usize::MAX as u64 {
            return Err(ConfigError::MaxKeepalive(max_keepalive));
        }
        if max_keepalive == 0 {
            return Err(ConfigError::ZeroMaxKeepalive);
        }
        if cpu_time_slice_ms < 0 {
            return Err(ConfigError::CpuTimeSlice(cpu_time_slice_ms));
        }
        Ok(
            ServeConfig {
                port: port as u16,
                keep_alive_timeout_seconds: keep_alive_timeout_seconds as u64,
                max_keepalive: max_keepalive as usize,
                cpu_time_slice_ms: cpu_time_slice_ms as u64,
            },
        )
    }
}

/// The grace period of a shutdown in milliseconds, from one in seconds, or the usual
/// one where none is given. One that has no room in the result is as long as any
/// that has.
pub fn check_grace_period(seconds: Option<i64>) -> (period: Result<u64, ConfigError>)
    ensures
        period == (match seconds {
            None => Ok::<u64, ConfigError>(GRACE_PERIOD_MS),
            Some(given) => if given < 0 {
                Err(ConfigError::GracePeriod(given))
            } else if given * 1000 > u64::MAX {
                Ok(u64::MAX)
            } else {
                Ok((given * 1000) as u64)
            },
        }),
{
    match seconds {
        None => Ok(GRACE_PERIOD_MS),
        Some(given) => {
            if given < 0 {
                return Err(ConfigError::GracePeriod(given));
            }
            match (given as u64).checked_mul(1000) {
                Some(millis) => Ok(millis),
                None => Ok(u64::MAX),
            }
        },
    }
}

impl ConfigError {
    /// Says what is wrong.
    pub fn message(&self) -> (message: String)
        ensures
            message@ == complaint(*self),
    {
        match self {
            ConfigError::Port(port) => phrase_of(
                "port ",
                *port,
                " is not a valid TCP port (0-65535)",
            ),
            ConfigError::KeepAliveTimeout(seconds) => phrase_of(
                "keep_alive_timeout ",
                *seconds,
                " must not be negative",
            ),
            ConfigError::MaxKeepalive(limit) => phrase_of(
                "max_keepalive ",
                *limit,
                " must not be negative",
            ),
            ConfigError::ZeroMaxKeepalive =>
                "max_keepalive must be at least 1 (0 has no coherent meaning: a connection always answers the request it already read off the wire before this limit is checked)".to_owned(),
            ConfigError::CpuTimeSlice(slice) => phrase_of(
                "cpu_time_slice ",
                *slice,
                " must not be negative",
            ),
            ConfigError::GracePeriod(seconds) => phrase_of(
                "grace_period ",
                *seconds,
                " must not be negative",
            ),
        }
    }
}

/// Settings are accepted exactly where each is in its range, and are then what
/// was asked for.
pub proof fn settings_in_range_are_accepted(
    port: i64,
    keep_alive_timeout_seconds: i64,
    max_keepalive: i64,
    cpu_time_slice_ms: i64,
)
    ensures
        match checked(port, keep_alive_timeout_seconds, max_keepalive, cpu_time_slice_ms) {
            Ok(config) => {
                &&& config.port == port
                &&& config.keep_alive_timeout_seconds == keep_alive_timeout_seconds
                &&& config.max_keepalive == max_keepalive
                &&& config.max_keepalive >= 1
                &&& config.cpu_time_slice_ms == cpu_time_slice_ms
            },
            Err(_) => {
                ||| !(0 <= port <= 65535)
                ||| keep_alive_timeout_seconds < 0
                ||| !(1 <= max_keepalive <= usize::MAX)
                ||| cpu_time_slice_ms < 0
            },
        },
{
}

} // verus!
