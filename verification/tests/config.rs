use helixrack::config::{check_grace_period, ConfigError, ServeConfig};

#[test]
fn settings_in_range_are_taken() {
    assert_eq!(
        ServeConfig::check(9292, 30, 100, 50),
        Ok(ServeConfig {
            port: 9292,
            keep_alive_timeout_seconds: 30,
            max_keepalive: 100,
            cpu_time_slice_ms: 50,
        })
    );
    assert!(ServeConfig::check(0, 0, 1, 0).is_ok());
    assert!(ServeConfig::check(65535, i64::MAX, i64::MAX, i64::MAX).is_ok());
}

#[test]
fn settings_out_of_range_are_refused() {
    assert_eq!(ServeConfig::check(65536, 0, 1, 0), Err(ConfigError::Port(65536)));
    assert_eq!(ServeConfig::check(-1, 0, 1, 0), Err(ConfigError::Port(-1)));
    assert_eq!(ServeConfig::check(80, -3, 1, 0), Err(ConfigError::KeepAliveTimeout(-3)));
    assert_eq!(ServeConfig::check(80, 0, -1, 0), Err(ConfigError::MaxKeepalive(-1)));
    assert_eq!(ServeConfig::check(80, 0, 0, 0), Err(ConfigError::ZeroMaxKeepalive));
    assert_eq!(ServeConfig::check(80, 0, 1, -9), Err(ConfigError::CpuTimeSlice(-9)));
}

#[test]
fn the_first_setting_out_of_range_decides() {
    assert_eq!(ServeConfig::check(-1, -1, -1, -1), Err(ConfigError::Port(-1)));
    assert_eq!(ServeConfig::check(1, -1, 0, -1), Err(ConfigError::KeepAliveTimeout(-1)));
    assert_eq!(ServeConfig::check(1, 1, 0, -1), Err(ConfigError::ZeroMaxKeepalive));
}

#[test]
fn refusals_say_why() {
    assert_eq!(
        ConfigError::Port(70000).message(),
        "port 70000 is not a valid TCP port (0-65535)"
    );
    assert_eq!(
        ConfigError::KeepAliveTimeout(-5).message(),
        "keep_alive_timeout -5 must not be negative"
    );
    assert_eq!(
        ConfigError::MaxKeepalive(-2).message(),
        "max_keepalive -2 must not be negative"
    );
    assert_eq!(
        ConfigError::ZeroMaxKeepalive.message(),
        "max_keepalive must be at least 1 (0 has no coherent meaning: a connection always \
         answers the request it already read off the wire before this limit is checked)"
    );
    assert_eq!(
        ConfigError::CpuTimeSlice(-1).message(),
        "cpu_time_slice -1 must not be negative"
    );
}

#[test]
fn grace_periods_are_taken_in_seconds() {
    assert_eq!(check_grace_period(Some(30)), Ok(30_000));
    assert_eq!(check_grace_period(Some(0)), Ok(0));
    assert_eq!(check_grace_period(None), Ok(30_000));
    assert_eq!(check_grace_period(Some(i64::MAX)), Ok(u64::MAX));
    assert_eq!(check_grace_period(Some(-1)), Err(ConfigError::GracePeriod(-1)));
    assert_eq!(
        ConfigError::GracePeriod(-1).message(),
        "grace_period -1 must not be negative"
    );
}
