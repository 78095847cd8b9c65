use netpulse::config::{default_log_level, default_max_concurrent, validate_settings, ConfigError};

#[test]
fn defaults() {
    assert_eq!(default_log_level(), "info");
    assert_eq!(default_max_concurrent(), 100);
}

#[test]
fn accepts_valid_settings() {
    assert_eq!(validate_settings(5, 1, "http://example.com/hook"), Ok(()));
    assert_eq!(validate_settings(60, 30, "https://example.com/hook"), Ok(()));
}

#[test]
fn rejects_small_interval() {
    assert_eq!(
        validate_settings(4, 5, "https://example.com/hook"),
        Err(ConfigError::IntervalTooSmall)
    );
    assert_eq!(
        validate_settings(0, 5, "https://example.com/hook"),
        Err(ConfigError::IntervalTooSmall)
    );
}

#[test]
fn rejects_timeout_out_of_range() {
    assert_eq!(
        validate_settings(5, 0, "https://example.com/hook"),
        Err(ConfigError::TimeoutOutOfRange)
    );
    assert_eq!(
        validate_settings(5, 31, "https://example.com/hook"),
        Err(ConfigError::TimeoutOutOfRange)
    );
}

#[test]
fn rejects_bad_webhook_scheme() {
    assert_eq!(
        validate_settings(5, 5, "ftp://example.com/hook"),
        Err(ConfigError::InvalidWebhookScheme)
    );
    assert_eq!(validate_settings(5, 5, ""), Err(ConfigError::InvalidWebhookScheme));
    assert_eq!(validate_settings(5, 5, "htt"), Err(ConfigError::InvalidWebhookScheme));
}

#[test]
fn interval_checked_before_timeout_and_webhook() {
    assert_eq!(validate_settings(1, 0, "nope"), Err(ConfigError::IntervalTooSmall));
    assert_eq!(validate_settings(5, 0, "nope"), Err(ConfigError::TimeoutOutOfRange));
}
