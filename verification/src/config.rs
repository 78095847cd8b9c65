//! Validation of the settings that reach the core, and the defaults the
//! configuration layer falls back to.

use vstd::prelude::*;
use vstd::slice::slice_index_get;
use vstd::string::StringSliceAdditionalSpecFns;

verus! {

/// Why a settings record was rejected.
#[derive(Debug, Clone, Copy, PartialEq, Eq, Structural)]
pub enum ConfigError {
    /// The polling interval is below the smallest accepted value (5 seconds).
    IntervalTooSmall,
    /// The probe timeout lies outside 1..=30 seconds.
    TimeoutOutOfRange,
    /// The webhook URL does not start with an `http`/`https` scheme.
    InvalidWebhookScheme,
}

/// The accepted webhook URLs are exactly those whose text starts with the
/// four bytes `http` (which covers both `http://` and `https://`).
pub open spec fn has_http_prefix(bytes: Seq<u8>) -> bool {
    bytes.len() >= 4 && bytes[0] == 104u8 && bytes[1] == 116u8 && bytes[2] == 116u8 && bytes[3]
        == 112u8
}

/// The log level used when the configuration names none.
pub fn default_log_level() -> (r: String)
    ensures
        r@ == "info"@,
{
    "info".to_owned()
}

/// The admission capacity used when the configuration names none.
pub fn default_max_concurrent() -> (r: usize)
    ensures
        r == 100,
{
    100
}

/// Accepts a settings record exactly when the interval is at least 5 seconds,
/// the timeout lies in 1..=30 seconds, and the webhook URL starts with `http`;
/// otherwise reports the first of those three checks that failed.
pub fn validate_settings(interval: u64, timeout: u64, webhook: &str) -> (r: Result<
    (),
    ConfigError,
>)
    ensures
        r is Ok <==> interval >= 5 && 1 <= timeout <= 30 && has_http_prefix(webhook.spec_bytes()),
        interval < 5 ==> r == Err::<(), ConfigError>(ConfigError::IntervalTooSmall),
        interval >= 5 && !(1 <= timeout <= 30) ==> r == Err::<(), ConfigError>(
            ConfigError::TimeoutOutOfRange,
        ),
        interval >= 5 && 1 <= timeout <= 30 && !has_http_prefix(webhook.spec_bytes()) ==> r
            == Err::<(), ConfigError>(ConfigError::InvalidWebhookScheme),
{
    if interval < 5 {
        return Err(ConfigError::IntervalTooSmall);
    }
    if timeout < 1 || timeout > 30 {
        return Err(ConfigError::TimeoutOutOfRange);
    }
    let bytes = webhook.as_bytes();
    if bytes.len() < 4 || *slice_index_get(bytes, 0) != 104u8 || *slice_index_get(bytes, 1)
        != 116u8 || *slice_index_get(bytes, 2) != 116u8 || *slice_index_get(bytes, 3) != 112u8 {
        return Err(ConfigError::InvalidWebhookScheme);
    }
    Ok(())
}

} // verus!
