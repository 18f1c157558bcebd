//! Retry-After parsing and exponential backoff.

use foiacquire::backoff::{backoff_delay, parse_retry_after, ApiRateLimiter};

#[test]
fn test_parse_retry_after_seconds() {
    assert_eq!(parse_retry_after(Some("5")), Some(5000));
    assert_eq!(parse_retry_after(Some("0")), Some(0));
    assert_eq!(parse_retry_after(Some("100")), Some(60000)); // capped
}

#[test]
fn test_parse_retry_after_invalid() {
    assert_eq!(parse_retry_after(None), None);
    assert_eq!(parse_retry_after(Some("invalid")), None);
}

#[test]
fn test_backoff_delay() {
    assert_eq!(backoff_delay(0, 1000), 1000);
    assert_eq!(backoff_delay(1, 1000), 2000);
    assert_eq!(backoff_delay(2, 1000), 4000);
    assert_eq!(backoff_delay(10, 1000), 60000); // capped
}

#[test]
fn test_backoff_delay_zero_base() {
    assert_eq!(backoff_delay(7, 0), 0);
    assert_eq!(backoff_delay(0, 70000), 60000);
}

#[test]
fn test_parse_retry_after_plus_and_overflow() {
    assert_eq!(parse_retry_after(Some("+5")), Some(5000));
    assert_eq!(parse_retry_after(Some("99999999999999999999999")), None);
    assert_eq!(parse_retry_after(Some("")), None);
}

#[test]
fn test_handle_rate_limit() {
    let limiter = ApiRateLimiter::new("ocr", "API_OCR_DELAY_MS");
    assert_eq!(limiter.handle_rate_limit(0, Some("5")), Some(5000));
    assert_eq!(limiter.handle_rate_limit(1, None), Some(2000));
    assert_eq!(limiter.handle_rate_limit(2, Some("bad")), Some(4000));
    assert_eq!(limiter.handle_rate_limit(5, Some("5")), None);
    assert_eq!(limiter.name, "ocr");
    assert_eq!(limiter.delay_env_var, "API_OCR_DELAY_MS");
}
