//! What the command line computes.
use ce_pubsub::cli::{grant_expiry, parse_attribute, parse_audience, tail_line};

#[test]
fn the_audience_defaults_to_the_owner() {
    assert_eq!(parse_audience(&None, [7; 32]).unwrap(), [7; 32]);
    assert_eq!(parse_audience(&Some("08".repeat(32)), [7; 32]).unwrap(), [8; 32]);
    assert_eq!(
        parse_audience(&Some("nope".to_string()), [7; 32]).unwrap_err().text,
        "audience is not valid hex"
    );
    assert_eq!(
        parse_audience(&Some("abcd".to_string()), [7; 32]).unwrap_err().text,
        "audience must be 32 bytes (64 hex chars)"
    );
}

#[test]
fn expiries_count_from_now() {
    assert_eq!(grant_expiry(1_000, 0), Some(0));
    assert_eq!(grant_expiry(1_000, 3_600), Some(4_600));
    assert_eq!(grant_expiry(u64::MAX, 1), None);
}

#[test]
fn attributes_are_split_at_the_first_equals_sign() {
    let pair = |k: &str, v: &str| (k.to_string(), v.to_string());
    assert_eq!(parse_attribute("kind=order").unwrap(), pair("kind", "order"));
    assert_eq!(parse_attribute("q=a=b").unwrap(), pair("q", "a=b"));
    assert_eq!(parse_attribute("empty=").unwrap(), pair("empty", ""));
    assert_eq!(
        parse_attribute("kind").unwrap_err().text,
        "attribute must be key=value, got 'kind'"
    );
}

#[test]
fn lines_show_the_start_of_the_publisher() {
    assert_eq!(tail_line(42, "0123456789abcdef", "hello"), "[42] 0123456789ab :: hello");
    assert_eq!(tail_line(1, "short", ""), "[1] short :: ");
}
