use botcore::markdown::{bold, escape, full_name};
use botcore::utils::should_retry;

#[test]
fn escape_guards_every_reserved_character() {
    assert_eq!(escape("a_b*c.d!e"), "a\\_b\\*c\\.d\\!e");
    assert_eq!(escape("[x](y)~`>#+-=|{}"), "\\[x\\]\\(y\\)\\~\\`\\>\\#\\+\\-\\=\\|\\{\\}");
    assert_eq!(escape("plain text"), "plain text");
    assert_eq!(escape(""), "");
}

#[test]
fn bold_wraps_in_stars() {
    assert_eq!(bold("hi"), "*hi*");
    assert_eq!(bold(""), "**");
}

#[test]
fn full_name_joins_non_empty_last_names() {
    assert_eq!(full_name("Ada", "Lovelace"), "Ada Lovelace");
    assert_eq!(full_name("Ada", ""), "Ada");
}

#[test]
fn retry_only_on_rate_limiting() {
    assert!(should_retry("Telegram error: Too Many Requests, wait 5s"));
    assert!(should_retry("Too Many Requests"));
    assert!(!should_retry("connection reset"));
    assert!(!should_retry(""));
    assert!(!should_retry("Too Many Request"));
}
