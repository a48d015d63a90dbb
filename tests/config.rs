use rusty_sender::config::{
    batch_size_from_args, batch_size_from_env, batch_size_setting, resolve_batch_size,
    DEFAULT_BATCH_SIZE,
};
use rusty_sender::text::parse_usize;

fn strings(items: &[&str]) -> Vec<String> {
    items.iter().map(|s| s.to_string()).collect()
}

#[test]
fn test_batch_size_from_args_equals() {
    let args = strings(&["prog", "--batch-size=128"]);
    assert_eq!(batch_size_from_args(&args), Some(128));
}

#[test]
fn test_batch_size_from_args_space() {
    let args = strings(&["prog", "--batch-size", "32"]);
    assert_eq!(batch_size_from_args(&args), Some(32));
}

#[test]
fn test_batch_size_from_args_invalid() {
    let args = strings(&["prog", "--batch-size", "x"]);
    assert_eq!(batch_size_from_args(&args), None);
}

#[test]
fn test_batch_size_from_args_zero() {
    let args = strings(&["prog", "--batch-size", "0"]);
    assert_eq!(batch_size_from_args(&args), None);
}

#[test]
fn test_batch_size_from_args_missing_value() {
    let args = strings(&["prog", "--batch-size"]);
    assert_eq!(batch_size_from_args(&args), None);
}

#[test]
fn test_batch_size_from_env() {
    assert_eq!(batch_size_from_env(Some("16")), 16);
}

#[test]
fn test_batch_size_from_env_missing_defaults() {
    assert_eq!(batch_size_from_env(None), DEFAULT_BATCH_SIZE);
}

#[test]
fn test_batch_size_from_env_invalid_defaults() {
    assert_eq!(batch_size_from_env(Some("0")), DEFAULT_BATCH_SIZE);
}

#[test]
fn flag_among_positional_arguments() {
    let args = strings(&["prog", "file", "--batch-size", "7", "host", "514", "tcp"]);
    assert_eq!(batch_size_from_args(&args), Some(7));
}

#[test]
fn first_flag_decides() {
    let args = strings(&["prog", "--batch-size=0", "--batch-size=9"]);
    assert_eq!(batch_size_from_args(&args), None);
}

#[test]
fn no_flag_gives_none() {
    let args = strings(&["prog", "file", "host", "514", "udp"]);
    assert_eq!(batch_size_from_args(&args), None);
    assert_eq!(batch_size_from_args(&[]), None);
}

#[test]
fn resolve_explicit_wins() {
    assert_eq!(resolve_batch_size(Some(5), Some("10"), 64), 5);
}

#[test]
fn resolve_env_when_no_flag() {
    assert_eq!(resolve_batch_size(None, Some("10"), 64), 10);
}

#[test]
fn resolve_bad_env_defaults() {
    assert_eq!(resolve_batch_size(None, Some("bad"), 64), 64);
}

#[test]
fn resolve_zero_env_defaults() {
    assert_eq!(resolve_batch_size(None, Some("0"), 64), 64);
}

#[test]
fn resolve_zero_flag_falls_through() {
    assert_eq!(resolve_batch_size(Some(0), Some("10"), 64), 10);
}

#[test]
fn resolve_nothing_defaults() {
    assert_eq!(resolve_batch_size(None, None, 64), 64);
    assert_eq!(resolve_batch_size(Some(0), Some("-3"), 12), 12);
}

#[test]
fn setting_parses_like_usize() {
    assert_eq!(batch_size_setting("+42"), Some(42));
    assert_eq!(batch_size_setting("+"), None);
    assert_eq!(batch_size_setting(""), None);
    assert_eq!(batch_size_setting(" 4"), None);
    assert_eq!(batch_size_setting("007"), Some(7));
}

#[test]
fn parse_usize_limits() {
    assert_eq!(parse_usize("18446744073709551615"), Some(usize::MAX));
    assert_eq!(parse_usize("18446744073709551616"), None);
    assert_eq!(parse_usize("0"), Some(0));
    assert_eq!(parse_usize("12a"), None);
}
