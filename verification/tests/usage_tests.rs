use toto::usage::{make_key, parse_usage_toml, Usage};

#[test]
fn make_key_trims() {
    assert_eq!(make_key(" git ", " checkout "), "git//checkout");
}

#[test]
fn record_counts_and_renders_sorted() {
    let mut u = Usage::new(None);
    assert_eq!(u.get("b"), 0);
    u.record("b");
    u.record("a\"q");
    u.record("b");
    assert_eq!(u.get("b"), 2);
    assert_eq!(u.get("a\"q"), 1);
    assert_eq!(u.render(), "[usage]\n\"a\\\"q\" = 1\n\"b\" = 2\n");
}

#[test]
fn record_saturates() {
    let mut u = Usage::from_counts(&vec![("k".to_string(), u64::MAX)], None);
    u.record("k");
    assert_eq!(u.get("k"), u64::MAX);
}

#[test]
fn usage_file_round_trip() {
    let mut u = Usage::new(Some("/tmp/usage.toml".into()));
    u.record("x//y");
    u.record("a\\b");
    let text = u.render();
    let parsed = parse_usage_toml(&text).unwrap();
    let back = Usage::from_counts(&parsed, None);
    assert_eq!(back.get("x//y"), 1);
    assert_eq!(back.get("a\\b"), 1);
    assert_eq!(back.render(), text);
}

#[test]
fn usage_file_skips_non_integers() {
    let parsed = parse_usage_toml("[usage]\n\"a\" = 3\n\"b\" = \"x\"\n").unwrap();
    assert_eq!(parsed, vec![("a".to_string(), 3)]);
    assert!(parse_usage_toml("not toml [").is_none());
    assert!(parse_usage_toml("[other]\nx = 1\n").is_none());
}

#[test]
fn later_counts_replace_earlier() {
    let u = Usage::from_counts(&vec![("k".to_string(), 1), ("k".to_string(), 5)], None);
    assert_eq!(u.get("k"), 5);
}
