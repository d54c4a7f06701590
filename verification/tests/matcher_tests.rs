use toto::matcher::{fuzzy_match, CachedPattern, Scheme};
use toto::picker::best_match;

#[test]
fn empty_query_returns_all() {
    let items: Vec<String> = vec!["foo".into(), "bar".into(), "baz".into()];
    let results = fuzzy_match("", &items, Scheme::Default);
    assert_eq!(results.len(), 3);
}

#[test]
fn basic_fuzzy() {
    let items: Vec<String> = vec![
        "src/main.rs".into(),
        "src/matcher.rs".into(),
        "README.md".into(),
    ];
    let results = fuzzy_match("match", &items, Scheme::Default);
    assert!(!results.is_empty());
    assert_eq!(results[0].index, 1);
}

#[test]
fn smart_case_lower() {
    let items: Vec<String> = vec!["FooBar".into(), "foobar".into()];
    let results = fuzzy_match("foo", &items, Scheme::Default);
    assert_eq!(results.len(), 2);
}

#[test]
fn smart_case_upper() {
    let items: Vec<String> = vec!["FooBar".into(), "foobar".into()];
    let results = fuzzy_match("Foo", &items, Scheme::Default);
    assert_eq!(results.len(), 1);
    assert_eq!(results[0].index, 0);
}

#[test]
fn no_match() {
    let items: Vec<String> = vec!["foo".into()];
    let results = fuzzy_match("zzz", &items, Scheme::Default);
    assert!(results.is_empty());
}

#[test]
fn positions_populated() {
    let items: Vec<String> = vec!["src/matcher.rs".into()];
    let results = fuzzy_match("match", &items, Scheme::Default);
    assert_eq!(results.len(), 1);
    assert!(!results[0].positions.is_empty());
    assert_eq!(results[0].positions, vec![4, 5, 6, 7, 8]);
}

#[test]
fn positions_empty_for_empty_query() {
    let items: Vec<String> = vec!["foo".into()];
    let results = fuzzy_match("", &items, Scheme::Default);
    assert_eq!(results.len(), 1);
    assert!(results[0].positions.is_empty());
}

#[test]
fn empty_query_keeps_item_order_with_zero_scores() {
    let items: Vec<String> = vec!["b".into(), "a".into()];
    let results = fuzzy_match("", &items, Scheme::Default);
    assert_eq!(results[0].index, 0);
    assert_eq!(results[1].index, 1);
    assert_eq!(results[0].score, 0);
}

#[test]
fn ranking_is_best_score_first_then_index() {
    let items: Vec<String> = vec!["xmatchx".into(), "match".into(), "m_a_t_c_h".into(), "match".into()];
    let results = fuzzy_match("match", &items, Scheme::Default);
    for w in results.windows(2) {
        assert!(w[0].score > w[1].score || (w[0].score == w[1].score && w[0].index < w[1].index));
    }
    let i1 = results.iter().position(|m| m.index == 1).unwrap();
    let i3 = results.iter().position(|m| m.index == 3).unwrap();
    assert!(i1 < i3);
}

#[test]
fn parallel_matching_agrees_with_serial() {
    let mut items: Vec<String> = Vec::new();
    for i in 0..6000 {
        items.push(format!("item {i} src/matcher_{}.rs", i % 7));
    }
    let big = fuzzy_match("match 5", &items, Scheme::Default);
    let small_items: Vec<String> = items[..100].to_vec();
    let small = fuzzy_match("match 5", &small_items, Scheme::Default);
    let big_prefix: Vec<(usize, u32)> = big.iter().filter(|m| m.index < 100).map(|m| (m.index, m.score)).collect();
    let small_all: Vec<(usize, u32)> = small.iter().map(|m| (m.index, m.score)).collect();
    assert_eq!(big_prefix, small_all);
}

#[test]
fn cached_pattern_scores_like_fuzzy_match() {
    let items: Vec<String> = vec!["alpha".into(), "beta".into(), "alphabet".into()];
    let p = CachedPattern::new("alp", Scheme::Default);
    let a: Vec<usize> = p.score(&items).iter().map(|m| m.index).collect();
    let b: Vec<usize> = fuzzy_match("alp", &items, Scheme::Default).iter().map(|m| m.index).collect();
    assert_eq!(a, b);
}

#[test]
fn best_match_picks_first_ranked() {
    let items: Vec<String> = vec!["src/main.rs".into(), "src/matcher.rs".into()];
    assert_eq!(best_match(&items, "match", Scheme::Default), Some(1));
    assert_eq!(best_match(&items, "zzz", Scheme::Default), None);
}

#[test]
fn parallel_ranking_equals_item_by_item_ranking() {
    let mut items: Vec<String> = Vec::new();
    for i in 0..5200 {
        items.push(format!("entry {i} lib/mod_{}.rs", i % 11));
    }
    let ranked: Vec<(usize, u32, Vec<u32>)> = fuzzy_match("mod 3", &items, Scheme::Default)
        .into_iter()
        .map(|m| (m.index, m.score, m.positions))
        .collect();
    let mut expected: Vec<(usize, u32, Vec<u32>)> = Vec::new();
    for (i, item) in items.iter().enumerate() {
        if let Some((score, positions)) = toto::matcher::match_one("mod 3", false, item) {
            expected.push((i, score, positions));
        }
    }
    expected.sort_by(|a, b| b.1.cmp(&a.1).then(a.0.cmp(&b.0)));
    assert!(!expected.is_empty());
    assert_eq!(ranked, expected);
}
