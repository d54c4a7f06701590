use toto::display::{truncate_highlight, truncate_pad, wrap_lines};
use unicode_width::UnicodeWidthStr;
use toto::picker::{decode_key, finish, parse_height, word_cut_exec, Height, Key, KeyOutcome, PickResult, PickerState};
use toto::matcher::MatchResult;
use toto::frame::DrawState;
use toto::picker::{TrickEntry, TricksDisplay};

#[test]
fn truncate_pad_short() {
    assert_eq!(truncate_pad("hi", 5), "hi   ");
}

#[test]
fn truncate_pad_exact() {
    assert_eq!(truncate_pad("hello", 5), "hello");
}

#[test]
fn truncate_pad_long() {
    let r = truncate_pad("hello world", 6);
    assert_eq!(r.len(), 6);
}

#[test]
fn truncate_pad_long_marks_cut() {
    assert_eq!(truncate_pad("hello world", 6), "hello.");
    assert_eq!(truncate_pad("abc", 0), ".");
}

#[test]
fn height_full() {
    assert_eq!(parse_height("full"), Height::Full);
    assert_eq!(parse_height(""), Height::Full);
}

#[test]
fn height_percent() {
    assert_eq!(parse_height("40%"), Height::Percent(40));
}

#[test]
fn height_rows() {
    assert_eq!(parse_height("20"), Height::Rows(20));
}

#[test]
fn height_resolve() {
    assert_eq!(Height::Full.resolve(50), 50);
    assert_eq!(Height::Percent(40).resolve(50), 20);
    assert_eq!(Height::Rows(20).resolve(50), 20);
    assert_eq!(Height::Rows(100).resolve(50), 50);
}

#[test]
fn height_edge_cases() {
    assert_eq!(parse_height("  FULL "), Height::Full);
    assert_eq!(parse_height("250%"), Height::Percent(100));
    assert_eq!(parse_height("0%"), Height::Percent(1));
    assert_eq!(parse_height(" 5 % "), Height::Percent(5));
    assert_eq!(parse_height("5 %"), Height::Percent(5));
    assert_eq!(parse_height("1"), Height::Rows(3));
    assert_eq!(parse_height("+7"), Height::Rows(7));
    assert_eq!(parse_height("abc"), Height::Full);
    assert_eq!(parse_height("70000"), Height::Full);
    assert_eq!(Height::Percent(1).resolve(50), 3);
    assert_eq!(Height::Rows(3).resolve(2), 3);
    assert!(Height::Full.is_full());
    assert!(!Height::Rows(4).is_full());
}

#[test]
fn truncate_highlight_marks_matches() {
    let r = truncate_highlight("abc", 5, &vec![1], "B");
    assert_eq!(r, "a\x1b[1m\x1b[33mb\x1b[0mBc  ");
    assert_eq!(truncate_highlight("hello", 5, &vec![], ""), "hello");
    let cut = truncate_highlight("abcdef", 4, &vec![0], "B");
    assert_eq!(cut, "\x1b[1m\x1b[33ma\x1b[0mBbc.");
}

#[test]
fn wrap_lines_wraps_and_skips_escapes() {
    assert_eq!(wrap_lines("abcdef", 4), vec!["abcd".to_string(), "ef".to_string()]);
    assert_eq!(wrap_lines("\x1b[1mabc", 2), vec!["\x1b[1mab".to_string(), "c".to_string()]);
    assert_eq!(wrap_lines("ab\ncd", 0), vec!["ab".to_string(), "cd".to_string()]);
    assert!(wrap_lines("", 5).is_empty());
}

#[test]
fn keys_are_decoded() {
    assert_eq!(decode_key(&vec![b'\r']), Key::Enter);
    assert_eq!(decode_key(&vec![0x1b]), Key::Escape);
    assert_eq!(decode_key(&vec![0x1b, b'[', b'A']), Key::Up);
    assert_eq!(decode_key(&vec![0x1b, b'O', b'B']), Key::Down);
    assert_eq!(decode_key(&vec![0x1b, b'[', b'3', b'~']), Key::Delete);
    assert_eq!(decode_key(&vec![0x17]), Key::DeleteWord);
    assert_eq!(decode_key(&"é".as_bytes().to_vec()), Key::Text(vec!['é']));
    assert_eq!(decode_key(&vec![b'a', 0x01]), Key::Other);
    assert_eq!(decode_key(&vec![0xff]), Key::Other);
}

fn state(q: &str) -> PickerState {
    PickerState::new(&Some(q.to_string()))
}

#[test]
fn editing_keys_change_the_query() {
    let mut st = state("ab");
    assert_eq!(st.qpos, 2);
    assert_eq!(st.apply_key(&Key::Text(vec!['c']), 0, 10, false), KeyOutcome::QueryChanged);
    assert_eq!(st.query, vec!['a', 'b', 'c']);
    st.apply_key(&Key::Left, 0, 10, false);
    st.apply_key(&Key::Backspace, 0, 10, false);
    assert_eq!(st.query, vec!['a', 'c']);
    assert_eq!(st.qpos, 1);
    st.apply_key(&Key::KillToEnd, 0, 10, false);
    assert_eq!(st.query, vec!['a']);
    st.apply_key(&Key::ClearQuery, 0, 10, false);
    assert!(st.query.is_empty());
    assert_eq!(st.qpos, 0);
}

#[test]
fn ctrl_w_deletes_a_word() {
    let mut st = state("git  checkout  ");
    st.apply_key(&Key::DeleteWord, 0, 10, false);
    let q: String = st.query.iter().collect();
    assert_eq!(q, "git  ");
    assert_eq!(st.qpos, 5);
    let mut st = state("one");
    st.apply_key(&Key::DeleteWord, 0, 10, false);
    assert!(st.query.is_empty());
    let q: Vec<char> = "éé x".chars().collect();
    assert_eq!(word_cut_exec(&q, 4), 3);
    let mut st = state("éé b");
    st.apply_key(&Key::DeleteWord, 0, 10, false);
    assert_eq!(st.query, vec!['é', 'é', ' ']);
    assert_eq!(st.qpos, 3);
}

#[test]
fn selection_moves_within_matches() {
    let mut st = state("");
    st.apply_key(&Key::Down, 3, 10, false);
    st.apply_key(&Key::Down, 3, 10, false);
    st.apply_key(&Key::Down, 3, 10, false);
    assert_eq!(st.sel, 2);
    st.apply_key(&Key::PageUp, 3, 10, false);
    assert_eq!(st.sel, 0);
    st.apply_key(&Key::PageDown, 3, 10, false);
    assert_eq!(st.sel, 2);
    st.sel = 7;
    st.scroll = 9;
    st.clamp(3);
    assert_eq!(st.sel, 2);
    assert_eq!(st.scroll, 2);
    st.clamp(0);
    assert_eq!(st.sel, 0);
}

#[test]
fn query_change_resets_selection() {
    let mut st = state("a");
    st.sel = 2;
    st.scroll = 1;
    st.apply_key(&Key::Text(vec!['b']), 5, 10, false);
    assert_eq!(st.sel, 0);
    assert_eq!(st.scroll, 0);
}

#[test]
fn enter_and_edit_finish_the_session() {
    let matches = vec![MatchResult { index: 1, score: 9, positions: vec![] }];
    let items: Vec<String> = vec!["a".into(), "b".into()];
    let mut st = state("q");
    let o = st.apply_key(&Key::Enter, 1, 10, false);
    assert_eq!(o, KeyOutcome::Select(0));
    match finish(o, &matches, &items, &st.query) {
        Some(PickResult::Selected(i, s)) => {
            assert_eq!(i, 1);
            assert_eq!(s, "b");
        }
        _ => panic!("expected a selection"),
    }
    let o = st.apply_key(&Key::EditOrEnd, 1, 10, true);
    match finish(o, &matches, &items, &st.query) {
        Some(PickResult::Edit { index, query }) => {
            assert_eq!(index, 1);
            assert_eq!(query, "q");
        }
        _ => panic!("expected an edit"),
    }
    let o = st.apply_key(&Key::Enter, 0, 10, false);
    assert!(finish(o, &matches, &items, &st.query).is_none());
    let o = st.apply_key(&Key::Escape, 1, 10, false);
    assert!(matches!(finish(o, &matches, &items, &st.query), Some(PickResult::Cancelled)));
}

#[test]
fn ctrl_e_without_edit_moves_to_end() {
    let mut st = state("abc");
    st.apply_key(&Key::Home, 0, 10, false);
    assert_eq!(st.qpos, 0);
    assert_eq!(st.apply_key(&Key::EditOrEnd, 0, 10, false), KeyOutcome::Continue);
    assert_eq!(st.qpos, 3);
}

#[test]
fn plain_frame_is_drawn() {
    let items: Vec<String> = vec!["alpha".into(), "beta".into()];
    let matches = vec![
        MatchResult { index: 0, score: 0, positions: vec![] },
        MatchResult { index: 1, score: 0, positions: vec![] },
    ];
    let mut st = state("");
    let mut ds = DrawState::new();
    assert!(st.frame_defined(4, 0, &None));
    let frame = st.draw_frame(&mut ds, &items, &matches, "> ", true, 20, 4, 0, &None);
    let expected = format!(
        "{}{}{}{}",
        "\x1b[1;1H\x1b[1m\x1b[32m>  \x1b[0m 2/2>  \x1b[K\r\n",
        format!("\x1b[48;5;236m\x1b[1m\x1b[32m> alpha{}\x1b[K\x1b[0m\r\n", " ".repeat(12)),
        format!("  beta{}\x1b[K\x1b[0m\r\n", " ".repeat(13)),
        "\x1b[1;11H\x1b[?25h"
    );
    assert_eq!(frame, expected);
    assert_eq!(st.scroll, 0);
    assert!(ds.col_widths.is_none());
}

#[test]
fn selection_is_scrolled_into_view() {
    let items: Vec<String> = (0..10).map(|i| format!("item{i}")).collect();
    let matches: Vec<MatchResult> = (0..10).map(|i| MatchResult { index: i, score: 0, positions: vec![] }).collect();
    let mut st = state("");
    st.sel = 7;
    let mut ds = DrawState::new();
    let frame = st.draw_frame(&mut ds, &items, &matches, "", true, 30, 5, 2, &None);
    assert_eq!(st.scroll, 5);
    assert!(frame.contains("item5"));
    assert!(frame.contains("item7"));
    assert!(!frame.contains("item4"));
    assert!(frame.starts_with("\x1b[3;1H"));
}

#[test]
fn tricks_frame_keeps_column_widths() {
    let entry = TrickEntry {
        tags: "git".into(),
        comment: "Show log".into(),
        snippet_preview: "git log".into(),
        snippet_full: "git log\n--oneline".into(),
        detail: Some("Recent commits".into()),
        usage_count: 0,
        file: None,
        source_line: None,
    };
    let tricks = Some(TricksDisplay { entries: vec![entry], preview_height: 3 });
    let items: Vec<String> = vec!["git Show log".into()];
    let matches = vec![MatchResult { index: 0, score: 0, positions: vec![] }];
    let mut st = state("");
    let mut ds = DrawState::new();
    assert!(st.frame_defined(10, 0, &tricks));
    let frame = st.draw_frame(&mut ds, &items, &matches, "", true, 40, 10, 0, &tricks);
    assert_eq!(ds.col_widths, Some((5, 17, 12)));
    assert_eq!(ds.col_widths_match_count, 1);
    assert_eq!(ds.col_widths_cols, 40);
    assert!(frame.contains(&"\u{2500}".repeat(40)));
    assert!(frame.contains("Recent commits"));
    assert!(frame.contains("git log"));
    assert!(!frame.contains("--oneline"));
}

#[test]
fn frame_without_matches_or_list_rows() {
    let tricks = Some(TricksDisplay { entries: vec![], preview_height: 7 });
    let items: Vec<String> = Vec::new();
    let matches: Vec<MatchResult> = Vec::new();
    let mut st = state("");
    let mut ds = DrawState::new();
    assert!(st.frame_defined(3, 0, &tricks));
    let frame = st.draw_frame(&mut ds, &items, &matches, "", true, 20, 3, 0, &tricks);
    assert!(frame.starts_with("\x1b[1;1H"));
    assert_eq!(st.scroll, 1);
}

#[test]
fn ascii_padding_is_exactly_the_width() {
    for w in 1..12 {
        assert_eq!(truncate_pad("hello world", w).len(), w);
        assert_eq!(truncate_pad("", w).len(), w);
    }
}

#[test]
fn truncate_pad_wide_and_accented_text_fills_width() {
    let r = truncate_pad("日本語テキスト", 6);
    assert_eq!(r, "日本. ");
    assert_eq!(r.width(), 6);
    let r = truncate_pad("café", 6);
    assert_eq!(r, "café  ");
    assert_eq!(r.width(), 6);
    let r = truncate_pad("日本", 4);
    assert_eq!(r, "日本");
}
