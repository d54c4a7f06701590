//! The fuzzy picker's logic: window height, key decoding, the editing and
//! selection state machine and the rendering of a frame.
//!
//! Terminal access (raw mode, polling, reading keys, writing frames) and
//! the background matcher thread are the caller's; every decision the
//! picker makes is taken here.

use vstd::prelude::*;
use vstd::utf8::{decode_utf8, valid_utf8};
use crate::matcher::{fuzzy_match, matches_view, MatchResult, Scheme, PatternView, ranked, strings_view, is_upper};
use crate::parser::{parse_uint, parse_uint_exec};
use crate::text::{chars_of, concat, eq_ignore_ascii_case, eq_ignore_ascii_case_exec, slice_of, string_of, trim, trim_chars, trim_end, trim_end_with, trim_end_by, in_class, CharClass};

verus! {

// ---------------------------------------------------------------------------
// Window height.
// ---------------------------------------------------------------------------

/// Height specification for the picker.
#[derive(Debug, Clone, Copy, PartialEq, Eq, Structural)]
pub enum Height {
    Full,
    Percent(u16),
    Rows(u16),
}

pub open spec fn max_int(a: int, b: int) -> int {
    if a >= b {
        a
    } else {
        b
    }
}

pub open spec fn min_int(a: int, b: int) -> int {
    if a <= b {
        a
    } else {
        b
    }
}

impl Height {
    /// The number of rows the picker draws on a terminal of `term_rows`
    /// rows: all of them, or a percentage or a count of them, but never
    /// fewer than three except in full-screen mode.
    pub open spec fn rows_for(self, term_rows: int) -> int {
        match self {
            Height::Full => term_rows,
            Height::Percent(p) => max_int(term_rows * p / 100, 3),
            Height::Rows(r) => max_int(min_int(r as int, term_rows), 3),
        }
    }

    pub fn resolve(&self, term_rows: usize) -> (r: usize)
        requires
            *self matches Height::Percent(p) ==> term_rows * p <= usize::MAX,
        ensures
            r == self.rows_for(term_rows as int),
    {
        match self {
            Height::Full => term_rows,
            Height::Percent(p) => {
                let rows = term_rows * (*p as usize) / 100;
                if rows >= 3 {
                    rows
                } else {
                    3
                }
            },
            Height::Rows(r) => {
                let m = if (*r as usize) <= term_rows {
                    *r as usize
                } else {
                    term_rows
                };
                if m >= 3 {
                    m
                } else {
                    3
                }
            },
        }
    }

    pub fn is_full(&self) -> (r: bool)
        ensures
            r == (*self is Full),
    {
        match self {
            Height::Full => true,
            _ => false,
        }
    }
}

/// What `parse_height` reads: `full` (any case) or nothing is full screen;
/// `N%` a percentage clamped to 1..=100; a row count `N` is at least 3;
/// anything else is full screen.
pub open spec fn height_of(s: Seq<char>) -> Height {
    let t = trim(s);
    if eq_ignore_ascii_case(t, seq!['f', 'u', 'l', 'l']) || t.len() == 0 {
        Height::Full
    } else if t.last() == '%' && parse_uint(trim(t.drop_last()), 65535) is Some {
        let n = parse_uint(trim(t.drop_last()), 65535)->0;
        Height::Percent(max_int(min_int(n, 100), 1) as u16)
    } else if parse_uint(t, 65535) is Some {
        Height::Rows(max_int(parse_uint(t, 65535)->0, 3) as u16)
    } else {
        Height::Full
    }
}

pub proof fn lemma_parse_uint_range(s: Seq<char>, max: int)
    ensures
        parse_uint(s, max) matches Some(n) ==> 0 <= n <= max,
{
    let d = crate::parser::unsigned_digits(s);
    if d.len() > 0 && crate::parser::all_digits(d) {
        crate::parser::lemma_digits_value_nonneg(d);
    }
}

pub proof fn lemma_height_of_ranges(s: Seq<char>)
    ensures
        height_of(s) matches Height::Percent(p) ==> 1 <= p <= 100,
        height_of(s) matches Height::Rows(r) ==> r >= 3,
{
    let t = trim(s);
    lemma_parse_uint_range(trim(t.drop_last()), 65535);
    lemma_parse_uint_range(t, 65535);
}

/// Reads a height setting: `full`, `N%` or a row count.
pub fn parse_height(s: &str) -> (h: Height)
    ensures
        h == height_of(s@),
{
    let v = chars_of(s);
    let t = trim_chars(&v);
    let full: Vec<char> = vec!['f', 'u', 'l', 'l'];
    assert(full@ == seq!['f', 'u', 'l', 'l']);
    if eq_ignore_ascii_case_exec(&t, &full) || t.len() == 0 {
        return Height::Full;
    }
    if t[t.len() - 1] == '%' {
        let pct = slice_of(&t, 0, t.len() - 1);
        assert(pct@ == t@.drop_last());
        let pt = trim_chars(&pct);
        match parse_uint_exec(&pt, 65535) {
            Some(n) => {
                let c = if n > 100 {
                    100
                } else if n < 1 {
                    1
                } else {
                    n
                };
                return Height::Percent(c as u16);
            },
            None => {},
        }
    }
    match parse_uint_exec(&t, 65535) {
        Some(n) => {
            let c = if n < 3 {
                3
            } else {
                n
            };
            Height::Rows(c as u16)
        },
        None => Height::Full,
    }
}

// ---------------------------------------------------------------------------
// Public types.
// ---------------------------------------------------------------------------

/// Source of items for the picker.
pub enum ItemSource {
    /// All items known upfront.
    Static(Vec<String>),
}

/// A trick entry with display columns and metadata.
#[derive(Clone)]
pub struct TrickEntry {
    pub tags: String,
    pub comment: String,
    pub snippet_preview: String,
    pub snippet_full: String,
    pub detail: Option<String>,
    pub usage_count: u64,
    /// Source file for editing.
    pub file: Option<String>,
    pub source_line: Option<usize>,
}

/// Extra display info for tricks mode.
pub struct TricksDisplay {
    pub entries: Vec<TrickEntry>,
    pub preview_height: usize,
}

/// Display configuration for the picker.
pub struct PickerConfig {
    pub prompt: String,
    pub scheme: Scheme,
    pub height: Height,
    /// Pre-fill the search query.
    pub initial_query: Option<String>,
    /// Enable Ctrl-E to return an edit result. When false, Ctrl-E is
    /// end-of-line.
    pub edit_enabled: bool,
    /// Tricks mode: multi-column display with preview pane.
    pub tricks: Option<TricksDisplay>,
}

/// What the picker returned.
pub enum PickResult {
    /// The user selected an item: its index and its text.
    Selected(usize, String),
    Cancelled,
    /// The user pressed the edit key: the item's index and the query.
    Edit { index: usize, query: String },
}

/// Non-interactive best match: the index of the best-ranked item, if any
/// item matches.
pub fn best_match(items: &Vec<String>, query: &str, scheme: Scheme) -> (r: Option<usize>)
    ensures
        exists|ms: Seq<MatchResult>|
            {
                &&& ranked(
                    PatternView {
                        query: query@,
                        respect_case: query@.len() > 0 && exists|i: int|
                            0 <= i < query@.len() && is_upper(#[trigger] query@[i]),
                        empty: query@.len() == 0,
                    },
                    strings_view(items@),
                    matches_view(ms),
                )
                &&& r == (if ms.len() > 0 {
                    Some(ms[0].index)
                } else {
                    None::<usize>
                })
            },
{
    let results = fuzzy_match(query, items, scheme);
    let r = if results.len() > 0 {
        Some(results[0].index)
    } else {
        None
    };
    assert(matches_view(results@).len() == results@.len());
    r
}

// ---------------------------------------------------------------------------
// Keys.
// ---------------------------------------------------------------------------

/// A key press, decoded from the bytes one read from the terminal gave.
#[derive(Debug, Clone, PartialEq, Eq)]
pub enum Key {
    Enter,
    Escape,
    Interrupt,
    /// Ctrl-E: edit, or end of line.
    EditOrEnd,
    ClearQuery,
    LineStart,
    DeleteWord,
    KillToEnd,
    Backspace,
    Up,
    Down,
    Left,
    Right,
    Home,
    End,
    Delete,
    PageUp,
    PageDown,
    /// Printable text to insert.
    Text(Vec<char>),
    /// Anything else: ignored.
    Other,
}

/// `char::is_control`: the general category `Cc`.
pub open spec fn is_control(c: char) -> bool {
    (c as u32) < 0x20 || (0x7f <= (c as u32) && (c as u32) < 0xa0)
}

/// The key that the bytes of one read stand for.
pub open spec fn key_of(b: Seq<u8>) -> Key {
    if b == seq![0x0du8] || b == seq![0x0au8] {
        Key::Enter
    } else if b == seq![0x1bu8] {
        Key::Escape
    } else if b == seq![0x03u8] {
        Key::Interrupt
    } else if b == seq![0x05u8] {
        Key::EditOrEnd
    } else if b == seq![0x15u8] {
        Key::ClearQuery
    } else if b == seq![0x01u8] {
        Key::LineStart
    } else if b == seq![0x17u8] {
        Key::DeleteWord
    } else if b == seq![0x0bu8] {
        Key::KillToEnd
    } else if b == seq![0x7fu8] || b == seq![0x08u8] {
        Key::Backspace
    } else if b == seq![0x1bu8, 0x5bu8, 0x41u8] || b == seq![0x1bu8, 0x4fu8, 0x41u8] || b == seq![0x10u8] {
        Key::Up
    } else if b == seq![0x1bu8, 0x5bu8, 0x42u8] || b == seq![0x1bu8, 0x4fu8, 0x42u8] || b == seq![0x0eu8] {
        Key::Down
    } else if b == seq![0x1bu8, 0x5bu8, 0x44u8] || b == seq![0x1bu8, 0x4fu8, 0x44u8] || b == seq![0x02u8] {
        Key::Left
    } else if b == seq![0x1bu8, 0x5bu8, 0x43u8] || b == seq![0x1bu8, 0x4fu8, 0x43u8] || b == seq![0x06u8] {
        Key::Right
    } else if b == seq![0x1bu8, 0x5bu8, 0x48u8] || b == seq![0x1bu8, 0x4fu8, 0x48u8] || b == seq![0x1bu8, 0x5bu8, 0x31u8, 0x7eu8] {
        Key::Home
    } else if b == seq![0x1bu8, 0x5bu8, 0x46u8] || b == seq![0x1bu8, 0x4fu8, 0x46u8] || b == seq![0x1bu8, 0x5bu8, 0x34u8, 0x7eu8] {
        Key::End
    } else if b == seq![0x1bu8, 0x5bu8, 0x33u8, 0x7eu8] {
        Key::Delete
    } else if b == seq![0x1bu8, 0x5bu8, 0x35u8, 0x7eu8] {
        Key::PageUp
    } else if b == seq![0x1bu8, 0x5bu8, 0x36u8, 0x7eu8] {
        Key::PageDown
    } else {
        Key::Other
    }
}

/// Whether the bytes decode to printable text (valid UTF-8 without
/// control characters).
pub open spec fn printable(b: Seq<u8>) -> bool {
    valid_utf8(b) && forall|i: int| 0 <= i < decode_utf8(b).len() ==> !is_control(#[trigger] decode_utf8(b)[i])
}

/// Calls `std::str::from_utf8`, which succeeds exactly on valid UTF-8,
/// and returns the decoded characters.
#[verifier::external_body]
fn utf8_chars(bytes: &Vec<u8>) -> (r: Option<Vec<char>>)
    ensures
        r is Some <==> valid_utf8(bytes@),
        r matches Some(v) ==> v@ == decode_utf8(bytes@),
{
    match std::str::from_utf8(bytes.as_slice()) {
        Ok(s) => Some(s.chars().collect()),
        Err(_) => None,
    }
}

fn is1(b: &Vec<u8>, x: u8) -> (r: bool)
    ensures
        r == (b@ == seq![x]),
{
    let r = b.len() == 1 && b[0] == x;
    proof {
        if b@.len() == 1 && b@[0] == x {
            assert(b@ =~= seq![x]);
        }
    }
    r
}

fn is3(b: &Vec<u8>, x: u8, y: u8, z: u8) -> (r: bool)
    ensures
        r == (b@ == seq![x, y, z]),
{
    let r = b.len() == 3 && b[0] == x && b[1] == y && b[2] == z;
    proof {
        if r {
            assert(b@ =~= seq![x, y, z]);
        }
    }
    r
}

fn is4(b: &Vec<u8>, x: u8, y: u8, z: u8, w: u8) -> (r: bool)
    ensures
        r == (b@ == seq![x, y, z, w]),
{
    let r = b.len() == 4 && b[0] == x && b[1] == y && b[2] == z && b[3] == w;
    proof {
        if r {
            assert(b@ =~= seq![x, y, z, w]);
        }
    }
    r
}

/// Decodes the bytes of one read from the terminal into a key.
pub fn decode_key(b: &Vec<u8>) -> (k: Key)
    ensures
        key_of(b@) is Other ==> (if printable(b@) {
            k matches Key::Text(t) && t@ == decode_utf8(b@)
        } else {
            k == Key::Other
        }),
        !(key_of(b@) is Other) ==> k == key_of(b@),
{
    let k = if is1(b, 0x0du8) || is1(b, 0x0au8) {
        Key::Enter
    } else if is1(b, 0x1bu8) {
        Key::Escape
    } else if is1(b, 0x03u8) {
        Key::Interrupt
    } else if is1(b, 0x05u8) {
        Key::EditOrEnd
    } else if is1(b, 0x15u8) {
        Key::ClearQuery
    } else if is1(b, 0x01u8) {
        Key::LineStart
    } else if is1(b, 0x17u8) {
        Key::DeleteWord
    } else if is1(b, 0x0bu8) {
        Key::KillToEnd
    } else if is1(b, 0x7fu8) || is1(b, 0x08u8) {
        Key::Backspace
    } else if is3(b, 0x1bu8, 0x5bu8, 0x41u8) || is3(b, 0x1bu8, 0x4fu8, 0x41u8) || is1(b, 0x10u8) {
        Key::Up
    } else if is3(b, 0x1bu8, 0x5bu8, 0x42u8) || is3(b, 0x1bu8, 0x4fu8, 0x42u8) || is1(b, 0x0eu8) {
        Key::Down
    } else if is3(b, 0x1bu8, 0x5bu8, 0x44u8) || is3(b, 0x1bu8, 0x4fu8, 0x44u8) || is1(b, 0x02u8) {
        Key::Left
    } else if is3(b, 0x1bu8, 0x5bu8, 0x43u8) || is3(b, 0x1bu8, 0x4fu8, 0x43u8) || is1(b, 0x06u8) {
        Key::Right
    } else if is3(b, 0x1bu8, 0x5bu8, 0x48u8) || is3(b, 0x1bu8, 0x4fu8, 0x48u8) || is4(b, 0x1bu8, 0x5bu8, 0x31u8, 0x7eu8) {
        Key::Home
    } else if is3(b, 0x1bu8, 0x5bu8, 0x46u8) || is3(b, 0x1bu8, 0x4fu8, 0x46u8) || is4(b, 0x1bu8, 0x5bu8, 0x34u8, 0x7eu8) {
        Key::End
    } else if is4(b, 0x1bu8, 0x5bu8, 0x33u8, 0x7eu8) {
        Key::Delete
    } else if is4(b, 0x1bu8, 0x5bu8, 0x35u8, 0x7eu8) {
        Key::PageUp
    } else if is4(b, 0x1bu8, 0x5bu8, 0x36u8, 0x7eu8) {
        Key::PageDown
    } else {
        Key::Other
    };
    assert(k == key_of(b@));
    match k {
        Key::Other => {},
        _ => {
            return k;
        },
    }
    match utf8_chars(b) {
        Some(cs) => {
            let mut k2: usize = 0;
            while k2 < cs.len()
                invariant
                    k2 <= cs.len(),
                    cs@ == decode_utf8(b@),
                    key_of(b@) is Other,
                    forall|j: int| 0 <= j < k2 ==> !is_control(#[trigger] cs@[j]),
                decreases cs.len() - k2,
            {
                let x = cs[k2] as u32;
                if x < 0x20 || (0x7f <= x && x < 0xa0) {
                    assert(is_control(cs@[k2 as int]));
                    return Key::Other;
                }
                k2 = k2 + 1;
            }
            Key::Text(cs)
        },
        None => Key::Other,
    }
}

// ---------------------------------------------------------------------------
// The editing and selection state.
// ---------------------------------------------------------------------------

/// The query being edited, the cursor in it (in characters), the selected
/// row among the matches and the first match shown.
pub struct PickerState {
    pub query: Vec<char>,
    pub qpos: usize,
    pub sel: usize,
    pub scroll: usize,
}

pub struct StateView {
    pub query: Seq<char>,
    pub qpos: int,
    pub sel: int,
    pub scroll: int,
}

impl View for PickerState {
    type V = StateView;

    open spec fn view(&self) -> StateView {
        StateView { query: self.query@, qpos: self.qpos as int, sel: self.sel as int, scroll: self.scroll as int }
    }
}

impl StateView {
    /// The cursor stands inside the query or right after it.
    pub open spec fn wf(self) -> bool {
        0 <= self.qpos <= self.query.len() && 0 <= self.sel && 0 <= self.scroll
    }
}

/// What a key press asks of the caller.
#[derive(Debug, Clone, Copy, PartialEq, Eq, Structural)]
pub enum KeyOutcome {
    /// Nothing to do but draw again.
    Continue,
    /// The query changed: match it again.
    QueryChanged,
    /// Accept the match at this position in the match list.
    Select(usize),
    Cancel,
    /// Edit the item of the match at this position in the match list.
    Edit(usize),
}

/// The number of UTF-8 bytes of one character.
pub open spec fn utf8_width(c: char) -> int {
    if (c as u32) < 0x80 {
        1
    } else if (c as u32) < 0x800 {
        2
    } else if (c as u32) < 0x10000 {
        3
    } else {
        4
    }
}

/// The number of UTF-8 bytes of a character sequence.
pub open spec fn utf8_len(s: Seq<char>) -> int
    decreases s.len(),
{
    if s.len() == 0 {
        0
    } else {
        utf8_len(s.drop_last()) + utf8_width(s.last())
    }
}

/// The position of the last space in `t`.
pub open spec fn last_space(t: Seq<char>) -> Option<int>
    decreases t.len(),
{
    if t.len() == 0 {
        None
    } else if t.last() == ' ' {
        Some(t.len() - 1)
    } else {
        last_space(t.drop_last())
    }
}

/// Where Ctrl-W cuts the query: right after the last space of the text
/// before the cursor with its trailing white space removed, or at 0 when
/// there is no space; the word before the cursor (and the white space after
/// it) is deleted.
pub open spec fn word_cut(q: Seq<char>, qpos: int) -> int {
    let t = trim_end(q.take(qpos));
    match last_space(t) {
        Some(i) => i + 1,
        None => 0,
    }
}

/// The state after the query became `q` with the cursor at `qpos`: the
/// selection and the scroll go back to the top.
pub open spec fn edited(st: StateView, q: Seq<char>, qpos: int) -> StateView {
    StateView { query: q, qpos: qpos, sel: 0, scroll: 0 }
}

pub open spec fn with_qpos(st: StateView, qpos: int) -> StateView {
    StateView { qpos: qpos, ..st }
}

pub open spec fn with_sel(st: StateView, sel: int) -> StateView {
    StateView { sel: sel, ..st }
}

/// What a key press does to the state, with `n` matches listed, a window
/// of `draw_rows` rows and the edit key enabled or not.
pub open spec fn step(st: StateView, k: Key, n: int, draw_rows: int, edit: bool) -> (StateView, KeyOutcome) {
    let q = st.query;
    let len = q.len() as int;
    let page = sat_sub_int(draw_rows, 2);
    match k {
        Key::Enter => if st.sel < n {
            (st, KeyOutcome::Select(st.sel as usize))
        } else {
            (st, KeyOutcome::Continue)
        },
        Key::Escape => (st, KeyOutcome::Cancel),
        Key::Interrupt => (st, KeyOutcome::Cancel),
        Key::EditOrEnd => if edit {
            if st.sel < n {
                (st, KeyOutcome::Edit(st.sel as usize))
            } else {
                (st, KeyOutcome::Continue)
            }
        } else {
            (with_qpos(st, len), KeyOutcome::Continue)
        },
        Key::ClearQuery => (edited(st, Seq::empty(), 0), KeyOutcome::QueryChanged),
        Key::LineStart => (with_qpos(st, 0), KeyOutcome::Continue),
        Key::DeleteWord => if st.qpos > 0 {
            let cut = word_cut(q, st.qpos);
            (edited(st, q.take(cut) + q.skip(st.qpos), cut), KeyOutcome::QueryChanged)
        } else {
            (st, KeyOutcome::Continue)
        },
        Key::KillToEnd => (edited(st, q.take(st.qpos), st.qpos), KeyOutcome::QueryChanged),
        Key::Backspace => if st.qpos > 0 {
            (edited(st, q.take(st.qpos - 1) + q.skip(st.qpos), st.qpos - 1), KeyOutcome::QueryChanged)
        } else {
            (st, KeyOutcome::Continue)
        },
        Key::Up => (with_sel(st, sat_sub_int(st.sel, 1)), KeyOutcome::Continue),
        Key::Down => if n > 0 && st.sel < n - 1 {
            (with_sel(st, st.sel + 1), KeyOutcome::Continue)
        } else {
            (st, KeyOutcome::Continue)
        },
        Key::Left => (with_qpos(st, sat_sub_int(st.qpos, 1)), KeyOutcome::Continue),
        Key::Right => if st.qpos < len {
            (with_qpos(st, st.qpos + 1), KeyOutcome::Continue)
        } else {
            (st, KeyOutcome::Continue)
        },
        Key::Home => (with_qpos(st, 0), KeyOutcome::Continue),
        Key::End => (with_qpos(st, len), KeyOutcome::Continue),
        Key::Delete => if st.qpos < len {
            (edited(st, q.take(st.qpos) + q.skip(st.qpos + 1), st.qpos), KeyOutcome::QueryChanged)
        } else {
            (st, KeyOutcome::Continue)
        },
        Key::PageUp => (with_sel(st, sat_sub_int(st.sel, page)), KeyOutcome::Continue),
        Key::PageDown => if n > 0 {
            (with_sel(st, min_int(st.sel + page, n - 1)), KeyOutcome::Continue)
        } else {
            (st, KeyOutcome::Continue)
        },
        Key::Text(t) => (
            edited(st, q.take(st.qpos) + t@ + q.skip(st.qpos), st.qpos + t@.len()),
            KeyOutcome::QueryChanged,
        ),
        Key::Other => (st, KeyOutcome::Continue),
    }
}

pub open spec fn sat_sub_int(a: int, b: int) -> int {
    if a > b {
        a - b
    } else {
        0
    }
}

/// What `step` needs to be defined without overflow: paging down and
/// inserting text stay within `usize`.
pub open spec fn step_ok(st: StateView, k: Key, draw_rows: int) -> bool {
    &&& st.wf()
    &&& (k is PageDown ==> st.sel + draw_rows <= usize::MAX)
    &&& (k matches Key::Text(t) ==> st.query.len() + t@.len() <= usize::MAX)
}

/// The state at the top of each round: the selection within the matches
/// (or 0 when there is none) and the first shown row not below it.
pub open spec fn clamped(st: StateView, n: int) -> StateView {
    let sel = if n == 0 {
        0
    } else if st.sel >= n {
        n - 1
    } else {
        st.sel
    };
    let scroll = if sel < st.scroll {
        sel
    } else {
        st.scroll
    };
    StateView { sel: sel, scroll: scroll, ..st }
}

proof fn lemma_last_space_range(t: Seq<char>)
    ensures
        last_space(t) matches Some(i) ==> 0 <= i < t.len() && t[i] == ' ',
    decreases t.len(),
{
    if t.len() > 0 && t.last() != ' ' {
        lemma_last_space_range(t.drop_last());
    }
}

pub proof fn lemma_utf8_len_nonneg(t: Seq<char>)
    ensures
        utf8_len(t) >= 0,
    decreases t.len(),
{
    if t.len() > 0 {
        lemma_utf8_len_nonneg(t.drop_last());
    }
}

proof fn lemma_trim_end_len(s: Seq<char>, m: CharClass)
    ensures
        trim_end_by(s, m).len() <= s.len(),
    decreases s.len(),
{
    if s.len() > 0 && in_class(s.last(), m) {
        lemma_trim_end_len(s.drop_last(), m);
    }
}

/// Ctrl-W cuts within the text before the cursor.
pub proof fn lemma_word_cut_range(q: Seq<char>, qpos: int)
    requires
        0 <= qpos <= q.len(),
    ensures
        0 <= word_cut(q, qpos) <= qpos,
{
    let t = trim_end(q.take(qpos));
    lemma_last_space_range(t);
    lemma_trim_end_len(q.take(qpos), CharClass::WhiteSpace);
}

/// Where Ctrl-W cuts the query (see `word_cut`).
pub fn word_cut_exec(query: &Vec<char>, qpos: usize) -> (r: usize)
    requires
        qpos <= query.len(),
    ensures
        r == word_cut(query@, qpos as int),
        r <= qpos,
{
    let left = slice_of(query, 0, qpos);
    assert(left@ == query@.take(qpos as int));
    let t = trim_end_with(&left, CharClass::WhiteSpace);
    let ghost tv = t@;
    assert(tv == trim_end(query@.take(qpos as int)));
    proof {
        lemma_word_cut_range(query@, qpos as int);
    }
    let mut found: Option<usize> = None;
    let mut j: usize = 0;
    while j < t.len()
        invariant
            j <= t.len(),
            tv == t@,
            found matches Some(f) ==> last_space(tv.take(j as int)) == Some(f as int),
            found is None ==> last_space(tv.take(j as int)) is None,
        decreases t.len() - j,
    {
        assert(tv.take(j + 1).drop_last() =~= tv.take(j as int));
        if t[j] == ' ' {
            found = Some(j);
        }
        j = j + 1;
    }
    assert(tv.take(j as int) =~= tv);
    proof {
        lemma_last_space_range(tv);
        lemma_trim_end_len(query@.take(qpos as int), CharClass::WhiteSpace);
    }
    match found {
        None => 0,
        Some(i) => i + 1,
    }
}

impl PickerState {
    /// The state the picker starts in: the initial query with the cursor at
    /// its end, the first match selected.
    pub fn new(initial_query: &Option<String>) -> (r: PickerState)
        ensures
            r@ == (StateView {
                query: match initial_query {
                    Some(q) => q@,
                    None => Seq::<char>::empty(),
                },
                qpos: match initial_query {
                    Some(q) => q@.len() as int,
                    None => 0,
                },
                sel: 0,
                scroll: 0,
            }),
            r@.wf(),
    {
        let query = match initial_query {
            Some(q) => chars_of(q.as_str()),
            None => Vec::new(),
        };
        let qpos = query.len();
        PickerState { query, qpos, sel: 0, scroll: 0 }
    }

    /// Brings the selection within the `n` matches and the first shown
    /// row not below it.
    pub fn clamp(&mut self, n: usize)
        ensures
            final(self)@ == clamped(old(self)@, n as int),
    {
        if n == 0 {
            self.sel = 0;
        } else if self.sel >= n {
            self.sel = n - 1;
        }
        if self.sel < self.scroll {
            self.scroll = self.sel;
        }
    }

    /// Applies one key press, with `n` matches listed, a window of
    /// `draw_rows` rows and the edit key enabled or not.
    pub fn apply_key(&mut self, key: &Key, n: usize, draw_rows: usize, edit_enabled: bool) -> (o:
        KeyOutcome)
        requires
            step_ok(old(self)@, *key, draw_rows as int),
        ensures
            (final(self)@, o) == step(old(self)@, *key, n as int, draw_rows as int, edit_enabled),
            final(self)@.wf(),
    {
        let len = self.query.len();
        let page = draw_rows.saturating_sub(2);
        match key {
            Key::Enter => {
                if self.sel < n {
                    KeyOutcome::Select(self.sel)
                } else {
                    KeyOutcome::Continue
                }
            },
            Key::Escape => KeyOutcome::Cancel,
            Key::Interrupt => KeyOutcome::Cancel,
            Key::EditOrEnd => {
                if edit_enabled {
                    if self.sel < n {
                        KeyOutcome::Edit(self.sel)
                    } else {
                        KeyOutcome::Continue
                    }
                } else {
                    self.qpos = len;
                    KeyOutcome::Continue
                }
            },
            Key::ClearQuery => {
                self.query = Vec::new();
                assert(self.query@ =~= Seq::<char>::empty());
                self.qpos = 0;
                self.sel = 0;
                self.scroll = 0;
                KeyOutcome::QueryChanged
            },
            Key::LineStart => {
                self.qpos = 0;
                KeyOutcome::Continue
            },
            Key::DeleteWord => {
                if self.qpos > 0 {
                    let cut = word_cut_exec(&self.query, self.qpos);
                    let a = slice_of(&self.query, 0, cut);
                    let b = slice_of(&self.query, self.qpos, len);
                    assert(a@ =~= old(self)@.query.take(cut as int));
                    assert(b@ =~= old(self)@.query.skip(old(self)@.qpos));
                    self.query = concat(&a, &b);
                    self.qpos = cut;
                    self.sel = 0;
                    self.scroll = 0;
                    KeyOutcome::QueryChanged
                } else {
                    KeyOutcome::Continue
                }
            },
            Key::KillToEnd => {
                self.query.truncate(self.qpos);
                assert(self.query@ =~= old(self)@.query.take(self.qpos as int));
                self.sel = 0;
                self.scroll = 0;
                KeyOutcome::QueryChanged
            },
            Key::Backspace => {
                if self.qpos > 0 {
                    self.qpos = self.qpos - 1;
                    self.query.remove(self.qpos);
                    assert(self.query@ =~= old(self)@.query.take(self.qpos as int) + old(self)@.query.skip(self.qpos + 1));
                    self.sel = 0;
                    self.scroll = 0;
                    KeyOutcome::QueryChanged
                } else {
                    KeyOutcome::Continue
                }
            },
            Key::Up => {
                self.sel = self.sel.saturating_sub(1);
                KeyOutcome::Continue
            },
            Key::Down => {
                if n > 0 && self.sel < n - 1 {
                    self.sel = self.sel + 1;
                }
                KeyOutcome::Continue
            },
            Key::Left => {
                self.qpos = self.qpos.saturating_sub(1);
                KeyOutcome::Continue
            },
            Key::Right => {
                if self.qpos < len {
                    self.qpos = self.qpos + 1;
                }
                KeyOutcome::Continue
            },
            Key::Home => {
                self.qpos = 0;
                KeyOutcome::Continue
            },
            Key::End => {
                self.qpos = len;
                KeyOutcome::Continue
            },
            Key::Delete => {
                if self.qpos < len {
                    self.query.remove(self.qpos);
                    assert(self.query@ =~= old(self)@.query.take(self.qpos as int) + old(self)@.query.skip(self.qpos + 1));
                    self.sel = 0;
                    self.scroll = 0;
                    KeyOutcome::QueryChanged
                } else {
                    KeyOutcome::Continue
                }
            },
            Key::PageUp => {
                self.sel = self.sel.saturating_sub(page);
                KeyOutcome::Continue
            },
            Key::PageDown => {
                if n > 0 {
                    let s = self.sel + page;
                    self.sel = if s < n - 1 {
                        s
                    } else {
                        n - 1
                    };
                }
                KeyOutcome::Continue
            },
            Key::Text(t) => {
                let a = slice_of(&self.query, 0, self.qpos);
                let b = slice_of(&self.query, self.qpos, len);
                let at = concat(&a, t);
                assert(b@ =~= old(self)@.query.skip(old(self)@.qpos));
                self.query = concat(&at, &b);
                self.qpos = self.qpos + t.len();
                self.sel = 0;
                self.scroll = 0;
                KeyOutcome::QueryChanged
            },
            Key::Other => KeyOutcome::Continue,
        }
    }
}

/// The picker's answer for a key outcome that ends the session: the
/// selected item (its index and text, empty when the index is out of the
/// item list), cancellation, or an edit request with the current query.
pub open spec fn finish_spec(o: KeyOutcome, ms: Seq<MatchResult>, items: Seq<String>, query: Seq<char>) -> Option<(int, Option<(usize, Seq<char>)>)> {
    match o {
        KeyOutcome::Select(i) => if i < ms.len() {
            let idx = ms[i as int].index;
            Some((0, Some((idx, if idx < items.len() { items[idx as int]@ } else { Seq::empty() }))))
        } else {
            None
        },
        KeyOutcome::Cancel => Some((1, None)),
        KeyOutcome::Edit(i) => if i < ms.len() {
            Some((2, Some((ms[i as int].index, query))))
        } else {
            None
        },
        _ => None,
    }
}

/// The result a key outcome ends the session with, if it ends it.
pub fn finish(o: KeyOutcome, matches: &Vec<MatchResult>, items: &Vec<String>, query: &Vec<char>) -> (r:
    Option<PickResult>)
    ensures
        match r {
            None => finish_spec(o, matches@, items@, query@) is None,
            Some(PickResult::Selected(i, s)) => finish_spec(o, matches@, items@, query@) == Some((0int, Some((i, s@)))),
            Some(PickResult::Cancelled) => finish_spec(o, matches@, items@, query@) == Some((1int, None::<(usize, Seq<char>)>)),
            Some(PickResult::Edit { index, query: q }) => finish_spec(o, matches@, items@, query@) == Some((2int, Some((index, q@)))),
        },
{
    match o {
        KeyOutcome::Select(i) => {
            if i < matches.len() {
                let idx = matches[i].index;
                let text = if idx < items.len() {
                    items[idx].clone()
                } else {
                    String::new()
                };
                Some(PickResult::Selected(idx, text))
            } else {
                None
            }
        },
        KeyOutcome::Cancel => Some(PickResult::Cancelled),
        KeyOutcome::Edit(i) => {
            if i < matches.len() {
                Some(PickResult::Edit { index: matches[i].index, query: string_of(query) })
            } else {
                None
            }
        },
        _ => None,
    }
}

} // verus!
