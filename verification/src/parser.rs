//! The trick-file grammar: headings, prose, code fences, variable lines,
//! front matter, and the line-by-line parser that turns a file into items
//! and variable suggestions.

use vstd::prelude::*;
use crate::item::{
    items_view, lemma_items_view_push, line_separator, line_separator_chars, suggestion_view, Item, ItemView,
    OptsView, SuggestionOpts, VarMapView, VariableMap,
};
use crate::text::{
    chars_of, contains_char, ends_with_char, eq_exec, extend, leading_end, lemma_view_all_push, push_chars, find_exec, find_from, join, join_exec, occurs_at,
    occurs_at_exec, slice_of, split_char, split_char_exec, starts_with, starts_with_exec,
    string_of, trim, trim_by, trim_chars, trim_end_by, trim_start_by, trim_with, trim_end_with,
    trim_start_with, view_all, CharClass,
};

verus! {

// ---------------------------------------------------------------------------
// Inline Markdown formatting.
// ---------------------------------------------------------------------------

/// The first `j >= i` such that the closing delimiter `d` occurs at `j`,
/// where the content `t[i - 1..j]` holds no newline (a lazy `.+?`).
pub open spec fn md_close(t: Seq<char>, i: int, d: Seq<char>) -> Option<int>
    decreases t.len() - i,
{
    if i <= 0 || i + d.len() > t.len() || t[i - 1] == '\n' {
        None
    } else if d.len() == 0 || t.subrange(i, i + d.len()) == d {
        Some(i)
    } else {
        md_close(t, i + 1, d)
    }
}

/// A span `d content d` starting at `s`: (content start, content end,
/// span end).
pub open spec fn delim_span(t: Seq<char>, s: int, d: Seq<char>) -> Option<(int, int, int)> {
    if occurs_at(t, d, s) {
        match md_close(t, s + d.len() + 1, d) {
            Some(j) => Some((s + d.len(), j, j + d.len())),
            None => None,
        }
    } else {
        None
    }
}

/// A code span `` `content` `` starting at `s` (content has no backtick).
pub open spec fn tick_span(t: Seq<char>, s: int) -> Option<(int, int, int)> {
    if 0 <= s < t.len() && t[s] == '`' {
        match find_from(t, seq!['`'], s + 1) {
            Some(j) => if j >= s + 2 {
                Some((s + 1, j, j + 1))
            } else {
                None
            },
            None => None,
        }
    } else {
        None
    }
}

/// The formatting span that starts at `s`, trying `***`, `**`, `*`, `___`,
/// `__`, `_`, `~~` and backticks in that order.
pub open spec fn md_span_at(t: Seq<char>, s: int) -> Option<(int, int, int)> {
    if delim_span(t, s, seq!['*', '*', '*']) is Some {
        delim_span(t, s, seq!['*', '*', '*'])
    } else if delim_span(t, s, seq!['*', '*']) is Some {
        delim_span(t, s, seq!['*', '*'])
    } else if delim_span(t, s, seq!['*']) is Some {
        delim_span(t, s, seq!['*'])
    } else if delim_span(t, s, seq!['_', '_', '_']) is Some {
        delim_span(t, s, seq!['_', '_', '_'])
    } else if delim_span(t, s, seq!['_', '_']) is Some {
        delim_span(t, s, seq!['_', '_'])
    } else if delim_span(t, s, seq!['_']) is Some {
        delim_span(t, s, seq!['_'])
    } else if delim_span(t, s, seq!['~', '~']) is Some {
        delim_span(t, s, seq!['~', '~'])
    } else {
        tick_span(t, s)
    }
}

/// `t[s..]` with every formatting span replaced by its content, scanning
/// left to right.
pub open spec fn md_strip_from(t: Seq<char>, s: int) -> Seq<char>
    decreases t.len() - s,
{
    if s < 0 || s >= t.len() {
        Seq::empty()
    } else {
        match md_span_at(t, s) {
            Some((a, b, e)) => if s < e <= t.len() {
                t.subrange(a, b) + md_strip_from(t, e)
            } else {
                Seq::empty()
            },
            None => seq![t[s]] + md_strip_from(t, s + 1),
        }
    }
}

/// Text with Markdown inline formatting removed.
pub open spec fn md_strip(t: Seq<char>) -> Seq<char> {
    md_strip_from(t, 0)
}

fn md_close_exec(t: &Vec<char>, i: usize, d: &Vec<char>) -> (r: Option<usize>)
    requires
        i >= 1,
    ensures
        match r {
            Some(j) => md_close(t@, i as int, d@) == Some(j as int),
            None => md_close(t@, i as int, d@) is None,
        },
{
    let mut k = i;
    while k <= t.len() && d.len() <= t.len() - k && t[k - 1] != '\n'
        invariant
            1 <= i <= k,
            md_close(t@, i as int, d@) == md_close(t@, k as int, d@),
        decreases t.len() + 1 - k,
    {
        if d.len() == 0 || occurs_at_exec(t, d, k) {
            return Some(k);
        }
        k = k + 1;
    }
    None
}

fn delim_span_exec(t: &Vec<char>, s: usize, d: &Vec<char>) -> (r: Option<(usize, usize, usize)>)
    requires
        1 <= d.len() <= 3,
    ensures
        match r {
            Some((a, b, e)) => delim_span(t@, s as int, d@) == Some((a as int, b as int, e as int)),
            None => delim_span(t@, s as int, d@) is None,
        },
{
    let found = occurs_at_exec(t, d, s);
    if !found {
        return None;
    }
    assert(occurs_at(t@, d@, s as int));
    assert(s + d@.len() <= t@.len());
    assert(s + d.len() <= t.len());
    if s + d.len() >= t.len() {
        return None;
    }
    match md_close_exec(t, s + d.len() + 1, d) {
        Some(j) => {
            proof {
                lemma_md_close_bound(t@, (s + d.len() + 1) as int, d@);
            }
            Some((s + d.len(), j, j + d.len()))
        },
        None => None,
    }
}

proof fn lemma_md_close_bound(t: Seq<char>, i: int, d: Seq<char>)
    ensures
        md_close(t, i, d) matches Some(j) ==> i <= j && j + d.len() <= t.len(),
    decreases t.len() - i,
{
    if i <= 0 || i + d.len() > t.len() || t[i - 1] == '\n' {
    } else if d.len() == 0 || t.subrange(i, i + d.len()) == d {
    } else {
        lemma_md_close_bound(t, i + 1, d);
    }
}

proof fn lemma_find_bound(s: Seq<char>, p: Seq<char>, i: int)
    ensures
        find_from(s, p, i) matches Some(j) ==> i <= j && j + p.len() <= s.len(),
    decreases s.len() - i,
{
    if i < 0 || i + p.len() > s.len() {
    } else if p.len() == 0 || s.subrange(i, i + p.len()) == p {
    } else {
        lemma_find_bound(s, p, i + 1);
    }
}

fn tick_span_exec(t: &Vec<char>, s: usize) -> (r: Option<(usize, usize, usize)>)
    ensures
        match r {
            Some((a, b, e)) => tick_span(t@, s as int) == Some((a as int, b as int, e as int)),
            None => tick_span(t@, s as int) is None,
        },
{
    if s < t.len() && t[s] == '`' {
        let tick: Vec<char> = vec!['`'];
        assert(tick@ == seq!['`']);
        match find_exec(t, &tick, s + 1) {
            Some(j) => {
                proof {
                    lemma_find_bound(t@, seq!['`'], (s + 1) as int);
                }
                if j - s >= 2 {
                    Some((s + 1, j, j + 1))
                } else {
                    None
                }
            },
            None => None,
        }
    } else {
        None
    }
}

fn md_span_at_exec(t: &Vec<char>, s: usize) -> (r: Option<(usize, usize, usize)>)
    ensures
        match r {
            Some((a, b, e)) => md_span_at(t@, s as int) == Some((a as int, b as int, e as int)),
            None => md_span_at(t@, s as int) is None,
        },
{
    let d1: Vec<char> = vec!['*', '*', '*'];
    assert(d1@ == seq!['*', '*', '*']);
    let r = delim_span_exec(t, s, &d1);
    if r.is_some() {
        return r;
    }
    let d2: Vec<char> = vec!['*', '*'];
    assert(d2@ == seq!['*', '*']);
    let r = delim_span_exec(t, s, &d2);
    if r.is_some() {
        return r;
    }
    let d3: Vec<char> = vec!['*'];
    assert(d3@ == seq!['*']);
    let r = delim_span_exec(t, s, &d3);
    if r.is_some() {
        return r;
    }
    let d4: Vec<char> = vec!['_', '_', '_'];
    assert(d4@ == seq!['_', '_', '_']);
    let r = delim_span_exec(t, s, &d4);
    if r.is_some() {
        return r;
    }
    let d5: Vec<char> = vec!['_', '_'];
    assert(d5@ == seq!['_', '_']);
    let r = delim_span_exec(t, s, &d5);
    if r.is_some() {
        return r;
    }
    let d6: Vec<char> = vec!['_'];
    assert(d6@ == seq!['_']);
    let r = delim_span_exec(t, s, &d6);
    if r.is_some() {
        return r;
    }
    let d7: Vec<char> = vec!['~', '~'];
    assert(d7@ == seq!['~', '~']);
    let r = delim_span_exec(t, s, &d7);
    if r.is_some() {
        return r;
    }
    tick_span_exec(t, s)
}

/// Strip Markdown inline formatting (`***`, `**`, `*`, `___`, `__`, `_`,
/// `~~`, backticks) from text in a single left-to-right pass.
pub fn strip_markdown_chars(t: &Vec<char>) -> (r: Vec<char>)
    ensures
        r@ == md_strip(t@),
{
    let mut out: Vec<char> = Vec::new();
    let mut s: usize = 0;
    while s < t.len()
        invariant
            s <= t.len(),
            md_strip(t@) == out@ + md_strip_from(t@, s as int),
        decreases t.len() - s,
    {
        match md_span_at_exec(t, s) {
            Some((a, b, e)) => {
                proof {
                    lemma_span_bounds(t@, s as int);
                }
                let inner = slice_of(t, a, b);
                extend(&mut out, &inner);
                proof {
                    assert(out@ + md_strip_from(t@, e as int) == (out@.subrange(
                        0,
                        out@.len() - inner@.len(),
                    ) + inner@) + md_strip_from(t@, e as int));
                }
                s = e;
            },
            None => {
                out.push(t[s]);
                s = s + 1;
            },
        }
    }
    assert(out@ + Seq::<char>::empty() == out@);
    out
}

proof fn lemma_delim_bounds(t: Seq<char>, s: int, d: Seq<char>)
    ensures
        delim_span(t, s, d) matches Some((a, b, e)) ==> 0 <= s && a == s + d.len() && a < b && b
            <= e && e <= t.len() && e > s,
{
    lemma_md_close_bound(t, s + d.len() + 1, d);
}

proof fn lemma_span_bounds(t: Seq<char>, s: int)
    ensures
        md_span_at(t, s) matches Some((a, b, e)) ==> 0 <= s <= a && a <= b <= e && e <= t.len()
            && e > s,
{
    lemma_delim_bounds(t, s, seq!['*', '*', '*']);
    lemma_delim_bounds(t, s, seq!['*', '*']);
    lemma_delim_bounds(t, s, seq!['*']);
    lemma_delim_bounds(t, s, seq!['_', '_', '_']);
    lemma_delim_bounds(t, s, seq!['_', '_']);
    lemma_delim_bounds(t, s, seq!['_']);
    lemma_delim_bounds(t, s, seq!['~', '~']);
    lemma_find_bound(t, seq!['`'], s + 1);
}

/// Strip Markdown inline formatting from text in a single pass.
pub fn strip_markdown_inline(text: &str) -> (r: String)
    ensures
        r@ == md_strip(text@),
{
    let t = chars_of(text);
    string_of(&strip_markdown_chars(&t))
}

// ---------------------------------------------------------------------------
// Numbers.
// ---------------------------------------------------------------------------

pub open spec fn is_digit(c: char) -> bool {
    48 <= (c as u32) <= 57
}

/// The value of a string of decimal digits.
pub open spec fn digits_value(s: Seq<char>) -> int
    decreases s.len(),
{
    if s.len() == 0 {
        0
    } else {
        digits_value(s.drop_last()) * 10 + (s.last() as u32 - 48)
    }
}

/// The text after an optional leading `+`.
pub open spec fn unsigned_digits(s: Seq<char>) -> Seq<char> {
    if s.len() > 0 && s[0] == '+' {
        s.drop_first()
    } else {
        s
    }
}

pub open spec fn all_digits(d: Seq<char>) -> bool {
    forall|i: int| 0 <= i < d.len() ==> is_digit(#[trigger] d[i])
}

/// `str::parse` for an unsigned integer type whose largest value is `max`:
/// an optional `+`, then one or more ASCII digits, with a value of at most
/// `max`.
pub open spec fn parse_uint(s: Seq<char>, max: int) -> Option<int> {
    let d = unsigned_digits(s);
    if d.len() > 0 && all_digits(d) && digits_value(d) <= max {
        Some(digits_value(d))
    } else {
        None
    }
}

pub proof fn lemma_digits_value_nonneg(s: Seq<char>)
    requires
        forall|i: int| 0 <= i < s.len() ==> is_digit(#[trigger] s[i]),
    ensures
        digits_value(s) >= 0,
    decreases s.len(),
{
    if s.len() > 0 {
        let d = s.drop_last();
        assert forall|i: int| 0 <= i < d.len() implies is_digit(#[trigger] d[i]) by {
            assert(d[i] == s[i]);
        }
        lemma_digits_value_nonneg(d);
        assert(is_digit(s[s.len() - 1]));
    }
}

/// `str::parse::<u16>`-style parsing with the bound `max`.
pub fn parse_uint_exec(s: &Vec<char>, max: u32) -> (r: Option<u32>)
    requires
        max <= 65535,
    ensures
        match r {
            Some(n) => parse_uint(s@, max as int) == Some(n as int),
            None => parse_uint(s@, max as int) is None,
        },
{
    let start: usize = if s.len() > 0 && s[0] == '+' {
        1
    } else {
        0
    };
    let ghost d = unsigned_digits(s@);
    assert(d == s@.subrange(start as int, s@.len() as int));
    if start >= s.len() {
        return None;
    }
    let mut acc: u32 = 0;
    let mut big = false;
    let mut k: usize = start;
    while k < s.len()
        invariant
            start <= k <= s.len(),
            max <= 65535,
            d == unsigned_digits(s@),
            d == s@.subrange(start as int, s@.len() as int),
            forall|i: int| start <= i < k ==> is_digit(#[trigger] s@[i]),
            big ==> digits_value(s@.subrange(start as int, k as int)) > max,
            !big ==> acc == digits_value(s@.subrange(start as int, k as int)) && acc <= max,
        decreases s.len() - k,
    {
        let c = s[k];
        let cu = c as u32;
        if !(48 <= cu && cu <= 57) {
            proof {
                assert(d[k - start] == s@[k as int]);
                assert(!is_digit(d[k - start]));
                assert(!all_digits(d));
            }
            return None;
        }
        let ghost pre = s@.subrange(start as int, k as int);
        let ghost post = s@.subrange(start as int, k + 1);
        assert(post.drop_last() == pre);
        assert(post.last() == c);
        assert forall|i: int| 0 <= i < pre.len() implies is_digit(#[trigger] pre[i]) by {
            assert(pre[i] == s@[start + i]);
        }
        proof {
            lemma_digits_value_nonneg(pre);
        }
        let dig: u32 = cu - 48;
        if !big {
            if dig > max || acc > (max - dig) / 10 {
                big = true;
                assert(digits_value(post) == acc * 10 + dig) by (nonlinear_arith)
                    requires
                        digits_value(post) == digits_value(pre) * 10 + (c as u32 - 48),
                        acc == digits_value(pre),
                        dig == c as u32 - 48,
                ;
                assert(acc * 10 + dig > max) by (nonlinear_arith)
                    requires
                        dig > max || acc > (max - dig) / 10,
                        dig <= 9,
                        acc >= 0,
                        max >= 0,
                ;
            } else {
                assert(acc * 10 + dig <= max) by (nonlinear_arith)
                    requires
                        acc <= (max - dig) / 10,
                        dig <= 9,
                        dig <= max,
                ;
                acc = acc * 10 + dig;
            }
        } else {
            assert(digits_value(post) >= digits_value(pre) * 10) by (nonlinear_arith)
                requires
                    digits_value(post) == digits_value(pre) * 10 + (c as u32 - 48),
                    c as u32 - 48 >= 0,
            ;
            assert(digits_value(pre) * 10 >= digits_value(pre)) by (nonlinear_arith)
                requires
                    digits_value(pre) >= 0,
            ;
        }
        k = k + 1;
    }
    assert(d == s@.subrange(start as int, k as int));
    if big {
        None
    } else {
        Some(acc)
    }
}

// ---------------------------------------------------------------------------
// Variable lines: `$ name: command --- options`.
// ---------------------------------------------------------------------------

/// Why a variable line was rejected.
#[derive(Debug)]
pub enum VarLineError {
    /// The line is not of the form `$ name: command`.
    Invalid(String),
    /// The options hold a quote without its closing quote.
    MissingClosingQuote,
    /// An option that takes a value is the last word.
    MissingValue(String),
    /// An option's value is not a number from 0 to 255.
    NotU8(String),
}

pub enum VarLineErrorView {
    Invalid(Seq<char>),
    MissingClosingQuote,
    MissingValue(Seq<char>),
    NotU8(Seq<char>),
}

impl View for VarLineError {
    type V = VarLineErrorView;

    open spec fn view(&self) -> VarLineErrorView {
        match self {
            VarLineError::Invalid(l) => VarLineErrorView::Invalid(l@),
            VarLineError::MissingClosingQuote => VarLineErrorView::MissingClosingQuote,
            VarLineError::MissingValue(f) => VarLineErrorView::MissingValue(f@),
            VarLineError::NotU8(f) => VarLineErrorView::NotU8(f@),
        }
    }
}

#[verifier::external_type_specification]
#[verifier::external_body]
pub struct ExMismatchedQuotes(shellwords::MismatchedQuotes);

/// Name for what `shellwords::split` returns: the words of the text as the
/// Bourne shell splits them, or `None` when a quote is not closed.
pub uninterp spec fn shell_words(s: Seq<char>) -> Option<Seq<Seq<char>>>;

/// Calls `shellwords::split`. The contract claims that its words (or its
/// refusal) are a fixed function of the text; how quotes and backslashes
/// are read is left to the crate.
#[verifier::external_body]
fn shell_split(s: &str) -> (r: Result<Vec<String>, shellwords::MismatchedQuotes>)
    ensures
        match r {
            Ok(ws) => shell_words(s@) == Some(ws@.map_values(|w: String| w@)),
            Err(_) => shell_words(s@) is None,
        },
{
    shellwords::split(s)
}

/// The options after `---`, read from the words `w[i..]`.
pub open spec fn opts_from(w: Seq<Seq<char>>, i: int, acc: OptsView) -> Result<
    OptsView,
    VarLineErrorView,
>
    decreases w.len() - i,
{
    if i < 0 || i >= w.len() {
        Ok(acc)
    } else {
        let f = w[i];
        let has_value = i + 1 < w.len();
        if f == "--prevent-extra"@ {
            opts_from(w, i + 1, OptsView { prevent_extra: true, ..acc })
        } else if f == "--expand"@ {
            opts_from(w, i + 1, OptsView { expand: true, ..acc })
        } else if f == "--column"@ {
            if !has_value {
                Err(VarLineErrorView::MissingValue("--column"@))
            } else {
                match parse_uint(w[i + 1], 255) {
                    Some(n) => opts_from(w, i + 2, OptsView { column: Some(n as u8), ..acc }),
                    None => Err(VarLineErrorView::NotU8("--column"@)),
                }
            }
        } else if f == "--delimiter"@ {
            if !has_value {
                Err(VarLineErrorView::MissingValue("--delimiter"@))
            } else {
                opts_from(w, i + 2, OptsView { delimiter: Some(w[i + 1]), ..acc })
            }
        } else if f == "--query"@ {
            if !has_value {
                Err(VarLineErrorView::MissingValue("--query"@))
            } else {
                opts_from(w, i + 2, OptsView { query: Some(w[i + 1]), ..acc })
            }
        } else if f == "--filter"@ {
            if !has_value {
                Err(VarLineErrorView::MissingValue("--filter"@))
            } else {
                opts_from(w, i + 2, OptsView { filter: Some(w[i + 1]), ..acc })
            }
        } else if f == "--preview"@ {
            if !has_value {
                Err(VarLineErrorView::MissingValue("--preview"@))
            } else {
                opts_from(w, i + 2, OptsView { preview: Some(w[i + 1]), ..acc })
            }
        } else if f == "--preview-window"@ {
            if !has_value {
                Err(VarLineErrorView::MissingValue("--preview-window"@))
            } else {
                opts_from(w, i + 2, OptsView { preview_window: Some(w[i + 1]), ..acc })
            }
        } else if f == "--header"@ {
            if !has_value {
                Err(VarLineErrorView::MissingValue("--header"@))
            } else {
                opts_from(w, i + 2, OptsView { header: Some(w[i + 1]), ..acc })
            }
        } else if f == "--headers"@ || f == "--header-lines"@ {
            if !has_value {
                Err(VarLineErrorView::MissingValue("--header-lines"@))
            } else {
                match parse_uint(w[i + 1], 255) {
                    Some(n) => opts_from(w, i + 2, OptsView { header_lines: n as u8, ..acc }),
                    None => Err(VarLineErrorView::NotU8("--header-lines"@)),
                }
            }
        } else if f == "--map"@ {
            if !has_value {
                Err(VarLineErrorView::MissingValue("--map"@))
            } else {
                opts_from(w, i + 2, OptsView { map: Some(w[i + 1]), ..acc })
            }
        } else {
            opts_from(w, i + 1, acc)
        }
    }
}

/// The options portion of a variable line.
pub open spec fn opts_spec(text: Seq<char>) -> Result<OptsView, VarLineErrorView> {
    match shell_words(text) {
        Some(w) => opts_from(w, 0, OptsView::default_opts()),
        None => Err(VarLineErrorView::MissingClosingQuote),
    }
}

fn word_is(w: &String, lit: &str) -> (r: bool)
    ensures
        r == (w@ == lit@),
{
    crate::text::eq_exec(&chars_of(w.as_str()), &chars_of(lit))
}

/// Parse the options portion of a `$ var: cmd --- --opts` line.
pub fn parse_opts(text: &str) -> (r: Result<SuggestionOpts, VarLineError>)
    ensures
        match r {
            Ok(o) => opts_spec(text@) == Ok::<OptsView, VarLineErrorView>(o@),
            Err(e) => opts_spec(text@) == Err::<OptsView, VarLineErrorView>(e@),
        },
{
    match shell_split(text) {
        Ok(words) => opts_from_words(&words),
        Err(_) => Err(VarLineError::MissingClosingQuote),
    }
}

/// Reads the options from the words of the options text: flags set their
/// option, options with a value take the next word, unknown words are
/// skipped.
pub fn opts_from_words(words: &Vec<String>) -> (r: Result<SuggestionOpts, VarLineError>)
    ensures
        match r {
            Ok(o) => opts_from(words@.map_values(|x: String| x@), 0, OptsView::default_opts())
                == Ok::<OptsView, VarLineErrorView>(o@),
            Err(e) => opts_from(words@.map_values(|x: String| x@), 0, OptsView::default_opts())
                == Err::<OptsView, VarLineErrorView>(e@),
        },
{
    let mut opts = SuggestionOpts::default();
    let ghost w = words@.map_values(|x: String| x@);
    let mut i: usize = 0;
    while i < words.len()
        invariant
            i <= words.len(),
            w == words@.map_values(|x: String| x@),
            w.len() == words.len(),
            opts_from(w, 0, OptsView::default_opts()) == opts_from(w, i as int, opts@),
        decreases words.len() - i,
    {
        let f = &words[i];
        assert(w[i as int] == f@);
        let has_value = i + 1 < words.len();
        if word_is(f, "--prevent-extra") {
            opts.prevent_extra = true;
            i = i + 1;
        } else if word_is(f, "--expand") {
            opts.expand = true;
            i = i + 1;
        } else if word_is(f, "--column") {
            if !has_value {
                return Err(VarLineError::MissingValue("--column".to_owned()));
            }
            assert(w[i + 1] == words@[i + 1]@);
            match parse_uint_exec(&chars_of(words[i + 1].as_str()), 255) {
                Some(n) => {
                    opts.column = Some(n as u8);
                },
                None => {
                    return Err(VarLineError::NotU8("--column".to_owned()));
                },
            }
            i = i + 2;
        } else if word_is(f, "--delimiter") {
            if !has_value {
                return Err(VarLineError::MissingValue("--delimiter".to_owned()));
            }
            assert(w[i + 1] == words@[i + 1]@);
            opts.delimiter = Some(words[i + 1].clone());
            i = i + 2;
        } else if word_is(f, "--query") {
            if !has_value {
                return Err(VarLineError::MissingValue("--query".to_owned()));
            }
            assert(w[i + 1] == words@[i + 1]@);
            opts.query = Some(words[i + 1].clone());
            i = i + 2;
        } else if word_is(f, "--filter") {
            if !has_value {
                return Err(VarLineError::MissingValue("--filter".to_owned()));
            }
            assert(w[i + 1] == words@[i + 1]@);
            opts.filter = Some(words[i + 1].clone());
            i = i + 2;
        } else if word_is(f, "--preview") {
            if !has_value {
                return Err(VarLineError::MissingValue("--preview".to_owned()));
            }
            assert(w[i + 1] == words@[i + 1]@);
            opts.preview = Some(words[i + 1].clone());
            i = i + 2;
        } else if word_is(f, "--preview-window") {
            if !has_value {
                return Err(VarLineError::MissingValue("--preview-window".to_owned()));
            }
            assert(w[i + 1] == words@[i + 1]@);
            opts.preview_window = Some(words[i + 1].clone());
            i = i + 2;
        } else if word_is(f, "--header") {
            if !has_value {
                return Err(VarLineError::MissingValue("--header".to_owned()));
            }
            assert(w[i + 1] == words@[i + 1]@);
            opts.header = Some(words[i + 1].clone());
            i = i + 2;
        } else if word_is(f, "--headers") || word_is(f, "--header-lines") {
            if !has_value {
                return Err(VarLineError::MissingValue("--header-lines".to_owned()));
            }
            assert(w[i + 1] == words@[i + 1]@);
            match parse_uint_exec(&chars_of(words[i + 1].as_str()), 255) {
                Some(n) => {
                    opts.header_lines = n as u8;
                },
                None => {
                    return Err(VarLineError::NotU8("--header-lines".to_owned()));
                },
            }
            i = i + 2;
        } else if word_is(f, "--map") {
            if !has_value {
                return Err(VarLineError::MissingValue("--map".to_owned()));
            }
            assert(w[i + 1] == words@[i + 1]@);
            opts.map = Some(words[i + 1].clone());
            i = i + 2;
        } else {
            i = i + 1;
        }
    }
    Ok(opts)
}

/// `r` up to its first newline.
pub open spec fn until_newline(r: Seq<char>) -> Seq<char> {
    match find_from(r, seq!['\n'], 0) {
        Some(n) => r.take(n),
        None => r,
    }
}

/// The variable name and the rest of a line `$ name: rest`: the line starts
/// with `$`, at least one character stands between it and the first colon,
/// the name is that text trimmed, and the rest ends at a newline.
pub open spec fn var_line_head(l: Seq<char>) -> Option<(Seq<char>, Seq<char>)> {
    if l.len() > 0 && l[0] == '$' {
        match find_from(l, seq![':'], 1) {
            Some(j) => if j >= 2 {
                Some((trim(l.subrange(1, j)), until_newline(l.subrange(j + 1, l.len() as int))))
            } else {
                None
            },
            None => None,
        }
    } else {
        None
    }
}

/// `r.splitn(2, p)`: the text before the first `p`, and the text after it.
pub open spec fn split_once(r: Seq<char>, p: Seq<char>) -> (Seq<char>, Option<Seq<char>>) {
    match find_from(r, p, 0) {
        Some(i) => (r.take(i), Some(r.skip(i + p.len()))),
        None => (r, None),
    }
}

/// A parsed variable line: name, command, and options if `---` is there.
pub open spec fn var_line_spec(l: Seq<char>) -> Result<
    (Seq<char>, Seq<char>, Option<OptsView>),
    VarLineErrorView,
> {
    match var_line_head(l) {
        None => Err(VarLineErrorView::Invalid(l)),
        Some((v, rest)) => {
            let (cmd, o) = split_once(rest, "---"@);
            match o {
                None => Ok((v, cmd, None)),
                Some(t) => match opts_spec(t) {
                    Ok(op) => Ok((v, cmd, Some(op))),
                    Err(e) => Err(e),
                },
            }
        },
    }
}

pub open spec fn opt_opts_view(o: Option<SuggestionOpts>) -> Option<OptsView> {
    match o {
        Some(x) => Some(x@),
        None => None,
    }
}

/// Parse a `$ variable: command --- options` line.
pub fn parse_variable_line(line: &Vec<char>) -> (r: Result<
    (Vec<char>, Vec<char>, Option<SuggestionOpts>),
    VarLineError,
>)
    ensures
        match r {
            Ok((v, c, o)) => var_line_spec(line@) == Ok::<
                (Seq<char>, Seq<char>, Option<OptsView>),
                VarLineErrorView,
            >((v@, c@, opt_opts_view(o))),
            Err(e) => var_line_spec(line@) == Err::<
                (Seq<char>, Seq<char>, Option<OptsView>),
                VarLineErrorView,
            >(e@),
        },
{
    let invalid = line.len() == 0 || line[0] != '$';
    if invalid {
        return Err(VarLineError::Invalid(string_of(line)));
    }
    let colon: Vec<char> = vec![':'];
    assert(colon@ == seq![':']);
    let j = match find_exec(line, &colon, 1) {
        Some(j) => j,
        None => {
            return Err(VarLineError::Invalid(string_of(line)));
        },
    };
    if j < 2 {
        return Err(VarLineError::Invalid(string_of(line)));
    }
    proof {
        lemma_find_bound(line@, seq![':'], 1);
    }
    let name = trim_chars(&slice_of(line, 1, j));
    let after = slice_of(line, j + 1, line.len());
    let nl: Vec<char> = vec!['\n'];
    assert(nl@ == seq!['\n']);
    let rest = match find_exec(&after, &nl, 0) {
        Some(n) => {
            proof {
                lemma_find_bound(after@, seq!['\n'], 0);
            }
            slice_of(&after, 0, n)
        },
        None => after,
    };
    let dashes = chars_of("---");
    match find_exec(&rest, &dashes, 0) {
        None => Ok((name, rest, None)),
        Some(p) => {
            proof {
                lemma_find_bound(rest@, dashes@, 0);
            }
            let cmd = slice_of(&rest, 0, p);
            let tail = slice_of(&rest, p + dashes.len(), rest.len());
            let tail_s = string_of(&tail);
            match parse_opts(tail_s.as_str()) {
                Ok(o) => Ok((name, cmd, Some(o))),
                Err(e) => Err(e),
            }
        },
    }
}

// ---------------------------------------------------------------------------
// The line parser.
// ---------------------------------------------------------------------------

/// A variable line that could not be parsed, with where it stood.
#[derive(Debug)]
pub struct ParseError {
    /// Line number (1-indexed) of the line that completed the variable.
    pub line: usize,
    /// The source the lines came from.
    pub source: String,
    pub cause: VarLineError,
}

pub struct ParseErrorView {
    pub line: usize,
    pub source: Seq<char>,
    pub cause: VarLineErrorView,
}

impl View for ParseError {
    type V = ParseErrorView;

    open spec fn view(&self) -> ParseErrorView {
        ParseErrorView { line: self.line, source: self.source@, cause: self.cause@ }
    }
}

/// The state of the line parser between two lines.
pub struct PState {
    pub items: Seq<ItemView>,
    pub vars: VarMapView,
    pub seen: Seq<u64>,
    pub current: ItemView,
    pub variable_cmd: Seq<char>,
    pub inside_snippet: bool,
    pub in_front_matter: bool,
    pub front_matter_lines: Seq<Seq<char>>,
    pub pending_prose: Seq<Seq<char>>,
}

/// `c` with an empty snippet.
pub open spec fn cleared(c: ItemView) -> ItemView {
    ItemView { snippet: Seq::empty(), ..c }
}

impl PState {
    /// The state before the first line of `source`.
    pub open spec fn initial(source: Seq<char>) -> PState {
        PState {
            items: Seq::empty(),
            vars: VarMapView::empty(),
            seen: Seq::empty(),
            current: ItemView { file: Some(source), ..ItemView::empty() },
            variable_cmd: Seq::empty(),
            inside_snippet: false,
            in_front_matter: false,
            front_matter_lines: Seq::empty(),
            pending_prose: Seq::empty(),
        }
    }

    /// The current item, if it is valid and its key is new, appended to the
    /// items with its display snippet recomputed.
    pub open spec fn flushed(self) -> PState {
        if self.current.valid() && !self.seen.contains(self.current.key()) {
            let c = self.current.finalized();
            PState { items: self.items.push(c), seen: self.seen.push(self.current.key()), current: c, ..self }
        } else {
            self
        }
    }

    pub open spec fn flushed_cleared(self) -> PState {
        PState { current: cleared(self.flushed().current), ..self.flushed() }
    }

    pub open spec fn with_snippet_tail(self, tail: Seq<char>) -> PState {
        PState { current: ItemView { snippet: self.current.snippet + tail, ..self.current }, ..self }
    }
}

/// A variable line stored under the current tags, or the error it gives.
pub open spec fn add_variable(st: PState, cmd: Seq<char>, line_nr: int, source: Seq<char>) -> Result<
    PState,
    ParseErrorView,
> {
    match var_line_spec(cmd) {
        Ok((v, c, o)) => Ok(PState { vars: st.vars.with_suggestion(st.current.tags, v, (c, o)), ..st }),
        Err(e) => Err(ParseErrorView { line: (line_nr + 1) as usize, source, cause: e }),
    }
}

/// One line of a (possibly continued) variable definition.
pub open spec fn feed_variable(st: PState, line: Seq<char>, line_nr: int, source: Seq<char>) -> Result<
    PState,
    ParseErrorView,
> {
    let cmd = st.variable_cmd + trim_end_by(line, CharClass::Exactly('\\'));
    if line.len() > 0 && line.last() == '\\' {
        Ok(PState { variable_cmd: cmd, ..st })
    } else {
        match add_variable(st, cmd, line_nr, source) {
            Ok(s2) => Ok(PState { variable_cmd: Seq::empty(), ..s2 }),
            Err(e) => Err(e),
        }
    }
}

/// A line that starts with `$` and holds a colon.
pub open spec fn is_var_start(line: Seq<char>) -> bool {
    line.len() > 0 && line[0] == '$' && line.contains(':')
}

/// A tag of the front matter's `tags:` list, without quotes.
pub open spec fn clean_tag(s: Seq<char>) -> Seq<char> {
    trim_by(trim_by(trim(s), CharClass::Exactly('"')), CharClass::Exactly('\''))
}

/// The tags that a front matter `tags:` value gives.
pub open spec fn fm_tags(value: Seq<char>) -> Seq<char> {
    let v = trim_end_by(trim_start_by(trim(value), CharClass::Exactly('[')), CharClass::Exactly(']'));
    join(split_char(v, ',').map_values(|p: Seq<char>| clean_tag(p)), ", "@)
}

/// Dependencies of `tags` on each non-empty trimmed part.
pub open spec fn add_deps(vars: VarMapView, tags: Seq<char>, parts: Seq<Seq<char>>, i: int) -> VarMapView
    decreases parts.len() - i,
{
    if i < 0 || i >= parts.len() {
        vars
    } else {
        let d = trim(parts[i]);
        let v2 = if d.len() > 0 {
            vars.with_dependency(tags, d)
        } else {
            vars
        };
        add_deps(v2, tags, parts, i + 1)
    }
}

/// One front matter line applied to the current item and the variables.
pub open spec fn apply_fm_line(l: Seq<char>, c: ItemView, vars: VarMapView) -> (ItemView, VarMapView) {
    let t = trim(l);
    if starts_with(t, "tags:"@) {
        (ItemView { tags: fm_tags(t.skip("tags:"@.len() as int)), ..c }, vars)
    } else if starts_with(t, "depend:"@) {
        (c, add_deps(vars, c.tags, split_char(t.skip("depend:"@.len() as int), ','), 0))
    } else {
        (c, vars)
    }
}

/// The front matter lines from `i` on applied in order.
pub open spec fn apply_fm(lines: Seq<Seq<char>>, i: int, c: ItemView, vars: VarMapView) -> (
    ItemView,
    VarMapView,
)
    decreases lines.len() - i,
{
    if i < 0 || i >= lines.len() {
        (c, vars)
    } else {
        let (c2, v2) = apply_fm_line(lines[i], c, vars);
        apply_fm(lines, i + 1, c2, v2)
    }
}

/// The text after the first character, trimmed; empty when the first
/// character takes more than one byte.
pub open spec fn without_prefix(l: Seq<char>) -> Seq<char> {
    if l.len() > 0 && (l[0] as u32) < 128 {
        trim(l.skip(1))
    } else {
        Seq::empty()
    }
}

/// A prose line: trimmed, without a leading list marker.
pub open spec fn prose_of(line: Seq<char>) -> Seq<char> {
    let p = trim(line);
    if starts_with(p, "- "@) {
        p.skip("- "@.len() as int)
    } else if starts_with(p, "* "@) {
        p.skip("* "@.len() as int)
    } else {
        p
    }
}

/// A line inside a code block.
pub open spec fn step_inside(st: PState, line_nr: int, line: Seq<char>, source: Seq<char>) -> Result<
    PState,
    ParseErrorView,
> {
    if starts_with(line, "```"@) {
        let f = st.flushed_cleared();
        Ok(PState { inside_snippet: false, pending_prose: Seq::empty(), ..f })
    } else if st.variable_cmd.len() > 0 || is_var_start(line) {
        let s1 = if st.current.snippet.len() > 0 && st.variable_cmd.len() == 0 {
            st.flushed_cleared()
        } else {
            st
        };
        feed_variable(s1, line, line_nr, source)
    } else if line.len() == 0 {
        Ok(
            if st.current.snippet.len() > 0 {
                st.with_snippet_tail(line_separator())
            } else {
                st
            },
        )
    } else {
        let s1 = if st.current.snippet.len() > 0 {
            st.with_snippet_tail(line_separator())
        } else {
            st
        };
        Ok(s1.with_snippet_tail(line))
    }
}

/// The current item when a code block opens: its language hint is the
/// one this fence names, if any.
pub open spec fn open_fence(st: PState, line: Seq<char>) -> ItemView {
    let lang = trim(trim_start_by(line, CharClass::Exactly('`')));
    let c1 = ItemView {
        lang: if lang.len() > 0 {
            Some(lang)
        } else {
            None
        },
        ..st.current
    };
    if st.pending_prose.len() > 0 {
        let text = md_strip(join(st.pending_prose, seq!['\n']));
        if c1.comment.len() == 0 {
            ItemView { comment: text, ..c1 }
        } else {
            ItemView { detail: Some(text), ..c1 }
        }
    } else {
        c1
    }
}

/// A heading line: `#` sets the tags, `##` and deeper set the description.
pub open spec fn heading(st: PState, line_nr: int, line: Seq<char>) -> PState {
    let trimmed = trim_start_by(line, CharClass::Exactly('#'));
    let hashes = line.len() - trimmed.len();
    let text = md_strip(trim(trimmed));
    let f = st.flushed();
    let c = if hashes == 1 {
        ItemView { snippet: Seq::empty(), detail: None, tags: text, ..f.current }
    } else {
        ItemView {
            snippet: Seq::empty(),
            detail: None,
            comment: text,
            line: Some((line_nr + 1) as usize),
            ..f.current
        }
    };
    PState { current: c, pending_prose: Seq::empty(), ..f }
}

/// A line outside code blocks.
pub open spec fn step_outside(st: PState, line_nr: int, line: Seq<char>, source: Seq<char>) -> Result<
    PState,
    ParseErrorView,
> {
    if starts_with(line, "```"@) {
        Ok(PState { inside_snippet: true, current: open_fence(st, line), pending_prose: Seq::empty(), ..st })
    } else if line.len() == 0 {
        Ok(st)
    } else if line[0] == '%' {
        let f = st.flushed();
        Ok(
            PState {
                current: ItemView {
                    snippet: Seq::empty(),
                    detail: None,
                    tags: without_prefix(line),
                    ..f.current
                },
                pending_prose: Seq::empty(),
                ..f
            },
        )
    } else if line[0] == '@' {
        Ok(PState { vars: st.vars.with_dependency(st.current.tags, without_prefix(line)), ..st })
    } else if line[0] == ';' {
        Ok(st)
    } else if st.variable_cmd.len() > 0 || is_var_start(line) {
        feed_variable(st.flushed_cleared(), line, line_nr, source)
    } else if line[0] == '#' {
        Ok(heading(st, line_nr, line))
    } else {
        Ok(PState { pending_prose: st.pending_prose.push(prose_of(line)), ..st })
    }
}

/// One line of a trick file, numbered from 0.
pub open spec fn step(st: PState, line_nr: int, line: Seq<char>, source: Seq<char>) -> Result<
    PState,
    ParseErrorView,
> {
    if line_nr == 0 && trim(line) == "---"@ {
        Ok(PState { in_front_matter: true, ..st })
    } else if st.in_front_matter {
        if trim(line) == "---"@ {
            let (c, v) = apply_fm(st.front_matter_lines, 0, st.current, st.vars);
            Ok(PState { in_front_matter: false, current: c, vars: v, ..st })
        } else {
            Ok(PState { front_matter_lines: st.front_matter_lines.push(line), ..st })
        }
    } else if st.inside_snippet {
        step_inside(st, line_nr, line, source)
    } else {
        step_outside(st, line_nr, line, source)
    }
}

/// The state after the lines from `i` on, or the first error.
pub open spec fn run_lines(lines: Seq<Seq<char>>, source: Seq<char>, st: PState, i: int) -> Result<
    PState,
    ParseErrorView,
>
    decreases lines.len() - i,
{
    if i < 0 || i >= lines.len() {
        Ok(st)
    } else {
        match step(st, i, lines[i], source) {
            Ok(s2) => run_lines(lines, source, s2, i + 1),
            Err(e) => Err(e),
        }
    }
}

/// What a trick file gives: its items and its variables, or the first
/// variable line that could not be parsed.
pub open spec fn parse_spec(lines: Seq<Seq<char>>, source: Seq<char>) -> Result<
    (Seq<ItemView>, VarMapView),
    ParseErrorView,
> {
    match run_lines(lines, source, PState::initial(source), 0) {
        Ok(st) => Ok((st.flushed().items, st.flushed().vars)),
        Err(e) => Err(e),
    }
}

/// The items and variables of a trick file.
pub struct ParseResult {
    pub items: Vec<Item>,
    pub variables: VariableMap,
}

struct Parser {
    items: Vec<Item>,
    variables: VariableMap,
    seen: Vec<u64>,
    current: Item,
    variable_cmd: Vec<char>,
    inside_snippet: bool,
    in_front_matter: bool,
    front_matter_lines: Vec<Vec<char>>,
    pending_prose: Vec<Vec<char>>,
}

fn contains_u64(v: &Vec<u64>, x: u64) -> (r: bool)
    ensures
        r == v@.contains(x),
{
    let mut k: usize = 0;
    while k < v.len()
        invariant
            k <= v.len(),
            forall|t: int| 0 <= t < k ==> v@[t] != x,
        decreases v.len() - k,
    {
        if v[k] == x {
            assert(v@[k as int] == x);
            return true;
        }
        k = k + 1;
    }
    false
}

fn without_prefix_exec(l: &Vec<char>) -> (r: Vec<char>)
    ensures
        r@ == without_prefix(l@),
{
    if l.len() > 0 && (l[0] as u32) < 128 {
        trim_chars(&slice_of(l, 1, l.len()))
    } else {
        Vec::new()
    }
}

fn prose_of_exec(line: &Vec<char>) -> (r: Vec<char>)
    ensures
        r@ == prose_of(line@),
{
    let p = trim_chars(line);
    let dash = chars_of("- ");
    let star = chars_of("* ");
    if starts_with_exec(&p, &dash) {
        slice_of(&p, dash.len(), p.len())
    } else if starts_with_exec(&p, &star) {
        slice_of(&p, star.len(), p.len())
    } else {
        p
    }
}

fn clean_tag_exec(p: &Vec<char>) -> (r: Vec<char>)
    ensures
        r@ == clean_tag(p@),
{
    let a = trim_chars(p);
    let b = trim_with(&a, CharClass::Exactly('"'));
    trim_with(&b, CharClass::Exactly('\''))
}

fn fm_tags_exec(value: &Vec<char>) -> (r: Vec<char>)
    ensures
        r@ == fm_tags(value@),
{
    let a = trim_chars(value);
    let b = trim_start_with(&a, CharClass::Exactly('['));
    let v = trim_end_with(&b, CharClass::Exactly(']'));
    let parts = split_char_exec(&v, ',');
    let ghost ps = split_char(v@, ',');
    let mut cleaned: Vec<Vec<char>> = Vec::new();
    let mut k: usize = 0;
    while k < parts.len()
        invariant
            k <= parts.len(),
            view_all(parts@) == ps,
            view_all(cleaned@) == ps.take(k as int).map_values(|p: Seq<char>| clean_tag(p)),
        decreases parts.len() - k,
    {
        let c = clean_tag_exec(&parts[k]);
        let ghost before = cleaned@;
        let ghost cv = c;
        cleaned.push(c);
        proof {
            lemma_view_all_push(before, cv);
            assert(ps[k as int] == parts@[k as int]@);
            assert(ps.take(k + 1).map_values(|p: Seq<char>| clean_tag(p)) == ps.take(
                k as int,
            ).map_values(|p: Seq<char>| clean_tag(p)).push(clean_tag(ps[k as int])));
        }
        k = k + 1;
    }
    assert(ps.take(parts.len() as int) == ps);
    let sep = chars_of(", ");
    join_exec(&cleaned, &sep)
}

impl Parser {
    spec fn st(&self) -> PState {
        PState {
            items: items_view(self.items@),
            vars: self.variables@,
            seen: self.seen@,
            current: self.current@,
            variable_cmd: self.variable_cmd@,
            inside_snippet: self.inside_snippet,
            in_front_matter: self.in_front_matter,
            front_matter_lines: view_all(self.front_matter_lines@),
            pending_prose: view_all(self.pending_prose@),
        }
    }

    fn new(source: &str) -> (p: Parser)
        ensures
            p.st() == PState::initial(source@),
    {
        let mut current = Item::new();
        current.file = Some(source.to_owned());
        let p = Parser {
            items: Vec::new(),
            variables: VariableMap::default(),
            seen: Vec::new(),
            current,
            variable_cmd: Vec::new(),
            inside_snippet: false,
            in_front_matter: false,
            front_matter_lines: Vec::new(),
            pending_prose: Vec::new(),
        };
        assert(items_view(p.items@) == Seq::<ItemView>::empty());
        assert(view_all(p.front_matter_lines@) == Seq::<Seq<char>>::empty());
        assert(view_all(p.pending_prose@) == Seq::<Seq<char>>::empty());
        p
    }

    fn flush(&mut self)
        ensures
            final(self).st() == old(self).st().flushed(),
    {
        if self.current.is_valid() {
            let h = self.current.hash_key();
            if !contains_u64(&self.seen, h) {
                self.seen.push(h);
                self.current.finalize_snippet();
                let d = self.current.duplicate();
                let ghost before = self.items@;
                let ghost dv = d;
                self.items.push(d);
                proof {
                    lemma_items_view_push(before, dv);
                }
            }
        }
    }

    fn flush_clear(&mut self)
        ensures
            final(self).st() == old(self).st().flushed_cleared(),
    {
        self.flush();
        self.current.snippet = String::new();
    }

    fn append_snippet(&mut self, v: &Vec<char>)
        ensures
            final(self).st() == old(self).st().with_snippet_tail(v@),
    {
        push_chars(&mut self.current.snippet, v);
    }

    fn feed_variable(&mut self, line: &Vec<char>, line_nr: usize, source: &str) -> (r: Result<
        (),
        ParseError,
    >)
        requires
            line_nr < usize::MAX,
        ensures
            match r {
                Ok(()) => feed_variable(old(self).st(), line@, line_nr as int, source@) == Ok::<
                    PState,
                    ParseErrorView,
                >(final(self).st()),
                Err(e) => feed_variable(old(self).st(), line@, line_nr as int, source@) == Err::<
                    PState,
                    ParseErrorView,
                >(e@),
            },
    {
        let t = trim_end_with(line, CharClass::Exactly('\\'));
        extend(&mut self.variable_cmd, &t);
        if ends_with_char(line, '\\') {
            return Ok(());
        }
        match parse_variable_line(&self.variable_cmd) {
            Ok((v, c, o)) => {
                let vs = string_of(&v);
                let cs = string_of(&c);
                let value = (cs, o);
                assert(suggestion_view(value) == (c@, opt_opts_view(o)));
                self.variables.insert_suggestion(self.current.tags.as_str(), vs.as_str(), value);
                self.variable_cmd = Vec::new();
                Ok(())
            },
            Err(e) => Err(ParseError { line: line_nr + 1, source: source.to_owned(), cause: e }),
        }
    }

    fn apply_front_matter(&mut self)
        ensures
            ({
                let (c, v) = apply_fm(
                    old(self).st().front_matter_lines,
                    0,
                    old(self).st().current,
                    old(self).st().vars,
                );
                final(self).st() == PState { current: c, vars: v, ..old(self).st() }
            }),
    {
        let ghost lines = self.st().front_matter_lines;
        let ghost c0 = self.st().current;
        let ghost v0 = self.st().vars;
        let mut i: usize = 0;
        while i < self.front_matter_lines.len()
            invariant
                i <= self.front_matter_lines.len(),
                lines == view_all(self.front_matter_lines@),
                apply_fm(lines, 0, c0, v0) == apply_fm(lines, i as int, self.current@, self.variables@),
                self.st() == (PState { current: self.current@, vars: self.variables@, ..old(self).st() }),
            decreases self.front_matter_lines.len() - i,
        {
            let t = trim_chars(&self.front_matter_lines[i]);
            assert(lines[i as int] == self.front_matter_lines@[i as int]@);
            let tags_p = chars_of("tags:");
            let dep_p = chars_of("depend:");
            if starts_with_exec(&t, &tags_p) {
                let value = slice_of(&t, tags_p.len(), t.len());
                let tags = fm_tags_exec(&value);
                self.current.tags = string_of(&tags);
            } else if starts_with_exec(&t, &dep_p) {
                let value = slice_of(&t, dep_p.len(), t.len());
                let parts = split_char_exec(&value, ',');
                let ghost ps = split_char(value@, ',');
                let ghost vstart = self.variables@;
                let mut j: usize = 0;
                assert(add_deps(vstart, self.current@.tags, ps, 0) == add_deps(
                    self.variables@,
                    self.current@.tags,
                    ps,
                    j as int,
                ));
                let ghost cur = self.current@;
                while j < parts.len()
                    invariant
                        j <= parts.len(),
                        i < self.front_matter_lines.len(),
                        lines == view_all(self.front_matter_lines@),
                        self.current@ == cur,
                        self.st() == (PState {
                            current: self.current@,
                            vars: self.variables@,
                            ..old(self).st()
                        }),
                        view_all(parts@) == ps,
                        add_deps(vstart, self.current@.tags, ps, 0) == add_deps(
                            self.variables@,
                            self.current@.tags,
                            ps,
                            j as int,
                        ),
                    decreases parts.len() - j,
                {
                    let d = trim_chars(&parts[j]);
                    assert(ps[j as int] == parts@[j as int]@);
                    if d.len() > 0 {
                        let ds = string_of(&d);
                        self.variables.insert_dependency(self.current.tags.as_str(), ds.as_str());
                    }
                    j = j + 1;
                }
                assert(add_deps(self.variables@, self.current@.tags, ps, j as int) == self.variables@);
            }
            i = i + 1;
        }
    }

    fn step_inside(&mut self, line_nr: usize, line: &Vec<char>, source: &str) -> (r: Result<
        (),
        ParseError,
    >)
        requires
            line_nr < usize::MAX,
        ensures
            match r {
                Ok(()) => step_inside(old(self).st(), line_nr as int, line@, source@) == Ok::<
                    PState,
                    ParseErrorView,
                >(final(self).st()),
                Err(e) => step_inside(old(self).st(), line_nr as int, line@, source@) == Err::<
                    PState,
                    ParseErrorView,
                >(e@),
            },
    {
        let fence = chars_of("```");
        if starts_with_exec(line, &fence) {
            self.flush_clear();
            self.inside_snippet = false;
            self.pending_prose = Vec::new();
            assert(view_all(self.pending_prose@) == Seq::<Seq<char>>::empty());
            return Ok(());
        }
        let var_start = line.len() > 0 && line[0] == '$' && contains_char(line, ':');
        if self.variable_cmd.len() > 0 || var_start {
            if !self.current.snippet.as_str().is_empty() && self.variable_cmd.len() == 0 {
                self.flush_clear();
            }
            return self.feed_variable(line, line_nr, source);
        }
        let sep = line_separator_chars();
        if line.len() == 0 {
            if !self.current.snippet.as_str().is_empty() {
                self.append_snippet(&sep);
            }
            return Ok(());
        }
        if !self.current.snippet.as_str().is_empty() {
            self.append_snippet(&sep);
        }
        self.append_snippet(line);
        Ok(())
    }

    fn open_fence(&mut self, line: &Vec<char>)
        ensures
            final(self).st() == (PState {
                inside_snippet: true,
                current: open_fence(old(self).st(), line@),
                pending_prose: Seq::empty(),
                ..old(self).st()
            }),
    {
        let lang = trim_chars(&trim_start_with(line, CharClass::Exactly('`')));
        self.current.lang = if lang.len() > 0 {
            Some(string_of(&lang))
        } else {
            None
        };
        if self.pending_prose.len() > 0 {
            let nl: Vec<char> = vec!['\n'];
            assert(nl@ == seq!['\n']);
            let joined = join_exec(&self.pending_prose, &nl);
            let text = strip_markdown_chars(&joined);
            if self.current.comment.as_str().is_empty() {
                self.current.comment = string_of(&text);
            } else {
                self.current.detail = Some(string_of(&text));
            }
        }
        self.inside_snippet = true;
        self.pending_prose = Vec::new();
        assert(view_all(self.pending_prose@) == Seq::<Seq<char>>::empty());
    }

    fn heading(&mut self, line_nr: usize, line: &Vec<char>)
        requires
            line_nr < usize::MAX,
        ensures
            final(self).st() == heading(old(self).st(), line_nr as int, line@),
    {
        let i = leading_end(line, CharClass::Exactly('#'));
        let trimmed = slice_of(line, i, line.len());
        let text = strip_markdown_chars(&trim_chars(&trimmed));
        self.flush();
        self.current.snippet = String::new();
        self.current.detail = None;
        if i == 1 {
            self.current.tags = string_of(&text);
        } else {
            self.current.comment = string_of(&text);
            self.current.line = Some(line_nr + 1);
        }
        self.pending_prose = Vec::new();
        assert(view_all(self.pending_prose@) == Seq::<Seq<char>>::empty());
    }

    fn step_outside(&mut self, line_nr: usize, line: &Vec<char>, source: &str) -> (r: Result<
        (),
        ParseError,
    >)
        requires
            line_nr < usize::MAX,
        ensures
            match r {
                Ok(()) => step_outside(old(self).st(), line_nr as int, line@, source@) == Ok::<
                    PState,
                    ParseErrorView,
                >(final(self).st()),
                Err(e) => step_outside(old(self).st(), line_nr as int, line@, source@) == Err::<
                    PState,
                    ParseErrorView,
                >(e@),
            },
    {
        let fence = chars_of("```");
        if starts_with_exec(line, &fence) {
            self.open_fence(line);
            return Ok(());
        }
        if line.len() == 0 {
            return Ok(());
        }
        if line[0] == '%' {
            self.flush();
            self.current.snippet = String::new();
            self.current.detail = None;
            self.current.tags = string_of(&without_prefix_exec(line));
            self.pending_prose = Vec::new();
            assert(view_all(self.pending_prose@) == Seq::<Seq<char>>::empty());
            return Ok(());
        }
        if line[0] == '@' {
            let dep = string_of(&without_prefix_exec(line));
            self.variables.insert_dependency(self.current.tags.as_str(), dep.as_str());
            return Ok(());
        }
        if line[0] == ';' {
            return Ok(());
        }
        let var_start = line[0] == '$' && contains_char(line, ':');
        if self.variable_cmd.len() > 0 || var_start {
            self.flush_clear();
            return self.feed_variable(line, line_nr, source);
        }
        if line[0] == '#' {
            self.heading(line_nr, line);
            return Ok(());
        }
        let p = prose_of_exec(line);
        let ghost before = self.pending_prose@;
        let ghost pv = p;
        self.pending_prose.push(p);
        proof {
            lemma_view_all_push(before, pv);
        }
        Ok(())
    }

    fn step(&mut self, line_nr: usize, line: &Vec<char>, source: &str) -> (r: Result<(), ParseError>)
        requires
            line_nr < usize::MAX,
        ensures
            match r {
                Ok(()) => step(old(self).st(), line_nr as int, line@, source@) == Ok::<
                    PState,
                    ParseErrorView,
                >(final(self).st()),
                Err(e) => step(old(self).st(), line_nr as int, line@, source@) == Err::<
                    PState,
                    ParseErrorView,
                >(e@),
            },
    {
        let dashes = chars_of("---");
        let is_dashes = eq_exec(&trim_chars(line), &dashes);
        if line_nr == 0 && is_dashes {
            self.in_front_matter = true;
            return Ok(());
        }
        if self.in_front_matter {
            if is_dashes {
                self.in_front_matter = false;
                self.apply_front_matter();
            } else {
                let ghost before = self.front_matter_lines@;
                let l = line.clone();
                let ghost lv = l;
                self.front_matter_lines.push(l);
                proof {
                    lemma_view_all_push(before, lv);
                }
            }
            return Ok(());
        }
        if self.inside_snippet {
            self.step_inside(line_nr, line, source)
        } else {
            self.step_outside(line_nr, line, source)
        }
    }
}

pub open spec fn lines_view(lines: Seq<String>) -> Seq<Seq<char>> {
    lines.map_values(|l: String| l@)
}

/// Parse the lines of a trick file read from `source`.
pub fn parse_lines(lines: &Vec<String>, source: &str) -> (r: Result<ParseResult, ParseError>)
    ensures
        match r {
            Ok(pr) => parse_spec(lines_view(lines@), source@) == Ok::<
                (Seq<ItemView>, VarMapView),
                ParseErrorView,
            >((items_view(pr.items@), pr.variables@)),
            Err(e) => parse_spec(lines_view(lines@), source@) == Err::<
                (Seq<ItemView>, VarMapView),
                ParseErrorView,
            >(e@),
        },
{
    let ghost ls = lines_view(lines@);
    let mut p = Parser::new(source);
    let mut i: usize = 0;
    while i < lines.len()
        invariant
            i <= lines.len(),
            ls == lines_view(lines@),
            run_lines(ls, source@, PState::initial(source@), 0) == run_lines(
                ls,
                source@,
                p.st(),
                i as int,
            ),
        decreases lines.len() - i,
    {
        let line = chars_of(lines[i].as_str());
        assert(ls[i as int] == lines@[i as int]@);
        match p.step(i, &line, source) {
            Ok(()) => {},
            Err(e) => {
                return Err(e);
            },
        }
        i = i + 1;
    }
    p.flush();
    Ok(ParseResult { items: p.items, variables: p.variables })
}

} // verus!
