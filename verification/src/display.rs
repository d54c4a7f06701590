//! Terminal text layout: display widths, padding with truncation, match
//! highlighting and escape-aware wrapping.

use vstd::prelude::*;
use crate::text::{chars_of, string_of, spaces, push_spaces, extend, lines, lines_exec, view_all, is_ascii_alpha};
use crate::matcher::strings_view;

verus! {

// ---------------------------------------------------------------------------
// ANSI escape sequences.
// ---------------------------------------------------------------------------

/// A Select Graphic Rendition sequence: `ESC [ code m`.
pub open spec fn sgr(code: Seq<char>) -> Seq<char> {
    seq!['\u{1b}', '['] + code + seq!['m']
}

pub fn sgr_exec(code: &str) -> (r: Vec<char>)
    ensures
        r@ == sgr(code@),
{
    let mut r: Vec<char> = vec!['\u{1b}', '['];
    let c = chars_of(code);
    extend(&mut r, &c);
    r.push('m');
    r
}

pub open spec fn reset() -> Seq<char> {
    sgr("0"@)
}

pub open spec fn bold() -> Seq<char> {
    sgr("1"@)
}

pub open spec fn dim() -> Seq<char> {
    sgr("2"@)
}

pub open spec fn c_cyan() -> Seq<char> {
    sgr("36"@)
}

pub open spec fn c_blue() -> Seq<char> {
    sgr("34"@)
}

pub open spec fn c_green() -> Seq<char> {
    sgr("32"@)
}

pub open spec fn bg_sel() -> Seq<char> {
    sgr("48;5;236"@)
}

pub open spec fn c_gray() -> Seq<char> {
    sgr("38;5;245"@)
}

/// Yellow, for matched characters.
pub open spec fn c_match() -> Seq<char> {
    sgr("33"@)
}

// ---------------------------------------------------------------------------
// Display widths.
// ---------------------------------------------------------------------------

/// Every character is printable ASCII (U+0020 to U+007E).
pub open spec fn printable_ascii(s: Seq<char>) -> bool {
    forall|i: int| 0 <= i < s.len() ==> 0x20 <= (#[trigger] s[i] as u32) && (s[i] as u32) < 0x7f
}

/// Name for what `unicode_width::UnicodeWidthChar::width` answers for a
/// character: its column width, or `None` for a control character.
pub uninterp spec fn unicode_char_width(c: char) -> Option<usize>;

/// Name for what `unicode_width::UnicodeWidthStr::width` answers for a
/// string: its column width, which takes grapheme sequences into account
/// and so need not be the sum of the widths of its characters.
pub uninterp spec fn unicode_str_width(s: Seq<char>) -> usize;

/// Calls `UnicodeWidthChar::width`. As the crate's source shows, the code
/// points below U+0020 and from U+007F to U+009F are control characters
/// (`None`), printable ASCII is one column wide, and every other character
/// has a width of at most three columns.
#[verifier::external_body]
pub(crate) fn char_width(c: char) -> (r: Option<usize>)
    ensures
        r == unicode_char_width(c),
        r == None::<usize> <== ((c as u32) < 0x20 || (0x7f <= (c as u32) && (c as u32) < 0xa0)),
        r == Some(1usize) <== (0x20 <= (c as u32) && (c as u32) < 0x7f),
        (r is Some && r.unwrap() <= 3) <== 0xa0 <= (c as u32),
{
    unicode_width::UnicodeWidthChar::width(c)
}

/// Calls `UnicodeWidthStr::width`. The contract claims that the width is a
/// fixed function of the characters and, as the crate's source shows (each
/// printable ASCII character counts one column, whatever follows it), that
/// text of printable ASCII is as wide as it is long.
#[verifier::external_body]
pub(crate) fn str_width(s: &str) -> (r: usize)
    ensures
        r == unicode_str_width(s@),
        r == s@.len() <== printable_ascii(s@),
{
    unicode_width::UnicodeWidthStr::width(s)
}

/// The width a layout loop counts for one character: control characters
/// count as zero columns.
pub open spec fn col_width(c: char) -> int {
    match unicode_char_width(c) {
        Some(w) => w as int,
        None => 0,
    }
}

/// The column width counted for `c`, with its bound.
pub(crate) fn col_width_exec(c: char) -> (w: usize)
    ensures
        w == col_width(c),
        w <= 3,
        0x20 <= (c as u32) && (c as u32) < 0x7f ==> w == 1,
{
    match char_width(c) {
        Some(w) => w,
        None => 0,
    }
}

/// `a - b`, or zero when `b` is larger (`usize::saturating_sub`).
pub open spec fn sat_sub(a: int, b: int) -> nat {
    if a > b {
        (a - b) as nat
    } else {
        0
    }
}

// ---------------------------------------------------------------------------
// Padding with truncation.
// ---------------------------------------------------------------------------

/// How many leading characters of `s`, from position `i` with `used`
/// columns already taken, fit strictly inside `width` columns; with the
/// columns they take.
pub open spec fn fit_from(s: Seq<char>, width: int, i: int, used: int) -> (int, int)
    decreases s.len() - i,
{
    if i < 0 || i >= s.len() {
        (i, used)
    } else if used + col_width(s[i]) >= width {
        (i, used)
    } else {
        fit_from(s, width, i + 1, used + col_width(s[i]))
    }
}

/// `s`, `w` columns wide, padded with spaces to `width` columns; when it is
/// wider, the characters that fit before a final `.`, then spaces up to
/// `width`.
pub open spec fn pad_or_cut_with(s: Seq<char>, w: int, width: int) -> Seq<char> {
    if w <= width {
        s + spaces((width - w) as nat)
    } else {
        let (k, used) = fit_from(s, width, 0, 0);
        s.take(k) + seq!['.'] + spaces(sat_sub(width, used + 1))
    }
}

/// `s` padded or cut to `width` columns, by its display width.
pub open spec fn pad_or_cut(s: Seq<char>, width: int) -> Seq<char> {
    pad_or_cut_with(s, unicode_str_width(s) as int, width)
}

fn fit_prefix(v: &Vec<char>, width: usize) -> (r: (usize, usize))
    ensures
        r.0 as int == fit_from(v@, width as int, 0, 0).0,
        r.1 as int == fit_from(v@, width as int, 0, 0).1,
        r.0 <= v.len(),
        r.1 == 0 || r.1 < width,
        printable_ascii(v@) ==> r.1 == r.0,
{
    let mut i: usize = 0;
    let mut used: usize = 0;
    while i < v.len()
        invariant
            i <= v.len(),
            used <= width,
            used == 0 || used < width,
            printable_ascii(v@) ==> used == i,
            fit_from(v@, width as int, 0, 0) == fit_from(v@, width as int, i as int, used as int),
        decreases v.len() - i,
    {
        let cw = col_width_exec(v[i]);
        if cw >= width - used {
            return (i, used);
        }
        used = used + cw;
        i = i + 1;
    }
    (i, used)
}

/// Pads `text` with spaces to `width` columns, or cuts it and marks the cut
/// with `.`; printable ASCII text comes out exactly `width` characters (and
/// columns) wide.
pub fn pad_or_cut_chars(text: &Vec<char>, width: usize) -> (r: Vec<char>)
    ensures
        r@ == pad_or_cut(text@, width as int),
        printable_ascii(text@) && width >= 1 ==> r@.len() == width && printable_ascii(r@),
        width >= 1 && unicode_str_width(text@) == cols_of(text@) ==> cols_of(r@) == width,
{
    let s = string_of(text);
    let w = str_width(s.as_str());
    // The padding and the cut mark take one column each.
    let space = col_width_exec(' ');
    let mark = col_width_exec('.');
    proof {
        assert(space == col_width(' ') && mark == col_width('.'));
        if width >= 1 && unicode_str_width(text@) == cols_of(text@) {
            lemma_pad_or_cut_cols(text@, width as int);
        }
    }
    pad_or_cut_measured(text, w, width)
}

/// The columns of two texts put together add up.
proof fn lemma_cols_of_concat(a: Seq<char>, b: Seq<char>)
    ensures
        cols_of(a + b) == cols_of(a) + cols_of(b),
    decreases b.len(),
{
    if b.len() > 0 {
        lemma_cols_of_concat(a, b.drop_last());
        assert((a + b).drop_last() =~= a + b.drop_last());
    } else {
        assert(a + b =~= a);
    }
}

proof fn lemma_cols_of_spaces(n: nat)
    requires
        col_width(' ') == 1,
    ensures
        cols_of(spaces(n)) == n,
    decreases n,
{
    if n > 0 {
        lemma_cols_of_spaces((n - 1) as nat);
        assert(spaces(n).drop_last() =~= spaces((n - 1) as nat));
    }
}

/// What `fit_from` stops at: the columns of the characters taken, which
/// leave room for the cut mark.
proof fn lemma_fit_from_cols(s: Seq<char>, width: int, i: int, used: int)
    requires
        0 <= i <= s.len(),
        used == cols_of(s.take(i)),
        used + 1 <= width,
    ensures
        0 <= fit_from(s, width, i, used).0 <= s.len(),
        fit_from(s, width, i, used).1 == cols_of(s.take(fit_from(s, width, i, used).0)),
        fit_from(s, width, i, used).1 + 1 <= width,
    decreases s.len() - i,
{
    if i < s.len() && used + col_width(s[i]) < width {
        assert(s.take(i + 1).drop_last() =~= s.take(i));
        lemma_fit_from_cols(s, width, i + 1, used + col_width(s[i]));
    }
}

/// Text whose display width is the sum of its characters' widths comes out
/// of padding or cutting with characters that take exactly `width` columns.
proof fn lemma_pad_or_cut_cols(s: Seq<char>, width: int)
    requires
        width >= 1,
        unicode_str_width(s) == cols_of(s),
        col_width(' ') == 1,
        col_width('.') == 1,
    ensures
        cols_of(pad_or_cut(s, width)) == width,
{
    let w = unicode_str_width(s) as int;
    if w <= width {
        lemma_cols_of_concat(s, spaces((width - w) as nat));
        lemma_cols_of_spaces((width - w) as nat);
        assert(pad_or_cut(s, width) == s + spaces((width - w) as nat));
    } else {
        assert(s.take(0) =~= Seq::<char>::empty());
        lemma_fit_from_cols(s, width, 0, 0);
        let (k, used) = fit_from(s, width, 0, 0);
        let n = sat_sub(width, used + 1);
        lemma_cols_of_concat(s.take(k), seq!['.']);
        let mark = seq!['.'];
        assert(mark.drop_last() =~= Seq::<char>::empty());
        assert(mark.last() == '.');
        assert(cols_of(Seq::<char>::empty()) == 0);
        assert(cols_of(mark) == cols_of(mark.drop_last()) + col_width(mark.last()));
        assert(cols_of(mark) == 1);
        lemma_cols_of_concat(s.take(k) + seq!['.'], spaces(n));
        lemma_cols_of_spaces(n);
        assert(n == width - used - 1);
        assert(pad_or_cut(s, width) == s.take(k) + seq!['.'] + spaces(n));
    }
}

/// Pads `text`, `w` columns wide, with spaces to `width` columns, or cuts it
/// and marks the cut with `.`.
pub fn pad_or_cut_measured(text: &Vec<char>, w: usize, width: usize) -> (r: Vec<char>)
    ensures
        r@ == pad_or_cut_with(text@, w as int, width as int),
        printable_ascii(text@) && w == text@.len() && width >= 1 ==> r@.len() == width && printable_ascii(r@),
{
    if w <= width {
        let mut r = text.clone();
        push_spaces(&mut r, width - w);
        r
    } else {
        let (k, used) = fit_prefix(text, width);
        let mut r: Vec<char> = Vec::new();
        let mut j: usize = 0;
        while j < k
            invariant
                j <= k <= text.len(),
                r@ == text@.take(j as int),
            decreases k - j,
        {
            r.push(text[j]);
            j = j + 1;
            assert(r@ == text@.take(j as int));
        }
        r.push('.');
        let pad = width.saturating_sub(used + 1);
        push_spaces(&mut r, pad);
        r
    }
}

/// Pads `text` with spaces to `width` columns, or cuts it and marks the cut
/// with `.`.
pub fn truncate_pad(text: &str, width: usize) -> (r: String)
    ensures
        r@ == pad_or_cut(text@, width as int),
        printable_ascii(text@) && width >= 1 ==> r@.len() == width && printable_ascii(r@),
        width >= 1 && unicode_str_width(text@) == cols_of(text@) ==> cols_of(r@) == width,
{
    let v = chars_of(text);
    let r = pad_or_cut_chars(&v, width);
    string_of(&r)
}

// ---------------------------------------------------------------------------
// Highlighting matched characters.
// ---------------------------------------------------------------------------

/// The columns the characters of `s` take, one by one.
pub open spec fn cols_of(s: Seq<char>) -> int
    decreases s.len(),
{
    if s.len() == 0 {
        0
    } else {
        cols_of(s.drop_last()) + col_width(s.last())
    }
}

proof fn lemma_cols_of_nonneg(s: Seq<char>)
    ensures
        cols_of(s) >= 0,
    decreases s.len(),
{
    if s.len() > 0 {
        lemma_cols_of_nonneg(s.drop_last());
    }
}

proof fn lemma_cols_of_take_mono(s: Seq<char>, i: int, j: int)
    requires
        0 <= i <= j <= s.len(),
    ensures
        cols_of(s.take(i)) <= cols_of(s.take(j)),
    decreases j - i,
{
    if i < j {
        lemma_cols_of_take_mono(s, i, j - 1);
        assert(s.take(j).drop_last() =~= s.take(j - 1));
    }
}

/// The columns the characters of `v` take, or `None` when they are more
/// than `usize::MAX`.
fn cols_total(v: &Vec<char>) -> (r: Option<usize>)
    ensures
        match r {
            Some(t) => t as int == cols_of(v@),
            None => cols_of(v@) > usize::MAX as int,
        },
{
    let mut acc: usize = 0;
    let mut k: usize = 0;
    while k < v.len()
        invariant
            k <= v.len(),
            acc as int == cols_of(v@.take(k as int)),
        decreases v.len() - k,
    {
        let w = col_width_exec(v[k]);
        assert(v@.take(k + 1).drop_last() =~= v@.take(k as int));
        if acc > usize::MAX - w {
            proof {
                lemma_cols_of_take_mono(v@, k + 1, v@.len() as int);
                assert(v@.take(v@.len() as int) =~= v@);
            }
            return None;
        }
        acc = acc + w;
        k = k + 1;
    }
    assert(v@.take(k as int) =~= v@);
    Some(acc)
}

/// The rendering of `s` from position `i` on, with `used` columns taken
/// and `inh` telling whether a highlight is open: matched characters (their
/// index in `pos`) are shown bold yellow, the style returns to `base`
/// after each highlighted run, and the text is padded with spaces to
/// `width` columns; when `cut` (the text is wider than `width`), it is cut
/// where the next character would reach `width` and the cut marked with
/// `.`.
pub open spec fn highlight_from(
    s: Seq<char>,
    width: int,
    cut: bool,
    pos: Seq<u32>,
    base: Seq<char>,
    i: int,
    used: int,
    inh: bool,
) -> Seq<char>
    decreases s.len() - i,
{
    let close = if inh {
        reset() + base
    } else {
        Seq::<char>::empty()
    };
    if i < 0 || i >= s.len() {
        close + spaces(sat_sub(width, used))
    } else if cut && used + col_width(s[i]) >= width && used > 0 {
        close + seq!['.'] + spaces(sat_sub(width, used + 1))
    } else {
        let m = pos.contains(i as u32);
        let pre = if m && !inh {
            bold() + c_match()
        } else if !m && inh {
            reset() + base
        } else {
            Seq::<char>::empty()
        };
        pre + seq![s[i]] + highlight_from(s, width, cut, pos, base, i + 1, used + col_width(s[i]), m)
    }
}

/// `text` cut or padded to `width` columns with the characters whose
/// indices are in `pos` highlighted; text that fits in `width` columns is
/// never cut.
pub open spec fn highlighted(s: Seq<char>, width: int, pos: Seq<u32>, base: Seq<char>) -> Seq<
    char,
> {
    highlight_from(s, width, cols_of(s) > width, pos, base, 0, 0, false)
}

fn contains_u32(v: &Vec<u32>, x: u32) -> (r: bool)
    ensures
        r == v@.contains(x),
{
    let mut k: usize = 0;
    while k < v.len()
        invariant
            k <= v.len(),
            forall|j: int| 0 <= j < k ==> v@[j] != x,
        decreases v.len() - k,
    {
        if v[k] == x {
            assert(v@[k as int] == x);
            return true;
        }
        k = k + 1;
    }
    false
}

/// Truncates `text` to `width` columns, highlighting the characters whose
/// indices (in characters, not bytes) are in `positions`; after each
/// highlighted run the style returns to `base_style`.
pub fn truncate_highlight(text: &str, width: usize, positions: &Vec<u32>, base_style: &str) -> (r:
    String)
    ensures
        r@ == highlighted(text@, width as int, positions@, base_style@),
{
    let v = chars_of(text);
    let base = chars_of(base_style);
    let ghost s = v@;
    let ghost target = highlighted(s, width as int, positions@, base@);
    assert(target == highlighted(text@, width as int, positions@, base_style@));
    let cut = match cols_total(&v) {
        Some(t) => t > width,
        None => true,
    };
    let mut rst = sgr_exec("0");
    let mut bold_match = sgr_exec("1");
    let cm = sgr_exec("33");
    extend(&mut bold_match, &cm);
    let mut close = rst.clone();
    extend(&mut close, &base);
    let mut out: Vec<char> = Vec::new();
    let mut used: usize = 0;
    let mut inh = false;
    let mut i: usize = 0;
    while i < v.len()
        invariant
            i <= v.len(),
            s == v@,
            cut == (cols_of(s) > width),
            target == highlighted(text@, width as int, positions@, base_style@),
            base@ == base_style@,
            bold_match@ == bold() + c_match(),
            close@ == reset() + base@,
            used as int == cols_of(s.take(i as int)),
            cut ==> (used == 0 || used < width || used <= 3),
            !cut ==> cols_of(s) <= width,
            out@ + highlight_from(s, width as int, cut, positions@, base@, i as int, used as int, inh)
                == target,
        decreases v.len() - i,
    {
        let c = v[i];
        let cw = col_width_exec(c);
        if cut && used > 0 && (used >= width || cw >= width - used) {
            if inh {
                extend(&mut out, &close);
            }
            out.push('.');
            let pad = width.saturating_sub(used + 1);
            push_spaces(&mut out, pad);
            proof {
                let cl = if inh { reset() + base@ } else { Seq::<char>::empty() };
                assert(highlight_from(s, width as int, cut, positions@, base@, i as int, used as int, inh)
                    == cl + seq!['.'] + spaces(sat_sub(width as int, used + 1)));
                assert(out@ == target);
            }
            return string_of(&out);
        }
        let m = contains_u32(positions, #[verifier::truncate] (i as u32));
        let ghost pre = if m && !inh {
            bold() + c_match()
        } else if !m && inh {
            reset() + base@
        } else {
            Seq::<char>::empty()
        };
        let ghost old_out = out@;
        if m && !inh {
            extend(&mut out, &bold_match);
        } else if !m && inh {
            extend(&mut out, &close);
        }
        out.push(c);
        proof {
            assert(out@ == old_out + pre + seq![c]);
            assert(highlight_from(s, width as int, cut, positions@, base@, i as int, used as int, inh)
                == pre + seq![c] + highlight_from(s, width as int, cut, positions@, base@, i + 1, used + cw, m));
            assert(out@ + highlight_from(s, width as int, cut, positions@, base@, i + 1, used + cw, m)
                =~= old_out + (pre + seq![c] + highlight_from(s, width as int, cut, positions@, base@, i + 1, used + cw, m)));
            assert(s.take(i + 1).drop_last() =~= s.take(i as int));
            if !cut {
                lemma_cols_of_take_mono(s, i + 1, s.len() as int);
                assert(s.take(s.len() as int) =~= s);
            }
        }
        used = used + cw;
        inh = m;
        i = i + 1;
    }
    let ghost old_out = out@;
    if inh {
        extend(&mut out, &close);
    }
    let pad = width.saturating_sub(used);
    push_spaces(&mut out, pad);
    proof {
        let cl = if inh { reset() + base@ } else { Seq::<char>::empty() };
        assert(out@ =~= old_out + (cl + spaces(sat_sub(width as int, used as int))));
    }
    string_of(&out)
}

// ---------------------------------------------------------------------------
// Wrapping.
// ---------------------------------------------------------------------------

/// The pieces `line` is wrapped into, scanning from `i` with the current
/// piece `cur` taking `used` columns; `esc` tells whether an escape
/// sequence is open. Escape sequences (from `ESC` to the next ASCII letter)
/// take no columns; a piece is closed before a character that would take
/// it past `width`, unless the piece is still empty of columns.
pub open spec fn wrap_scan(
    line: Seq<char>,
    width: int,
    i: int,
    cur: Seq<char>,
    used: int,
    esc: bool,
) -> Seq<Seq<char>>
    decreases line.len() - i,
{
    if i < 0 || i >= line.len() {
        seq![cur]
    } else {
        let c = line[i];
        if c == '\u{1b}' {
            wrap_scan(line, width, i + 1, cur.push(c), used, true)
        } else if esc {
            wrap_scan(line, width, i + 1, cur.push(c), used, !is_ascii_alpha(c))
        } else if used + col_width(c) > width && used > 0 {
            seq![cur] + wrap_scan(line, width, i + 1, seq![c], col_width(c), false)
        } else {
            wrap_scan(line, width, i + 1, cur.push(c), used + col_width(c), false)
        }
    }
}

/// The pieces one line is wrapped into (the line itself for width 0).
pub open spec fn wrap_line(line: Seq<char>, width: int) -> Seq<Seq<char>> {
    if width == 0 {
        seq![line]
    } else {
        wrap_scan(line, width, 0, Seq::empty(), 0, false)
    }
}

/// The pieces of all the given lines, in order.
pub open spec fn wrap_all(ls: Seq<Seq<char>>, width: int) -> Seq<Seq<char>>
    decreases ls.len(),
{
    if ls.len() == 0 {
        Seq::empty()
    } else {
        wrap_all(ls.drop_last(), width) + wrap_line(ls.last(), width)
    }
}

/// `text` split into lines (`str::lines`), each wrapped to `width` columns.
pub open spec fn wrapped(text: Seq<char>, width: int) -> Seq<Seq<char>> {
    wrap_all(lines(text), width)
}

fn is_ascii_alpha_exec(c: char) -> (r: bool)
    ensures
        r == is_ascii_alpha(c),
{
    let x = c as u32;
    (65 <= x && x <= 90) || (97 <= x && x <= 122)
}

fn wrap_line_exec(line: &Vec<char>, width: usize) -> (r: Vec<String>)
    ensures
        strings_view(r@) == wrap_line(line@, width as int),
{
    let mut r: Vec<String> = Vec::new();
    if width == 0 {
        r.push(string_of(line));
        assert(strings_view(r@) =~= seq![line@]);
        return r;
    }
    let ghost l = line@;
    let ghost target = wrap_line(l, width as int);
    let mut cur: Vec<char> = Vec::new();
    let mut used: usize = 0;
    let mut esc = false;
    let mut i: usize = 0;
    while i < line.len()
        invariant
            i <= line.len(),
            l == line@,
            width > 0,
            target == wrap_scan(l, width as int, 0, Seq::empty(), 0, false),
            used <= width || used <= 3,
            strings_view(r@) + wrap_scan(l, width as int, i as int, cur@, used as int, esc) == target,
        decreases line.len() - i,
    {
        let c = line[i];
        let ghost before = strings_view(r@);
        if c == '\u{1b}' {
            cur.push(c);
            esc = true;
        } else if esc {
            cur.push(c);
            if is_ascii_alpha_exec(c) {
                esc = false;
            }
        } else {
            let cw = col_width_exec(c);
            if used > 0 && (used > width || cw > width - used) {
                let ghost old_cur = cur@;
                let piece = string_of(&cur);
                r.push(piece);
                proof {
                    assert(strings_view(r@) =~= before.push(cur@));
                }
                cur = Vec::new();
                cur.push(c);
                assert(cur@ =~= seq![c]);
                used = cw;
                proof {
                    assert(strings_view(r@) + wrap_scan(l, width as int, i + 1, cur@, used as int, false)
                        =~= before + (seq![old_cur] + wrap_scan(l, width as int, i + 1, seq![c], cw as int, false)));
                }
            } else {
                cur.push(c);
                used = used + cw;
            }
        }
        i = i + 1;
    }
    let ghost before = strings_view(r@);
    r.push(string_of(&cur));
    assert(strings_view(r@) =~= before + seq![cur@]);
    r
}

/// Splits `text` into lines and wraps each to `width` columns (`width` 0
/// leaves the lines whole). Escape sequences take no columns.
pub fn wrap_lines(text: &str, width: usize) -> (r: Vec<String>)
    ensures
        strings_view(r@) == wrapped(text@, width as int),
{
    let v = chars_of(text);
    let ls = lines_exec(&v);
    let ghost lv = lines(text@);
    let mut r: Vec<String> = Vec::new();
    let mut k: usize = 0;
    while k < ls.len()
        invariant
            k <= ls.len(),
            view_all(ls@) == lv,
            strings_view(r@) == wrap_all(lv.take(k as int), width as int),
        decreases ls.len() - k,
    {
        let pieces = wrap_line_exec(&ls[k], width);
        let ghost before = strings_view(r@);
        let mut j: usize = 0;
        while j < pieces.len()
            invariant
                j <= pieces.len(),
                strings_view(r@) == before + strings_view(pieces@).take(j as int),
            decreases pieces.len() - j,
        {
            let ghost b2 = strings_view(r@);
            r.push(pieces[j].clone());
            assert(strings_view(r@) =~= b2.push(pieces@[j as int]@));
            assert(strings_view(pieces@).take(j + 1) =~= strings_view(pieces@).take(j as int).push(pieces@[j as int]@));
            j = j + 1;
        }
        proof {
            assert(strings_view(pieces@).take(j as int) =~= strings_view(pieces@));
            assert(lv.take(k + 1).drop_last() =~= lv.take(k as int));
            assert(lv.take(k + 1).last() == ls@[k as int]@);
        }
        k = k + 1;
    }
    assert(lv.take(k as int) =~= lv);
    r
}

} // verus!
