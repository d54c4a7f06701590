//! One frame of the picker: the prompt line, the list of matches (plain or
//! in tricks columns), the preview pane and the cursor position, as the
//! text written to the terminal in one go.

use vstd::prelude::*;
use crate::display::{
    bg_sel, bold, c_blue, c_cyan, c_gray, c_green, dim, highlighted, pad_or_cut, pad_or_cut_chars,
    reset, sat_sub, sgr_exec, truncate_highlight, unicode_str_width, str_width, wrapped, wrap_lines,
};
use crate::matcher::{strings_view, MatchResult};
use crate::picker::{min_int, max_int, utf8_len, PickerState, StateView, TrickEntry, TricksDisplay};
use crate::text::{chars_of, decimal, decimal_chars, extend, lines, lines_exec, string_of, view_all};

verus! {

/// Clear to the end of the line, then a new line.
pub open spec fn eol() -> Seq<char> {
    "\x1b[K\r\n"@
}

fn eol_exec() -> (r: Vec<char>)
    ensures
        r@ == eol(),
{
    chars_of("\x1b[K\r\n")
}

/// The prompt line: the cursor moved to the origin row, the prompt and the
/// walk status in bold green, the match and item counts and the query.
pub open spec fn header(
    origin_row: int,
    prompt: Seq<char>,
    walk_done: bool,
    nm: int,
    ni: int,
    query: Seq<char>,
) -> Seq<char> {
    "\x1b["@ + decimal((origin_row + 1) as nat) + ";1H"@ + bold() + c_green() + prompt + seq![
        if walk_done {
            ' '
        } else {
            '*'
        },
    ] + reset() + " "@ + decimal(nm as nat) + "/"@ + decimal(ni as nat) + ">  "@ + query + eol()
}

fn header_exec(
    origin_row: usize,
    prompt: &str,
    walk_done: bool,
    nm: usize,
    ni: usize,
    query: &Vec<char>,
) -> (r: Vec<char>)
    requires
        origin_row < usize::MAX,
    ensures
        r@ == header(origin_row as int, prompt@, walk_done, nm as int, ni as int, query@),
{
    let mut r = chars_of("\x1b[");
    extend(&mut r, &decimal_chars(origin_row + 1));
    extend(&mut r, &chars_of(";1H"));
    extend(&mut r, &sgr_exec("1"));
    extend(&mut r, &sgr_exec("32"));
    extend(&mut r, &chars_of(prompt));
    r.push(
        if walk_done {
            ' '
        } else {
            '*'
        },
    );
    extend(&mut r, &sgr_exec("0"));
    extend(&mut r, &chars_of(" "));
    extend(&mut r, &decimal_chars(nm));
    extend(&mut r, &chars_of("/"));
    extend(&mut r, &decimal_chars(ni));
    extend(&mut r, &chars_of(">  "));
    extend(&mut r, query);
    extend(&mut r, &eol_exec());
    r
}

/// A row of the plain list: `> ` and the selection colours for the
/// selected row, two spaces otherwise; the text cut or padded to the width
/// left, with its matched characters highlighted when there are any.
pub open spec fn plain_row(text: Seq<char>, pos: Seq<u32>, is_sel: bool, cols: int) -> Seq<char> {
    let avail = sat_sub(cols, 3) as int;
    let sel_style = bg_sel() + bold() + c_green();
    let display = if pos.len() == 0 {
        pad_or_cut(text, avail)
    } else if is_sel {
        highlighted(text, avail, pos, sel_style)
    } else {
        highlighted(text, avail, pos, reset())
    };
    if is_sel {
        sel_style + "> "@ + display + "\x1b[K"@ + reset() + "\r\n"@
    } else {
        "  "@ + display + "\x1b[K"@ + reset() + "\r\n"@
    }
}

fn plain_row_exec(text: &str, pos: &Vec<u32>, is_sel: bool, cols: usize) -> (r: Vec<char>)
    ensures
        r@ == plain_row(text@, pos@, is_sel, cols as int),
{
    let avail = cols.saturating_sub(3);
    let mut sel_style = sgr_exec("48;5;236");
    extend(&mut sel_style, &sgr_exec("1"));
    extend(&mut sel_style, &sgr_exec("32"));
    let display = if pos.len() == 0 {
        pad_or_cut_chars(&chars_of(text), avail)
    } else if is_sel {
        let base = string_of(&sel_style);
        chars_of(truncate_highlight(text, avail, pos, base.as_str()).as_str())
    } else {
        let base = string_of(&sgr_exec("0"));
        chars_of(truncate_highlight(text, avail, pos, base.as_str()).as_str())
    };
    let mut r = if is_sel {
        let mut r = sel_style.clone();
        extend(&mut r, &chars_of("> "));
        r
    } else {
        chars_of("  ")
    };
    extend(&mut r, &display);
    extend(&mut r, &chars_of("\x1b[K"));
    extend(&mut r, &sgr_exec("0"));
    extend(&mut r, &chars_of("\r\n"));
    r
}

/// A row of the tricks list: tags, comment and snippet preview, each cut or
/// padded to its column, in the selection colours when selected.
pub open spec fn trick_row(e: TrickEntry, is_sel: bool, tw: int, cw: int, sw: int) -> Seq<char> {
    let t = pad_or_cut(e.tags@, tw);
    let c = pad_or_cut(e.comment@, cw);
    let s = pad_or_cut(e.snippet_preview@, sw);
    if is_sel {
        bg_sel() + bold() + c_cyan() + t + reset() + bg_sel() + " "@ + bold() + c_blue() + c + reset()
            + bg_sel() + " "@ + bold() + s + "\x1b[K"@ + reset() + "\r\n"@
    } else {
        c_cyan() + t + reset() + " "@ + c_blue() + c + reset() + " "@ + dim() + s + reset() + eol()
    }
}

fn trick_row_exec(e: &TrickEntry, is_sel: bool, tw: usize, cw: usize, sw: usize) -> (r: Vec<char>)
    ensures
        r@ == trick_row(*e, is_sel, tw as int, cw as int, sw as int),
{
    let t = pad_or_cut_chars(&chars_of(e.tags.as_str()), tw);
    let c = pad_or_cut_chars(&chars_of(e.comment.as_str()), cw);
    let s = pad_or_cut_chars(&chars_of(e.snippet_preview.as_str()), sw);
    if is_sel {
        let mut r = sgr_exec("48;5;236");
        extend(&mut r, &sgr_exec("1"));
        extend(&mut r, &sgr_exec("36"));
        extend(&mut r, &t);
        extend(&mut r, &sgr_exec("0"));
        extend(&mut r, &sgr_exec("48;5;236"));
        extend(&mut r, &chars_of(" "));
        extend(&mut r, &sgr_exec("1"));
        extend(&mut r, &sgr_exec("34"));
        extend(&mut r, &c);
        extend(&mut r, &sgr_exec("0"));
        extend(&mut r, &sgr_exec("48;5;236"));
        extend(&mut r, &chars_of(" "));
        extend(&mut r, &sgr_exec("1"));
        extend(&mut r, &s);
        extend(&mut r, &chars_of("\x1b[K"));
        extend(&mut r, &sgr_exec("0"));
        extend(&mut r, &chars_of("\r\n"));
        r
    } else {
        let mut r = sgr_exec("36");
        extend(&mut r, &t);
        extend(&mut r, &sgr_exec("0"));
        extend(&mut r, &chars_of(" "));
        extend(&mut r, &sgr_exec("34"));
        extend(&mut r, &c);
        extend(&mut r, &sgr_exec("0"));
        extend(&mut r, &chars_of(" "));
        extend(&mut r, &sgr_exec("2"));
        extend(&mut r, &s);
        extend(&mut r, &sgr_exec("0"));
        extend(&mut r, &eol_exec());
        r
    }
}

/// The row drawn for the match at position `i`.
pub open spec fn row_at(
    ms: Seq<MatchResult>,
    items: Seq<String>,
    tricks: Option<TricksDisplay>,
    w: (int, int, int),
    sel: int,
    cols: int,
    i: int,
) -> Seq<char> {
    let m = ms[i];
    match tricks {
        Some(td) => if m.index < td.entries@.len() {
            trick_row(td.entries@[m.index as int], i == sel, w.0, w.1, w.2)
        } else {
            eol()
        },
        None => plain_row(
            if m.index < items.len() {
                items[m.index as int]@
            } else {
                Seq::empty()
            },
            m.positions@,
            i == sel,
            cols,
        ),
    }
}

/// The rows drawn for the matches at positions `from` to `to` (excluded).
pub open spec fn rows_between(
    ms: Seq<MatchResult>,
    items: Seq<String>,
    tricks: Option<TricksDisplay>,
    w: (int, int, int),
    sel: int,
    cols: int,
    from: int,
    to: int,
) -> Seq<char>
    decreases to - from,
{
    if to <= from {
        Seq::empty()
    } else {
        rows_between(ms, items, tricks, w, sel, cols, from, to - 1) + row_at(ms, items, tricks, w, sel, cols, to - 1)
    }
}

/// `s` repeated `n` times.
pub open spec fn repeat(s: Seq<char>, n: nat) -> Seq<char>
    decreases n,
{
    if n == 0 {
        Seq::empty()
    } else {
        repeat(s, (n - 1) as nat) + s
    }
}

fn push_repeat(r: &mut Vec<char>, s: &Vec<char>, n: usize)
    ensures
        final(r)@ == old(r)@ + repeat(s@, n as nat),
{
    let mut k: usize = 0;
    while k < n
        invariant
            k <= n,
            r@ == old(r)@ + repeat(s@, k as nat),
        decreases n - k,
    {
        extend(r, s);
        k = k + 1;
        assert(r@ =~= old(r)@ + repeat(s@, k as nat));
    }
}

/// The widest tag column among the entries of the matches, if any match
/// has an entry.
pub open spec fn max_tag_width(es: Seq<TrickEntry>, ms: Seq<MatchResult>) -> Option<int>
    decreases ms.len(),
{
    if ms.len() == 0 {
        None
    } else {
        let rest = max_tag_width(es, ms.drop_last());
        let m = ms.last();
        if m.index < es.len() {
            let w = unicode_str_width(es[m.index as int].tags@) as int;
            match rest {
                Some(r) => Some(max_int(r, w)),
                None => Some(w),
            }
        } else {
            rest
        }
    }
}

/// Tag, comment and snippet column widths on a terminal of `cols` columns:
/// tags get their widest value plus two, at most a third of the terminal
/// and at least 4; comments 55% of the rest, at least 10; snippets what is
/// left after two separators.
pub open spec fn column_widths(max_tag: int, cols: int) -> (int, int, int) {
    let tag_w = max_int(min_int(max_tag + 2, cols / 3), 4);
    let remaining = sat_sub(cols, tag_w + 4) as int;
    let comment_w = max_int(remaining * 55 / 100, 10);
    let snippet_w = sat_sub(remaining, comment_w + 2) as int;
    (tag_w, comment_w, snippet_w)
}

fn column_widths_exec(max_tag: usize, cols: usize) -> (r: (usize, usize, usize))
    ensures
        (r.0 as int, r.1 as int, r.2 as int) == column_widths(max_tag as int, cols as int),
{
    let a = max_tag.saturating_add(2);
    let third = cols / 3;
    let m = if a <= third {
        a
    } else {
        third
    };
    let tag_w = if m >= 4 {
        m
    } else {
        4
    };
    let remaining = cols.saturating_sub(tag_w + 4);
    let q = remaining / 100;
    let s = remaining % 100;
    let part = q * 55 + s * 55 / 100;
    assert(part == remaining as int * 55 / 100) by (nonlinear_arith)
        requires
            q == remaining as int / 100,
            s == remaining as int % 100,
            part == q * 55 + s * 55 / 100,
            remaining >= 0,
    ;
    let comment_w = if part >= 10 {
        part
    } else {
        10
    };
    let snippet_w = remaining.saturating_sub(comment_w + 2);
    (tag_w, comment_w, snippet_w)
}

/// What is kept from one frame to the next: the tricks column widths and
/// the match count and terminal width they were computed for.
pub struct DrawState {
    pub col_widths: Option<(usize, usize, usize)>,
    pub col_widths_match_count: usize,
    pub col_widths_cols: usize,
}

impl DrawState {
    pub fn new() -> (r: DrawState)
        ensures
            r.col_widths is None,
            r.col_widths_match_count == 0,
            r.col_widths_cols == 0,
    {
        DrawState { col_widths: None, col_widths_match_count: 0, col_widths_cols: 0 }
    }
}

/// Whether the kept widths are reused: they exist and were computed for the
/// same number of matches and the same terminal width.
pub open spec fn widths_kept(ds: DrawState, nm: int, cols: int) -> bool {
    ds.col_widths is Some && ds.col_widths_match_count == nm && ds.col_widths_cols == cols
}

/// The column widths a tricks frame uses.
pub open spec fn frame_widths(ds: DrawState, es: Seq<TrickEntry>, ms: Seq<MatchResult>, cols: int) -> (
    int,
    int,
    int,
) {
    if widths_kept(ds, ms.len() as int, cols) {
        let w = ds.col_widths->0;
        (w.0 as int, w.1 as int, w.2 as int)
    } else {
        column_widths(
            match max_tag_width(es, ms) {
                Some(w) => w,
                None => 4,
            },
            cols,
        )
    }
}

fn max_tag_width_exec(es: &Vec<TrickEntry>, ms: &Vec<MatchResult>) -> (r: Option<usize>)
    ensures
        match r {
            Some(w) => max_tag_width(es@, ms@) == Some(w as int),
            None => max_tag_width(es@, ms@) is None,
        },
{
    let mut best: Option<usize> = None;
    let mut k: usize = 0;
    while k < ms.len()
        invariant
            k <= ms.len(),
            match best {
                Some(w) => max_tag_width(es@, ms@.take(k as int)) == Some(w as int),
                None => max_tag_width(es@, ms@.take(k as int)) is None,
            },
        decreases ms.len() - k,
    {
        assert(ms@.take(k + 1).drop_last() =~= ms@.take(k as int));
        let idx = ms[k].index;
        if idx < es.len() {
            let w = str_width(es[idx].tags.as_str());
            best = match best {
                Some(b) => Some(
                    if b >= w {
                        b
                    } else {
                        w
                    },
                ),
                None => Some(w),
            };
        }
        k = k + 1;
    }
    assert(ms@.take(k as int) =~= ms@);
    best
}

/// The widths for a tricks frame, kept or computed afresh; computed ones
/// are kept for the next frame.
fn widths_for_frame(ds: &mut DrawState, es: &Vec<TrickEntry>, ms: &Vec<MatchResult>, cols: usize) -> (r: (
    usize,
    usize,
    usize,
))
    ensures
        (r.0 as int, r.1 as int, r.2 as int) == frame_widths(*old(ds), es@, ms@, cols as int),
        widths_kept(*old(ds), ms@.len() as int, cols as int) ==> *final(ds) == *old(ds),
        !widths_kept(*old(ds), ms@.len() as int, cols as int) ==> *final(ds) == (DrawState {
            col_widths: Some(r),
            col_widths_match_count: ms@.len() as usize,
            col_widths_cols: cols,
        }),
{
    if ds.col_widths.is_some() && ds.col_widths_match_count == ms.len() && ds.col_widths_cols == cols {
        match ds.col_widths {
            Some(w) => w,
            None => (0, 0, 0),
        }
    } else {
        let mt = match max_tag_width_exec(es, ms) {
            Some(w) => w,
            None => 4,
        };
        let w = column_widths_exec(mt, cols);
        ds.col_widths = Some(w);
        ds.col_widths_match_count = ms.len();
        ds.col_widths_cols = cols;
        w
    }
}

fn row_at_exec(
    ms: &Vec<MatchResult>,
    items: &Vec<String>,
    tricks: &Option<TricksDisplay>,
    w: (usize, usize, usize),
    sel: usize,
    cols: usize,
    i: usize,
) -> (r: Vec<char>)
    requires
        i < ms.len(),
    ensures
        r@ == row_at(ms@, items@, *tricks, (w.0 as int, w.1 as int, w.2 as int), sel as int, cols as int, i as int),
{
    let m = &ms[i];
    match tricks {
        Some(td) => {
            if m.index < td.entries.len() {
                trick_row_exec(&td.entries[m.index], i == sel, w.0, w.1, w.2)
            } else {
                eol_exec()
            }
        },
        None => {
            if m.index < items.len() {
                plain_row_exec(items[m.index].as_str(), &m.positions, i == sel, cols)
            } else {
                let empty = String::new();
                plain_row_exec(empty.as_str(), &m.positions, i == sel, cols)
            }
        },
    }
}

// ---------------------------------------------------------------------------
// The preview pane.
// ---------------------------------------------------------------------------

pub open spec fn gray_row(l: Seq<char>) -> Seq<char> {
    c_gray() + l + reset() + eol()
}

pub open spec fn snippet_row(l: Seq<char>) -> Seq<char> {
    l + reset() + eol()
}

/// The wrapped pieces of each of the lines, in order.
pub open spec fn wrap_each(ls: Seq<Seq<char>>, cols: int) -> Seq<Seq<char>>
    decreases ls.len(),
{
    if ls.len() == 0 {
        Seq::empty()
    } else {
        wrap_each(ls.drop_last(), cols) + wrapped(ls.last(), cols)
    }
}

/// The rows of the preview of an entry, at most `h` of them: the comment,
/// the wrapped detail lines in gray, an empty row, and the wrapped snippet
/// lines.
pub open spec fn preview_rows(e: TrickEntry, cols: int, h: int) -> Seq<Seq<char>> {
    let first = seq![bold() + c_blue() + pad_or_cut(e.comment@, cols) + reset() + eol()];
    let dl = match e.detail {
        Some(d) => wrapped(d@, cols),
        None => Seq::<Seq<char>>::empty(),
    };
    let a = first + dl.take(min_int(dl.len() as int, h - 1)).map_values(|l: Seq<char>| gray_row(l));
    let b = if a.len() < h {
        a.push(eol())
    } else {
        a
    };
    let sp = wrap_each(lines(e.snippet_full@), cols);
    b + sp.take(min_int(sp.len() as int, h - b.len())).map_values(|l: Seq<char>| snippet_row(l))
}

/// The rows joined.
pub open spec fn concat_rows(rs: Seq<Seq<char>>) -> Seq<char>
    decreases rs.len(),
{
    if rs.len() == 0 {
        Seq::empty()
    } else {
        concat_rows(rs.drop_last()) + rs.last()
    }
}

/// The preview pane: a separator line, the rows of the selected match's
/// entry, and empty rows up to the pane's height.
pub open spec fn preview(td: TricksDisplay, ms: Seq<MatchResult>, sel: int, cols: int) -> Seq<char> {
    let h = td.preview_height as int;
    if h == 0 {
        Seq::empty()
    } else {
        let sep = dim() + repeat(seq!['\u{2500}'], cols as nat) + reset() + "\r\n"@;
        let rows = if 0 <= sel < ms.len() && ms[sel].index < td.entries@.len() {
            preview_rows(td.entries@[ms[sel].index as int], cols, h)
        } else {
            Seq::empty()
        };
        sep + concat_rows(rows) + repeat(eol(), sat_sub(h, rows.len() as int))
    }
}

fn concat_rows_exec(rows: &Vec<Vec<char>>) -> (r: Vec<char>)
    ensures
        r@ == concat_rows(view_all(rows@)),
{
    let mut r: Vec<char> = Vec::new();
    let mut k: usize = 0;
    while k < rows.len()
        invariant
            k <= rows.len(),
            r@ == concat_rows(view_all(rows@).take(k as int)),
        decreases rows.len() - k,
    {
        extend(&mut r, &rows[k]);
        assert(view_all(rows@).take(k + 1).drop_last() =~= view_all(rows@).take(k as int));
        k = k + 1;
    }
    assert(view_all(rows@).take(k as int) =~= view_all(rows@));
    r
}

fn strings_to_rows(v: &Vec<String>) -> (r: Vec<Vec<char>>)
    ensures
        view_all(r@) == strings_view(v@),
{
    let mut r: Vec<Vec<char>> = Vec::new();
    let mut k: usize = 0;
    while k < v.len()
        invariant
            k <= v.len(),
            view_all(r@) == strings_view(v@).take(k as int),
        decreases v.len() - k,
    {
        let ghost before = r@;
        let x = chars_of(v[k].as_str());
        r.push(x);
        assert(view_all(r@) =~= view_all(before).push(x@));
        assert(strings_view(v@).take(k + 1) =~= strings_view(v@).take(k as int).push(v@[k as int]@));
        k = k + 1;
    }
    assert(strings_view(v@).take(k as int) =~= strings_view(v@));
    r
}

fn wrap_each_exec(ls: &Vec<Vec<char>>, cols: usize) -> (r: Vec<Vec<char>>)
    ensures
        view_all(r@) == wrap_each(view_all(ls@), cols as int),
{
    let mut r: Vec<Vec<char>> = Vec::new();
    let mut k: usize = 0;
    while k < ls.len()
        invariant
            k <= ls.len(),
            view_all(r@) == wrap_each(view_all(ls@).take(k as int), cols as int),
        decreases ls.len() - k,
    {
        let line = string_of(&ls[k]);
        let pieces = strings_to_rows(&wrap_lines(line.as_str(), cols));
        let ghost before = view_all(r@);
        let mut j: usize = 0;
        while j < pieces.len()
            invariant
                j <= pieces.len(),
                view_all(r@) == before + view_all(pieces@).take(j as int),
            decreases pieces.len() - j,
        {
            let ghost b2 = r@;
            r.push(pieces[j].clone());
            assert(view_all(r@) =~= view_all(b2).push(pieces@[j as int]@));
            assert(view_all(pieces@).take(j + 1) =~= view_all(pieces@).take(j as int).push(pieces@[j as int]@));
            j = j + 1;
        }
        assert(view_all(pieces@).take(j as int) =~= view_all(pieces@));
        assert(view_all(ls@).take(k + 1).drop_last() =~= view_all(ls@).take(k as int));
        k = k + 1;
    }
    assert(view_all(ls@).take(k as int) =~= view_all(ls@));
    r
}

fn preview_rows_exec(e: &TrickEntry, cols: usize, h: usize) -> (r: Vec<Vec<char>>)
    requires
        h >= 1,
    ensures
        view_all(r@) == preview_rows(*e, cols as int, h as int),
        r@.len() <= h,
{
    let mut first = sgr_exec("1");
    extend(&mut first, &sgr_exec("34"));
    extend(&mut first, &pad_or_cut_chars(&chars_of(e.comment.as_str()), cols));
    extend(&mut first, &sgr_exec("0"));
    extend(&mut first, &eol_exec());
    let ghost fv = first@;
    let mut rows: Vec<Vec<char>> = Vec::new();
    rows.push(first);
    let dl: Vec<Vec<char>> = match &e.detail {
        Some(d) => strings_to_rows(&wrap_lines(d.as_str(), cols)),
        None => Vec::new(),
    };
    let ghost dlv = match &e.detail {
        Some(d) => wrapped(d@, cols as int),
        None => Seq::<Seq<char>>::empty(),
    };
    assert(view_all(dl@) =~= dlv);
    assert(view_all(rows@) =~= seq![fv]);
    let mut k: usize = 0;
    while k < dl.len() && rows.len() < h
        invariant
            k <= dl.len(),
            rows@.len() == k + 1,
            k + 1 <= h,
            view_all(dl@) == dlv,
            view_all(rows@) == seq![fv] + dlv.take(k as int).map_values(|l: Seq<char>| gray_row(l)),
        decreases dl.len() - k,
    {
        let mut row = sgr_exec("38;5;245");
        extend(&mut row, &dl[k]);
        extend(&mut row, &sgr_exec("0"));
        extend(&mut row, &eol_exec());
        let ghost before = rows@;
        let ghost rv = row@;
        rows.push(row);
        assert(view_all(rows@) =~= view_all(before).push(rv));
        assert(dlv.take(k + 1).map_values(|l: Seq<char>| gray_row(l)) =~= dlv.take(k as int).map_values(
            |l: Seq<char>| gray_row(l),
        ).push(gray_row(dlv[k as int])));
        k = k + 1;
    }
    assert(k as int == min_int(dlv.len() as int, h - 1));
    if rows.len() < h {
        let ghost before = rows@;
        let ev = eol_exec();
        rows.push(ev);
        assert(view_all(rows@) =~= view_all(before).push(eol()));
    }
    let ghost bv = view_all(rows@);
    let ls = lines_exec(&chars_of(e.snippet_full.as_str()));
    let sp = wrap_each_exec(&ls, cols);
    let ghost spv = wrap_each(lines(e.snippet_full@), cols as int);
    assert(view_all(sp@) == spv);
    let mut j: usize = 0;
    while j < sp.len() && rows.len() < h
        invariant
            j <= sp.len(),
            view_all(sp@) == spv,
            rows@.len() == bv.len() + j,
            rows@.len() <= h,
            view_all(rows@) == bv + spv.take(j as int).map_values(|l: Seq<char>| snippet_row(l)),
        decreases sp.len() - j,
    {
        let mut row = sp[j].clone();
        extend(&mut row, &sgr_exec("0"));
        extend(&mut row, &eol_exec());
        let ghost before = rows@;
        let ghost rv = row@;
        rows.push(row);
        assert(view_all(rows@) =~= view_all(before).push(rv));
        assert(spv.take(j + 1).map_values(|l: Seq<char>| snippet_row(l)) =~= spv.take(j as int).map_values(
            |l: Seq<char>| snippet_row(l),
        ).push(snippet_row(spv[j as int])));
        j = j + 1;
    }
    assert(j as int == min_int(spv.len() as int, h - bv.len()));
    rows
}

fn preview_exec(td: &TricksDisplay, ms: &Vec<MatchResult>, sel: usize, cols: usize) -> (r: Vec<char>)
    ensures
        r@ == preview(*td, ms@, sel as int, cols as int),
{
    let h = td.preview_height;
    if h == 0 {
        return Vec::new();
    }
    let mut r = sgr_exec("2");
    let bar: Vec<char> = vec!['\u{2500}'];
    assert(bar@ =~= seq!['\u{2500}']);
    push_repeat(&mut r, &bar, cols);
    extend(&mut r, &sgr_exec("0"));
    extend(&mut r, &chars_of("\r\n"));
    let rows: Vec<Vec<char>> = if sel < ms.len() && ms[sel].index < td.entries.len() {
        preview_rows_exec(&td.entries[ms[sel].index], cols, h)
    } else {
        Vec::new()
    };
    let ghost rv = if sel < ms@.len() && ms@[sel as int].index < td.entries@.len() {
        preview_rows(td.entries@[ms@[sel as int].index as int], cols as int, h as int)
    } else {
        Seq::<Seq<char>>::empty()
    };
    assert(view_all(rows@) =~= rv);
    extend(&mut r, &concat_rows_exec(&rows));
    push_repeat(&mut r, &eol_exec(), h - rows.len());
    r
}

// ---------------------------------------------------------------------------
// The cursor and the whole frame.
// ---------------------------------------------------------------------------

/// The column of the cursor on the prompt line: the prompt's bytes, two
/// for the status and space, the `matches/items` counter, three for `>  `,
/// the width of the query before the cursor, one-based; capped at
/// `usize::MAX`.
pub open spec fn cursor_col(prompt: Seq<char>, nm: int, ni: int, query: Seq<char>, qpos: int) -> int {
    min_int(
        utf8_len(prompt) + 2 + (decimal(nm as nat).len() + 1 + decimal(ni as nat).len()) + 3
            + unicode_str_width(query.take(min_int(qpos, query.len() as int))) + 1,
        usize::MAX as int,
    )
}

pub open spec fn cursor_line(origin_row: int, col: int) -> Seq<char> {
    "\x1b["@ + decimal((origin_row + 1) as nat) + ";"@ + decimal(col as nat) + "H"@ + "\x1b[?25h"@
}

fn sat_add(a: usize, b: usize) -> (r: usize)
    ensures
        r == min_int(a + b, usize::MAX as int),
{
    if a > usize::MAX - b {
        usize::MAX
    } else {
        a + b
    }
}

fn utf8_len_capped(v: &Vec<char>) -> (r: usize)
    ensures
        r == min_int(utf8_len(v@), usize::MAX as int),
{
    let mut acc: usize = 0;
    let mut k: usize = 0;
    while k < v.len()
        invariant
            k <= v.len(),
            acc == min_int(utf8_len(v@.take(k as int)), usize::MAX as int),
        decreases v.len() - k,
    {
        let x = v[k] as u32;
        let w: usize = if x < 0x80 {
            1
        } else if x < 0x800 {
            2
        } else if x < 0x10000 {
            3
        } else {
            4
        };
        assert(v@.take(k + 1).drop_last() =~= v@.take(k as int));
        proof {
            crate::picker::lemma_utf8_len_nonneg(v@.take(k as int));
        }
        acc = sat_add(acc, w);
        k = k + 1;
    }
    assert(v@.take(k as int) =~= v@);
    acc
}

fn cursor_col_exec(prompt: &str, nm: usize, ni: usize, query: &Vec<char>, qpos: usize) -> (r: usize)
    ensures
        r == cursor_col(prompt@, nm as int, ni as int, query@, qpos as int),
{
    let p = utf8_len_capped(&chars_of(prompt));
    let counter = sat_add(sat_add(decimal_chars(nm).len(), 1), decimal_chars(ni).len());
    let upto = if qpos <= query.len() {
        qpos
    } else {
        query.len()
    };
    let mut prefix = String::new();
    let mut k: usize = 0;
    while k < upto
        invariant
            k <= upto <= query.len(),
            prefix@ == query@.take(k as int),
        decreases upto - k,
    {
        crate::text::push_char(&mut prefix, query[k]);
        k = k + 1;
        assert(prefix@ =~= query@.take(k as int));
    }
    let w = str_width(prefix.as_str());
    proof {
        crate::picker::lemma_utf8_len_nonneg(prompt@);
    }
    let a = sat_add(p, 2);
    let b = sat_add(a, counter);
    let c = sat_add(b, 3);
    let d = sat_add(c, w);
    sat_add(d, 1)
}

fn cursor_line_exec(origin_row: usize, col: usize) -> (r: Vec<char>)
    requires
        origin_row < usize::MAX,
    ensures
        r@ == cursor_line(origin_row as int, col as int),
{
    let mut r = chars_of("\x1b[");
    extend(&mut r, &decimal_chars(origin_row + 1));
    extend(&mut r, &chars_of(";"));
    extend(&mut r, &decimal_chars(col));
    extend(&mut r, &chars_of("H"));
    extend(&mut r, &chars_of("\x1b[?25h"));
    r
}

/// The rows of the list: the prompt line, one, and the status line, one,
/// plus the preview pane with its separator and a blank row when there is
/// one; what is left of the window goes to the list.
pub open spec fn list_height(draw_rows: int, ph: int) -> int {
    sat_sub(
        draw_rows,
        1 + if ph > 0 {
            ph + 2
        } else {
            1
        },
    ) as int
}

/// The first match shown: moved up to the selection, or down so that the
/// selection is the last row of a list of `lh` rows.
pub open spec fn scroll_for(sel: int, scroll: int, lh: int) -> int {
    let s1 = if sel < scroll {
        sel
    } else {
        scroll
    };
    if sel >= s1 + lh {
        sel - lh + 1
    } else {
        s1
    }
}

pub open spec fn preview_height_of(tricks: Option<TricksDisplay>) -> int {
    match tricks {
        Some(td) => td.preview_height as int,
        None => 0,
    }
}

/// The inputs on which a frame is defined: the arithmetic stays within
/// `usize`.
pub open spec fn frame_ok(st: StateView, draw_rows: int, origin_row: int, tricks: Option<TricksDisplay>) -> bool {
    &&& st.sel + draw_rows <= usize::MAX
    &&& st.sel < usize::MAX
    &&& origin_row < usize::MAX
    &&& preview_height_of(tricks) + 3 <= usize::MAX
    &&& 0 <= st.sel
    &&& 0 <= st.scroll
}

/// The empty rows after the matches shown, up to the list's height; none
/// when the list starts past the last match (no match and no list row).
pub open spec fn blank_rows(lh: int, sc: int, end: int) -> nat {
    if end >= sc {
        (lh - (end - sc)) as nat
    } else {
        0
    }
}

/// The whole frame.
pub open spec fn frame(
    st: StateView,
    ds: DrawState,
    items: Seq<String>,
    ms: Seq<MatchResult>,
    prompt: Seq<char>,
    walk_done: bool,
    cols: int,
    draw_rows: int,
    origin_row: int,
    tricks: Option<TricksDisplay>,
) -> Seq<char> {
    let lh = list_height(draw_rows, preview_height_of(tricks));
    let sc = scroll_for(st.sel, st.scroll, lh);
    let nm = ms.len() as int;
    let end = min_int(sc + lh, nm);
    let w = match tricks {
        Some(td) => frame_widths(ds, td.entries@, ms, cols),
        None => (0, 0, 0),
    };
    header(origin_row, prompt, walk_done, nm, items.len() as int, st.query) + rows_between(
        ms,
        items,
        tricks,
        w,
        st.sel,
        cols,
        sc,
        end,
    ) + repeat(eol(), blank_rows(lh, sc, end)) + match tricks {
        Some(td) => preview(td, ms, st.sel, cols),
        None => Seq::empty(),
    } + cursor_line(origin_row, cursor_col(prompt, nm, items.len() as int, st.query, st.qpos))
}

/// The kept widths after a frame: computed ones are kept in tricks mode.
pub open spec fn draw_state_after(ds: DrawState, ms: Seq<MatchResult>, cols: int, tricks: Option<TricksDisplay>) -> DrawState {
    match tricks {
        Some(td) => if widths_kept(ds, ms.len() as int, cols) {
            ds
        } else {
            let w = frame_widths(ds, td.entries@, ms, cols);
            DrawState {
                col_widths: Some((w.0 as usize, w.1 as usize, w.2 as usize)),
                col_widths_match_count: ms.len() as usize,
                col_widths_cols: cols as usize,
            }
        },
        None => ds,
    }
}

impl PickerState {
    /// Whether a frame can be drawn for this state (see `frame_ok`): where
    /// it cannot, the layout arithmetic would leave `usize`.
    pub fn frame_defined(&self, draw_rows: usize, origin_row: usize, tricks: &Option<TricksDisplay>) -> (r: bool)
        requires
            self@.wf(),
        ensures
            r == frame_ok(self@, draw_rows as int, origin_row as int, *tricks),
    {
        let ph = match tricks {
            Some(td) => td.preview_height,
            None => 0,
        };
        !(self.sel > usize::MAX - draw_rows || self.sel == usize::MAX || origin_row == usize::MAX || ph > usize::MAX
            - 3)
    }

    /// Draws one frame: the scroll position is brought to the selection
    /// and the text to write to the terminal is returned.
    #[verifier::rlimit(40)]
    pub fn draw_frame(
        &mut self,
        ds: &mut DrawState,
        items: &Vec<String>,
        matches: &Vec<MatchResult>,
        prompt: &str,
        walk_done: bool,
        cols: usize,
        draw_rows: usize,
        origin_row: usize,
        tricks: &Option<TricksDisplay>,
    ) -> (out: String)
        requires
            frame_ok(old(self)@, draw_rows as int, origin_row as int, *tricks),
        ensures
            out@ == frame(old(self)@, *old(ds), items@, matches@, prompt@, walk_done, cols as int, draw_rows as int, origin_row as int, *tricks),
            final(self)@ == (StateView {
                scroll: scroll_for(old(self)@.sel, old(self)@.scroll, list_height(draw_rows as int, preview_height_of(*tricks))),
                ..old(self)@
            }),
            *final(ds) == draw_state_after(*old(ds), matches@, cols as int, *tricks),
    {
        let ph = match tricks {
            Some(td) => td.preview_height,
            None => 0,
        };
        let overhead = 1 + if ph > 0 {
            ph + 2
        } else {
            1
        };
        let lh = draw_rows.saturating_sub(overhead);
        if self.sel < self.scroll {
            self.scroll = self.sel;
        }
        if self.sel >= self.scroll + lh {
            self.scroll = self.sel - lh + 1;
        }
        let sc = self.scroll;
        let nm = matches.len();
        let end = if sc + lh <= nm {
            sc + lh
        } else {
            nm
        };
        let w = match tricks {
            Some(td) => widths_for_frame(ds, &td.entries, matches, cols),
            None => (0, 0, 0),
        };
        let ghost wv = (w.0 as int, w.1 as int, w.2 as int);
        let mut out = header_exec(origin_row, prompt, walk_done, nm, items.len(), &self.query);
        let ghost hv = out@;
        let mut i = sc;
        while i < end
            invariant
                sc <= i,
                i <= end || i == sc,
                end <= matches@.len(),
                wv == (w.0 as int, w.1 as int, w.2 as int),
                out@ == hv + rows_between(matches@, items@, *tricks, wv, self.sel as int, cols as int, sc as int, i as int),
            decreases end - i,
        {
            let row = row_at_exec(matches, items, tricks, w, self.sel, cols, i);
            let ghost before = out@;
            extend(&mut out, &row);
            assert(rows_between(matches@, items@, *tricks, wv, self.sel as int, cols as int, sc as int, i + 1)
                == rows_between(matches@, items@, *tricks, wv, self.sel as int, cols as int, sc as int, i as int)
                + row_at(matches@, items@, *tricks, wv, self.sel as int, cols as int, i as int));
            assert(out@ =~= hv + rows_between(matches@, items@, *tricks, wv, self.sel as int, cols as int, sc as int, i + 1));
            i = i + 1;
        }
        assert(out@ == hv + rows_between(matches@, items@, *tricks, wv, self.sel as int, cols as int, sc as int, end as int));
        let blanks = if end >= sc {
            lh - (end - sc)
        } else {
            0
        };
        push_repeat(&mut out, &eol_exec(), blanks);
        match tricks {
            Some(td) => {
                extend(&mut out, &preview_exec(td, matches, self.sel, cols));
            },
            None => {},
        }
        let col = cursor_col_exec(prompt, nm, items.len(), &self.query, self.qpos);
        extend(&mut out, &cursor_line_exec(origin_row, col));
        string_of(&out)
    }
}

} // verus!
