//! What holds of every parse: the items are valid, their display snippets
//! are current, they carry their source, and no two share a key.

use vstd::prelude::*;
use crate::item::{display_of, ItemView, VarMapView};
use crate::item::{tag_key, OptsView};
use crate::text::trim;
use crate::parser::{
    add_deps, add_variable, apply_fm, apply_fm_line, feed_variable, heading, open_fence, opts_from, opts_spec,
    parse_spec, parse_uint, run_lines, shell_words, step, step_inside, step_outside, PState,
    VarLineErrorView,
};

verus! {

/// The invariant of the parser state.
pub open spec fn parser_inv(st: PState, source: Seq<char>) -> bool {
    &&& st.current.file == Some(source)
    &&& st.seen.len() == st.items.len()
    &&& forall|i: int| 0 <= i < st.items.len() ==> #[trigger] st.seen[i] == st.items[i].key()
    &&& forall|i: int|
        0 <= i < st.items.len() ==> item_ok(#[trigger] st.items[i], source)
    &&& forall|i: int, j: int| 0 <= i < j < st.seen.len() ==> st.seen[i] != st.seen[j]
}

/// An emitted item: displayable, with its display snippet current, from
/// `source`.
pub open spec fn item_ok(it: ItemView, source: Seq<char>) -> bool {
    &&& it.valid()
    &&& it.snippet_display == display_of(it.snippet)
    &&& it.file == Some(source)
}

/// No two items share a deduplication key.
pub open spec fn keys_distinct(items: Seq<ItemView>) -> bool {
    forall|i: int, j: int| 0 <= i < j < items.len() ==> items[i].key() != items[j].key()
}

proof fn lemma_flushed_inv(st: PState, source: Seq<char>)
    requires
        parser_inv(st, source),
    ensures
        parser_inv(st.flushed(), source),
        st.flushed().current.file == st.current.file,
        st.flushed().current.tags == st.current.tags,
        st.flushed().vars == st.vars,
{
    if st.current.valid() && !st.seen.contains(st.current.key()) {
        let f = st.flushed();
        let n = st.items.len();
        assert forall|i: int| 0 <= i < f.items.len() implies #[trigger] f.seen[i] == f.items[i].key() by {
            if i < n {
                assert(f.seen[i] == st.seen[i]);
                assert(f.items[i] == st.items[i]);
            }
        }
        assert forall|i: int| 0 <= i < f.items.len() implies item_ok(#[trigger] f.items[i], source) by {
            if i < n {
                assert(f.items[i] == st.items[i]);
            }
        }
        assert forall|i: int, j: int| 0 <= i < j < f.seen.len() implies f.seen[i] != f.seen[j] by {
            if j == n {
                assert(f.seen[i] == st.seen[i]);
                assert(st.seen.contains(st.seen[i]));
            } else {
                assert(f.seen[i] == st.seen[i]);
                assert(f.seen[j] == st.seen[j]);
            }
        }
    }
}

proof fn lemma_apply_fm_file(lines: Seq<Seq<char>>, i: int, c: ItemView, vars: VarMapView)
    ensures
        apply_fm(lines, i, c, vars).0.file == c.file,
    decreases lines.len() - i,
{
    if 0 <= i < lines.len() {
        let (c2, v2) = apply_fm_line(lines[i], c, vars);
        lemma_apply_fm_file(lines, i + 1, c2, v2);
    }
}

proof fn lemma_feed_variable_inv(st: PState, line: Seq<char>, line_nr: int, source: Seq<char>)
    requires
        parser_inv(st, source),
    ensures
        feed_variable(st, line, line_nr, source) matches Ok(s2) ==> parser_inv(s2, source),
{
    let cmd = st.variable_cmd + crate::text::trim_end_by(line, crate::text::CharClass::Exactly('\\'));
    match add_variable(st, cmd, line_nr, source) {
        Ok(s2) => {
            assert(s2.items == st.items && s2.seen == st.seen && s2.current == st.current);
        },
        Err(_) => {},
    }
}

proof fn lemma_step_inv(st: PState, line_nr: int, line: Seq<char>, source: Seq<char>)
    requires
        parser_inv(st, source),
    ensures
        step(st, line_nr, line, source) matches Ok(s2) ==> parser_inv(s2, source),
{
    lemma_flushed_inv(st, source);
    let fc = st.flushed_cleared();
    assert(parser_inv(fc, source));
    lemma_feed_variable_inv(st, line, line_nr, source);
    lemma_feed_variable_inv(fc, line, line_nr, source);
    lemma_apply_fm_file(st.front_matter_lines, 0, st.current, st.vars);
    assert(open_fence(st, line).file == st.current.file);
    assert(heading(st, line_nr, line).current.file == st.current.file);
    assert(parser_inv(heading(st, line_nr, line), source));
    if !(line_nr == 0 && crate::text::trim(line) == "---"@) && !st.in_front_matter {
        if st.inside_snippet {
            assert(step_inside(st, line_nr, line, source) matches Ok(s2) ==> parser_inv(s2, source));
        } else {
            assert(step_outside(st, line_nr, line, source) matches Ok(s2) ==> parser_inv(s2, source));
        }
    }
}

proof fn lemma_run_inv(lines: Seq<Seq<char>>, source: Seq<char>, st: PState, i: int)
    requires
        parser_inv(st, source),
    ensures
        run_lines(lines, source, st, i) matches Ok(s2) ==> parser_inv(s2, source),
    decreases lines.len() - i,
{
    if 0 <= i < lines.len() {
        lemma_step_inv(st, i, lines[i], source);
        match step(st, i, lines[i], source) {
            Ok(s2) => lemma_run_inv(lines, source, s2, i + 1),
            Err(_) => {},
        }
    }
}

/// Every item that a parse gives can be displayed (it has a description and
/// a non-blank snippet), its display snippet is its snippet with the line
/// separators turned into newlines, it names the source it came from, and
/// no two items share the (tags, description, snippet) key: duplicates are
/// dropped.
pub proof fn law_parsed_items(lines: Seq<Seq<char>>, source: Seq<char>)
    ensures
        parse_spec(lines, source) matches Ok((items, _)) ==> {
            &&& forall|i: int| 0 <= i < items.len() ==> item_ok(#[trigger] items[i], source)
            &&& keys_distinct(items)
        },
{
    let init = PState::initial(source);
    assert(parser_inv(init, source));
    lemma_run_inv(lines, source, init, 0);
    match run_lines(lines, source, init, 0) {
        Ok(st) => {
            lemma_flushed_inv(st, source);
            let f = st.flushed();
            assert forall|i: int, j: int| 0 <= i < j < f.items.len() implies f.items[i].key()
                != f.items[j].key() by {
                assert(f.seen[i] == f.items[i].key());
                assert(f.seen[j] == f.items[j].key());
            }
        },
        Err(_) => {},
    }
}

// ---------------------------------------------------------------------------
// When the options after `---` are refused.
// ---------------------------------------------------------------------------

/// The flags that take the next word as their value.
pub open spec fn takes_value(f: Seq<char>) -> bool {
    ||| f == "--column"@
    ||| f == "--delimiter"@
    ||| f == "--query"@
    ||| f == "--filter"@
    ||| f == "--preview"@
    ||| f == "--preview-window"@
    ||| f == "--header"@
    ||| f == "--headers"@
    ||| f == "--header-lines"@
    ||| f == "--map"@
}

/// The flags whose value must be a whole number from 0 to 255.
pub open spec fn takes_u8(f: Seq<char>) -> bool {
    f == "--column"@ || f == "--headers"@ || f == "--header-lines"@
}

/// The name an error gives a flag: `--headers` is reported under its
/// long form `--header-lines`.
pub open spec fn flag_name(f: Seq<char>) -> Seq<char> {
    if f == "--headers"@ {
        "--header-lines"@
    } else {
        f
    }
}

/// The first problem met reading the words `w[i..]` from left to right,
/// where a flag that takes a value consumes the next word and any other
/// word is skipped: a flag with a value that comes last, or a numeric
/// flag whose value is no number from 0 to 255.
pub open spec fn option_error(w: Seq<Seq<char>>, i: int) -> Option<VarLineErrorView>
    decreases w.len() - i,
{
    if i < 0 || i >= w.len() {
        None
    } else if takes_value(w[i]) {
        if i + 1 >= w.len() {
            Some(VarLineErrorView::MissingValue(flag_name(w[i])))
        } else if takes_u8(w[i]) && parse_uint(w[i + 1], 255) is None {
            Some(VarLineErrorView::NotU8(flag_name(w[i])))
        } else {
            option_error(w, i + 2)
        }
    } else {
        option_error(w, i + 1)
    }
}

proof fn lemma_flag_literals()
    ensures
        "--prevent-extra"@.len() == 15 && "--prevent-extra"@[2] == 'p',
        "--expand"@.len() == 8 && "--expand"@[2] == 'e',
        "--column"@.len() == 8 && "--column"@[2] == 'c',
        "--delimiter"@.len() == 11 && "--delimiter"@[2] == 'd',
        "--query"@.len() == 7 && "--query"@[2] == 'q',
        "--filter"@.len() == 8 && "--filter"@[2] == 'f',
        "--preview"@.len() == 9 && "--preview"@[2] == 'p',
        "--preview-window"@.len() == 16 && "--preview-window"@[2] == 'p',
        "--header"@.len() == 8 && "--header"@[2] == 'h',
        "--headers"@.len() == 9 && "--headers"@[2] == 'h',
        "--header-lines"@.len() == 14 && "--header-lines"@[2] == 'h',
        "--map"@.len() == 5 && "--map"@[2] == 'm',
{
    reveal_strlit("--prevent-extra");
    reveal_strlit("--expand");
    reveal_strlit("--column");
    reveal_strlit("--delimiter");
    reveal_strlit("--query");
    reveal_strlit("--filter");
    reveal_strlit("--preview");
    reveal_strlit("--preview-window");
    reveal_strlit("--header");
    reveal_strlit("--headers");
    reveal_strlit("--header-lines");
    reveal_strlit("--map");
}

proof fn lemma_option_error(w: Seq<Seq<char>>, i: int)
    ensures
        forall|acc: OptsView|
            #![trigger opts_from(w, i, acc)]
            (opts_from(w, i, acc) is Err <==> option_error(w, i) is Some) && (opts_from(w, i, acc) matches Err(
                e,
            ) ==> option_error(w, i) == Some(e)),
    decreases w.len() - i,
{
    if 0 <= i < w.len() {
        lemma_option_error(w, i + 1);
        if i + 2 <= w.len() {
            lemma_option_error(w, i + 2);
        }
        lemma_flag_literals();
        let f = w[i];
        assert forall|acc: OptsView|
            #![trigger opts_from(w, i, acc)]
            (opts_from(w, i, acc) is Err <==> option_error(w, i) is Some) && (opts_from(w, i, acc) matches Err(
                e,
            ) ==> option_error(w, i) == Some(e)) by {
            if f == "--prevent-extra"@ {
                assert(!takes_value(f));
                assert(opts_from(w, i, acc) == opts_from(w, i + 1, OptsView { prevent_extra: true, ..acc }));
            } else if f == "--expand"@ {
                assert(!takes_value(f));
                assert(opts_from(w, i, acc) == opts_from(w, i + 1, OptsView { expand: true, ..acc }));
            } else if f == "--column"@ {
                if i + 1 < w.len() {
                    match parse_uint(w[i + 1], 255) {
                        Some(n) => {
                            assert(opts_from(w, i, acc) == opts_from(w, i + 2, OptsView { column: Some(n as u8), ..acc }));
                            assert(option_error(w, i) == option_error(w, i + 2));
                        },
                        None => {},
                    }
                }
            } else if f == "--delimiter"@ {
                if i + 1 < w.len() {
                    assert(opts_from(w, i, acc) == opts_from(w, i + 2, OptsView { delimiter: Some(w[i + 1]), ..acc }));
                    assert(option_error(w, i) == option_error(w, i + 2));
                }
            } else if f == "--query"@ {
                if i + 1 < w.len() {
                    assert(opts_from(w, i, acc) == opts_from(w, i + 2, OptsView { query: Some(w[i + 1]), ..acc }));
                    assert(option_error(w, i) == option_error(w, i + 2));
                }
            } else if f == "--filter"@ {
                if i + 1 < w.len() {
                    assert(opts_from(w, i, acc) == opts_from(w, i + 2, OptsView { filter: Some(w[i + 1]), ..acc }));
                    assert(option_error(w, i) == option_error(w, i + 2));
                }
            } else if f == "--preview"@ {
                if i + 1 < w.len() {
                    assert(opts_from(w, i, acc) == opts_from(w, i + 2, OptsView { preview: Some(w[i + 1]), ..acc }));
                    assert(option_error(w, i) == option_error(w, i + 2));
                }
            } else if f == "--preview-window"@ {
                if i + 1 < w.len() {
                    assert(opts_from(w, i, acc) == opts_from(w, i + 2, OptsView { preview_window: Some(w[i + 1]), ..acc }));
                    assert(option_error(w, i) == option_error(w, i + 2));
                }
            } else if f == "--header"@ {
                if i + 1 < w.len() {
                    assert(opts_from(w, i, acc) == opts_from(w, i + 2, OptsView { header: Some(w[i + 1]), ..acc }));
                    assert(option_error(w, i) == option_error(w, i + 2));
                }
            } else if f == "--map"@ {
                if i + 1 < w.len() {
                    assert(opts_from(w, i, acc) == opts_from(w, i + 2, OptsView { map: Some(w[i + 1]), ..acc }));
                    assert(option_error(w, i) == option_error(w, i + 2));
                }
            } else if f == "--headers"@ || f == "--header-lines"@ {
                if i + 1 < w.len() {
                    match parse_uint(w[i + 1], 255) {
                        Some(n) => {
                            assert(opts_from(w, i, acc) == opts_from(w, i + 2, OptsView { header_lines: n as u8, ..acc }));
                            assert(option_error(w, i) == option_error(w, i + 2));
                        },
                        None => {},
                    }
                }
            } else {
                assert(opts_from(w, i, acc) == opts_from(w, i + 1, acc));
            }
        }
    }
}

/// No word of `w[i..]` is `f`.
pub open spec fn absent(w: Seq<Seq<char>>, i: int, f: Seq<char>) -> bool {
    forall|j: int| i <= j < w.len() ==> w[j] != f
}

/// What reading the words `w[i..]` from `acc` leaves of `acc`: an option
/// whose flag does not occur there keeps its value, and a flag once set
/// stays set.
pub open spec fn kept(w: Seq<Seq<char>>, i: int, acc: OptsView, o: OptsView) -> bool {
    &&& absent(w, i, "--column"@) ==> o.column == acc.column
    &&& absent(w, i, "--delimiter"@) ==> o.delimiter == acc.delimiter
    &&& absent(w, i, "--query"@) ==> o.query == acc.query
    &&& absent(w, i, "--filter"@) ==> o.filter == acc.filter
    &&& absent(w, i, "--preview"@) ==> o.preview == acc.preview
    &&& absent(w, i, "--preview-window"@) ==> o.preview_window == acc.preview_window
    &&& absent(w, i, "--header"@) ==> o.header == acc.header
    &&& absent(w, i, "--map"@) ==> o.map == acc.map
    &&& absent(w, i, "--headers"@) && absent(w, i, "--header-lines"@) ==> o.header_lines == acc.header_lines
    &&& acc.prevent_extra ==> o.prevent_extra
    &&& acc.expand ==> o.expand
}

proof fn lemma_opts_kept(w: Seq<Seq<char>>, i: int)
    ensures
        forall|acc: OptsView|
            #![trigger opts_from(w, i, acc)]
            opts_from(w, i, acc) matches Ok(o) ==> kept(w, i, acc, o),
    decreases w.len() - i,
{
    if 0 <= i < w.len() {
        lemma_opts_kept(w, i + 1);
        if i + 2 <= w.len() {
            lemma_opts_kept(w, i + 2);
        }
        lemma_flag_literals();
        let f = w[i];
        assert forall|acc: OptsView|
            #![trigger opts_from(w, i, acc)]
            opts_from(w, i, acc) matches Ok(o) ==> kept(w, i, acc, o) by {
            if f == "--prevent-extra"@ {
                assert(opts_from(w, i, acc) == opts_from(w, i + 1, OptsView { prevent_extra: true, ..acc }));
            } else if f == "--expand"@ {
                assert(opts_from(w, i, acc) == opts_from(w, i + 1, OptsView { expand: true, ..acc }));
            } else if f == "--column"@ {
                if i + 1 < w.len() {
                    match parse_uint(w[i + 1], 255) {
                        Some(n) => {
                            assert(opts_from(w, i, acc) == opts_from(w, i + 2, OptsView { column: Some(n as u8), ..acc }));
                        },
                        None => {},
                    }
                }
            } else if f == "--delimiter"@ {
                if i + 1 < w.len() {
                    assert(opts_from(w, i, acc) == opts_from(w, i + 2, OptsView { delimiter: Some(w[i + 1]), ..acc }));
                }
            } else if f == "--query"@ {
                if i + 1 < w.len() {
                    assert(opts_from(w, i, acc) == opts_from(w, i + 2, OptsView { query: Some(w[i + 1]), ..acc }));
                }
            } else if f == "--filter"@ {
                if i + 1 < w.len() {
                    assert(opts_from(w, i, acc) == opts_from(w, i + 2, OptsView { filter: Some(w[i + 1]), ..acc }));
                }
            } else if f == "--preview"@ {
                if i + 1 < w.len() {
                    assert(opts_from(w, i, acc) == opts_from(w, i + 2, OptsView { preview: Some(w[i + 1]), ..acc }));
                }
            } else if f == "--preview-window"@ {
                if i + 1 < w.len() {
                    assert(opts_from(w, i, acc) == opts_from(w, i + 2, OptsView { preview_window: Some(w[i + 1]), ..acc }));
                }
            } else if f == "--header"@ {
                if i + 1 < w.len() {
                    assert(opts_from(w, i, acc) == opts_from(w, i + 2, OptsView { header: Some(w[i + 1]), ..acc }));
                }
            } else if f == "--map"@ {
                if i + 1 < w.len() {
                    assert(opts_from(w, i, acc) == opts_from(w, i + 2, OptsView { map: Some(w[i + 1]), ..acc }));
                }
            } else if f == "--headers"@ || f == "--header-lines"@ {
                if i + 1 < w.len() {
                    match parse_uint(w[i + 1], 255) {
                        Some(n) => {
                            assert(opts_from(w, i, acc) == opts_from(w, i + 2, OptsView { header_lines: n as u8, ..acc }));
                        },
                        None => {},
                    }
                }
            } else {
                assert(opts_from(w, i, acc) == opts_from(w, i + 1, acc));
            }
        }
    } else {
        assert forall|acc: OptsView|
            #![trigger opts_from(w, i, acc)]
            opts_from(w, i, acc) matches Ok(o) ==> kept(w, i, acc, o) by {
        }
    }
}

proof fn lemma_front_flag(f: Seq<char>, x: Seq<char>, rest: Seq<Seq<char>>)
    ensures
        ({
            let w = seq![f, x] + rest;
            &&& w.len() == rest.len() + 2
            &&& w[0] == f
            &&& w[1] == x
            &&& forall|g: Seq<char>| !rest.contains(g) ==> #[trigger] absent(w, 2, g)
            &&& forall|acc: OptsView|
                #![trigger opts_from(w, 2, acc)]
                opts_from(w, 2, acc) matches Ok(o) ==> kept(w, 2, acc, o)
        }),
{
    let w = seq![f, x] + rest;
    assert forall|g: Seq<char>| !rest.contains(g) implies #[trigger] absent(w, 2, g) by {
        assert forall|j: int| 2 <= j < w.len() implies w[j] != g by {
            assert(w[j] == rest[j - 2]);
        }
    }
    lemma_opts_kept(w, 2);
}

/// Reading words behind one more word at the front is reading them alone.
proof fn lemma_opts_shift(x: Seq<char>, rest: Seq<Seq<char>>, i: int)
    requires
        0 <= i,
    ensures
        forall|acc: OptsView|
            #![trigger opts_from(seq![x] + rest, i + 1, acc)]
            opts_from(seq![x] + rest, i + 1, acc) == opts_from(rest, i, acc),
    decreases rest.len() - i,
{
    let w = seq![x] + rest;
    if i < rest.len() {
        lemma_opts_shift(x, rest, i + 1);
        if i + 2 <= rest.len() {
            lemma_opts_shift(x, rest, i + 2);
        }
        assert(w[i + 1] == rest[i]);
        if i + 1 < rest.len() {
            assert(w[i + 2] == rest[i + 1]);
        }
        lemma_flag_literals();
        let f = rest[i];
        assert forall|acc: OptsView|
            #![trigger opts_from(seq![x] + rest, i + 1, acc)]
            opts_from(seq![x] + rest, i + 1, acc) == opts_from(rest, i, acc) by {
            if f == "--prevent-extra"@ {
                assert(opts_from(w, i + 1, acc) == opts_from(w, i + 2, OptsView { prevent_extra: true, ..acc }));
                assert(opts_from(rest, i, acc) == opts_from(rest, i + 1, OptsView { prevent_extra: true, ..acc }));
            } else if f == "--expand"@ {
                assert(opts_from(w, i + 1, acc) == opts_from(w, i + 2, OptsView { expand: true, ..acc }));
                assert(opts_from(rest, i, acc) == opts_from(rest, i + 1, OptsView { expand: true, ..acc }));
            } else if f == "--column"@ {
                if i + 1 < rest.len() {
                    let v = rest[i + 1];
                    match parse_uint(v, 255) {
                        Some(n) => {
                            assert(opts_from(w, i + 1, acc) == opts_from(w, i + 3, OptsView { column: Some(n as u8), ..acc }));
                            assert(opts_from(rest, i, acc) == opts_from(rest, i + 2, OptsView { column: Some(n as u8), ..acc }));
                        },
                        None => {},
                    }
                }
            } else if f == "--headers"@ || f == "--header-lines"@ {
                if i + 1 < rest.len() {
                    let v = rest[i + 1];
                    match parse_uint(v, 255) {
                        Some(n) => {
                            assert(opts_from(w, i + 1, acc) == opts_from(w, i + 3, OptsView { header_lines: n as u8, ..acc }));
                            assert(opts_from(rest, i, acc) == opts_from(rest, i + 2, OptsView { header_lines: n as u8, ..acc }));
                        },
                        None => {},
                    }
                }
            } else if f == "--delimiter"@ {
                if i + 1 < rest.len() {
                    let v = rest[i + 1];
                    assert(opts_from(w, i + 1, acc) == opts_from(w, i + 3, OptsView { delimiter: Some(v), ..acc }));
                    assert(opts_from(rest, i, acc) == opts_from(rest, i + 2, OptsView { delimiter: Some(v), ..acc }));
                }
            } else if f == "--query"@ {
                if i + 1 < rest.len() {
                    let v = rest[i + 1];
                    assert(opts_from(w, i + 1, acc) == opts_from(w, i + 3, OptsView { query: Some(v), ..acc }));
                    assert(opts_from(rest, i, acc) == opts_from(rest, i + 2, OptsView { query: Some(v), ..acc }));
                }
            } else if f == "--filter"@ {
                if i + 1 < rest.len() {
                    let v = rest[i + 1];
                    assert(opts_from(w, i + 1, acc) == opts_from(w, i + 3, OptsView { filter: Some(v), ..acc }));
                    assert(opts_from(rest, i, acc) == opts_from(rest, i + 2, OptsView { filter: Some(v), ..acc }));
                }
            } else if f == "--preview"@ {
                if i + 1 < rest.len() {
                    let v = rest[i + 1];
                    assert(opts_from(w, i + 1, acc) == opts_from(w, i + 3, OptsView { preview: Some(v), ..acc }));
                    assert(opts_from(rest, i, acc) == opts_from(rest, i + 2, OptsView { preview: Some(v), ..acc }));
                }
            } else if f == "--preview-window"@ {
                if i + 1 < rest.len() {
                    let v = rest[i + 1];
                    assert(opts_from(w, i + 1, acc) == opts_from(w, i + 3, OptsView { preview_window: Some(v), ..acc }));
                    assert(opts_from(rest, i, acc) == opts_from(rest, i + 2, OptsView { preview_window: Some(v), ..acc }));
                }
            } else if f == "--header"@ {
                if i + 1 < rest.len() {
                    let v = rest[i + 1];
                    assert(opts_from(w, i + 1, acc) == opts_from(w, i + 3, OptsView { header: Some(v), ..acc }));
                    assert(opts_from(rest, i, acc) == opts_from(rest, i + 2, OptsView { header: Some(v), ..acc }));
                }
            } else if f == "--map"@ {
                if i + 1 < rest.len() {
                    let v = rest[i + 1];
                    assert(opts_from(w, i + 1, acc) == opts_from(w, i + 3, OptsView { map: Some(v), ..acc }));
                    assert(opts_from(rest, i, acc) == opts_from(rest, i + 2, OptsView { map: Some(v), ..acc }));
                }
            } else {
                assert(opts_from(w, i + 1, acc) == opts_from(w, i + 2, acc));
                assert(opts_from(rest, i, acc) == opts_from(rest, i + 1, acc));
            }
        }
    }
}

/// A flag at the front of the option words sets its option: a flag with a
/// value to the word after it (for `--column`, `--headers` and
/// `--header-lines`, to the number it spells, and a word that spells none
/// is refused), unless the same option's flag comes again later; a switch
/// stays on whatever follows. A word that is no flag is skipped.
pub proof fn law_option_flags(x: Seq<char>, rest: Seq<Seq<char>>, acc: OptsView)
    ensures
        !rest.contains("--delimiter"@) ==> (opts_from(seq!["--delimiter"@, x] + rest, 0, acc) matches Ok(o) ==> o.delimiter == Some(x)),
        !rest.contains("--query"@) ==> (opts_from(seq!["--query"@, x] + rest, 0, acc) matches Ok(o) ==> o.query == Some(x)),
        !rest.contains("--filter"@) ==> (opts_from(seq!["--filter"@, x] + rest, 0, acc) matches Ok(o) ==> o.filter == Some(x)),
        !rest.contains("--preview"@) ==> (opts_from(seq!["--preview"@, x] + rest, 0, acc) matches Ok(o) ==> o.preview == Some(x)),
        !rest.contains("--preview-window"@) ==> (opts_from(seq!["--preview-window"@, x] + rest, 0, acc) matches Ok(o) ==> o.preview_window == Some(x)),
        !rest.contains("--header"@) ==> (opts_from(seq!["--header"@, x] + rest, 0, acc) matches Ok(o) ==> o.header == Some(x)),
        !rest.contains("--map"@) ==> (opts_from(seq!["--map"@, x] + rest, 0, acc) matches Ok(o) ==> o.map == Some(x)),
        !rest.contains("--column"@) ==> (parse_uint(x, 255) matches Some(n) ==> (opts_from(seq!["--column"@, x] + rest, 0, acc) matches Ok(o) ==> o.column == Some(n as u8))),
        parse_uint(x, 255) is None ==> opts_from(seq!["--column"@, x] + rest, 0, acc) == Err::<OptsView, VarLineErrorView>(VarLineErrorView::NotU8("--column"@)),
        !rest.contains("--headers"@) && !rest.contains("--header-lines"@) ==> (parse_uint(x, 255) matches Some(n) ==> (
            opts_from(seq!["--headers"@, x] + rest, 0, acc) matches Ok(o) ==> o.header_lines == n as u8)
            && (opts_from(seq!["--header-lines"@, x] + rest, 0, acc) matches Ok(o) ==> o.header_lines == n as u8)),
        opts_from(seq!["--prevent-extra"@] + rest, 0, acc) matches Ok(o) ==> o.prevent_extra,
        opts_from(seq!["--expand"@] + rest, 0, acc) matches Ok(o) ==> o.expand,
        !takes_value(x) && x != "--prevent-extra"@ && x != "--expand"@ ==> opts_from(seq![x] + rest, 0, acc) == opts_from(rest, 0, acc),
{
    lemma_flag_literals();
    lemma_front_flag("--delimiter"@, x, rest);
    lemma_front_flag("--query"@, x, rest);
    lemma_front_flag("--filter"@, x, rest);
    lemma_front_flag("--preview"@, x, rest);
    lemma_front_flag("--preview-window"@, x, rest);
    lemma_front_flag("--header"@, x, rest);
    lemma_front_flag("--map"@, x, rest);
    lemma_front_flag("--column"@, x, rest);
    lemma_front_flag("--headers"@, x, rest);
    lemma_front_flag("--header-lines"@, x, rest);
    lemma_opts_kept(seq!["--prevent-extra"@] + rest, 1);
    lemma_opts_kept(seq!["--expand"@] + rest, 1);
    assert((seq!["--prevent-extra"@] + rest)[0] == "--prevent-extra"@);
    assert((seq!["--expand"@] + rest)[0] == "--expand"@);
    assert((seq![x] + rest)[0] == x);
    assert(opts_from(seq!["--delimiter"@, x] + rest, 0, acc) == opts_from(seq!["--delimiter"@, x] + rest, 2, OptsView { delimiter: Some(x), ..acc }));
    assert(opts_from(seq!["--query"@, x] + rest, 0, acc) == opts_from(seq!["--query"@, x] + rest, 2, OptsView { query: Some(x), ..acc }));
    assert(opts_from(seq!["--filter"@, x] + rest, 0, acc) == opts_from(seq!["--filter"@, x] + rest, 2, OptsView { filter: Some(x), ..acc }));
    assert(opts_from(seq!["--preview"@, x] + rest, 0, acc) == opts_from(seq!["--preview"@, x] + rest, 2, OptsView { preview: Some(x), ..acc }));
    assert(opts_from(seq!["--preview-window"@, x] + rest, 0, acc) == opts_from(seq!["--preview-window"@, x] + rest, 2, OptsView { preview_window: Some(x), ..acc }));
    assert(opts_from(seq!["--header"@, x] + rest, 0, acc) == opts_from(seq!["--header"@, x] + rest, 2, OptsView { header: Some(x), ..acc }));
    assert(opts_from(seq!["--map"@, x] + rest, 0, acc) == opts_from(seq!["--map"@, x] + rest, 2, OptsView { map: Some(x), ..acc }));
    match parse_uint(x, 255) {
        Some(n) => {
            assert(opts_from(seq!["--column"@, x] + rest, 0, acc) == opts_from(seq!["--column"@, x] + rest, 2, OptsView { column: Some(n as u8), ..acc }));
            assert(opts_from(seq!["--headers"@, x] + rest, 0, acc) == opts_from(seq!["--headers"@, x] + rest, 2, OptsView { header_lines: n as u8, ..acc }));
            assert(opts_from(seq!["--header-lines"@, x] + rest, 0, acc) == opts_from(seq!["--header-lines"@, x] + rest, 2, OptsView { header_lines: n as u8, ..acc }));
        },
        None => {},
    }
    assert(opts_from(seq!["--prevent-extra"@] + rest, 0, acc) == opts_from(seq!["--prevent-extra"@] + rest, 1, OptsView { prevent_extra: true, ..acc }));
    assert(opts_from(seq!["--expand"@] + rest, 0, acc) == opts_from(seq!["--expand"@] + rest, 1, OptsView { expand: true, ..acc }));
    if !takes_value(x) && x != "--prevent-extra"@ && x != "--expand"@ {
        assert(opts_from(seq![x] + rest, 0, acc) == opts_from(seq![x] + rest, 1, acc));
    }
    lemma_opts_shift(x, rest, 0);
}

/// Reading the options after `---` fails exactly when a quote is left
/// open, a flag that takes a value comes last, or the value of `--column`,
/// `--headers` or `--header-lines` is no number from 0 to 255; the error
/// reports the first such problem. Unknown words never cause one.
pub proof fn law_parse_opts_errors(text: Seq<char>)
    ensures
        opts_spec(text) is Err <==> match shell_words(text) {
            None => true,
            Some(w) => option_error(w, 0) is Some,
        },
        shell_words(text) is None ==> opts_spec(text) == Err::<OptsView, VarLineErrorView>(
            VarLineErrorView::MissingClosingQuote,
        ),
        shell_words(text) matches Some(w) ==> (opts_spec(text) matches Err(e) ==> option_error(w, 0) == Some(e)),
{
    match shell_words(text) {
        Some(w) => {
            lemma_option_error(w, 0);
            assert(opts_spec(text) == opts_from(w, 0, OptsView::default_opts()));
        },
        None => {},
    }
}

// ---------------------------------------------------------------------------
// Dependencies from the front matter.
// ---------------------------------------------------------------------------

/// The dependencies that the parts `parts[i..]` of a `depend:` list give
/// `tags`: one on each part that is not blank once trimmed, in order.
pub open spec fn dependency_pairs(tags: Seq<char>, parts: Seq<Seq<char>>, i: int) -> Seq<(u64, u64)>
    decreases parts.len() - i,
{
    if i < 0 || i >= parts.len() {
        Seq::empty()
    } else if trim(parts[i]).len() > 0 {
        seq![(tag_key(tags), tag_key(trim(parts[i])))] + dependency_pairs(tags, parts, i + 1)
    } else {
        dependency_pairs(tags, parts, i + 1)
    }
}

/// A `depend:` list makes `tags` depend on each named section, in order:
/// the suggestions stay as they are and each non-blank part adds one
/// dependency of `tags` (not of the part) after those already recorded.
pub proof fn law_front_matter_dependencies(vars: VarMapView, tags: Seq<char>, parts: Seq<Seq<char>>, i: int)
    requires
        0 <= i <= parts.len(),
    ensures
        add_deps(vars, tags, parts, i).suggestions == vars.suggestions,
        add_deps(vars, tags, parts, i).deps == vars.deps + dependency_pairs(tags, parts, i),
    decreases parts.len() - i,
{
    if i < parts.len() {
        let d = trim(parts[i]);
        let v2 = if d.len() > 0 {
            vars.with_dependency(tags, d)
        } else {
            vars
        };
        law_front_matter_dependencies(v2, tags, parts, i + 1);
        if d.len() > 0 {
            assert(vars.deps + dependency_pairs(tags, parts, i) =~= vars.deps.push((tag_key(tags), tag_key(d)))
                + dependency_pairs(tags, parts, i + 1));
        }
    } else {
        assert(vars.deps + dependency_pairs(tags, parts, i) =~= vars.deps);
    }
}


} // verus!
