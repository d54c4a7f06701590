//! Properties of the library that span several operations: the variable
//! store, the picker's state machine and layout, window heights and
//! placeholder substitution.

use vstd::prelude::*;
use crate::frame::{row_at, rows_between, scroll_for};
use crate::text::{find_from, in_class, lines, occurs_at, trim_end, CharClass};
use crate::item::OptsView;
use crate::matcher::{MatchResult, nucleo_indices, ranked, ranks_before, sorted_unique_of, strictly_increasing, MatchView, PatternView};
use crate::item::{deps_of, first_dep_hit, tag_key, SuggestionView, VarMapView};
use crate::picker::{TricksDisplay, last_space, word_cut, clamped, height_of, step, step_ok, Height, Key, KeyOutcome, StateView};
use crate::runner::{choice_of, column_of, first_containing, non_empty, first_occurrences, placeholder_names, substituted, Interpolation, VarPrompt};

verus! {

// ---------------------------------------------------------------------------
// The variable store.
// ---------------------------------------------------------------------------

/// A suggestion stored for a variable under some tags is what a lookup of
/// that variable under those tags gives back.
pub proof fn law_suggestion_read_after_write(m: VarMapView, tags: Seq<char>, var: Seq<char>, v: SuggestionView)
    ensures
        m.with_suggestion(tags, var, v).lookup(tags, var) == Some(v),
{
}

proof fn lemma_first_dep_hit_other_var(
    m: Map<(u64, Seq<char>), SuggestionView>,
    ds: Seq<u64>,
    k: u64,
    var: Seq<char>,
    v: SuggestionView,
    var2: Seq<char>,
)
    requires
        var2 != var,
    ensures
        first_dep_hit(m.insert((k, var), v), ds, var2) == first_dep_hit(m, ds, var2),
    decreases ds.len(),
{
    if ds.len() > 0 {
        lemma_first_dep_hit_other_var(m, ds.drop_first(), k, var, v, var2);
    }
}

/// Storing a suggestion for one variable changes no lookup of another
/// variable, under any tags.
pub proof fn law_suggestion_other_variable(
    m: VarMapView,
    tags: Seq<char>,
    var: Seq<char>,
    v: SuggestionView,
    tags2: Seq<char>,
    var2: Seq<char>,
)
    requires
        var2 != var,
    ensures
        m.with_suggestion(tags, var, v).lookup(tags2, var2) == m.lookup(tags2, var2),
{
    lemma_first_dep_hit_other_var(m.suggestions, deps_of(m.deps, tag_key(tags2)), tag_key(tags), var, v, var2);
}

proof fn lemma_first_dep_hit_push(m: Map<(u64, Seq<char>), SuggestionView>, ds: Seq<u64>, d: u64, var: Seq<char>)
    requires
        first_dep_hit(m, ds, var) is None,
    ensures
        first_dep_hit(m, ds.push(d), var) == if m.contains_key((d, var)) {
            Some(m[(d, var)])
        } else {
            None::<SuggestionView>
        },
    decreases ds.len(),
{
    if ds.len() > 0 {
        assert(ds.push(d)[0] == ds[0]);
        assert(ds.push(d).drop_first() =~= ds.drop_first().push(d));
        lemma_first_dep_hit_push(m, ds.drop_first(), d, var);
    } else {
        assert(ds.push(d).drop_first() =~= Seq::<u64>::empty());
        assert(first_dep_hit(m, Seq::<u64>::empty(), var) is None);
        assert(ds.push(d)[0] == d);
    }
}

/// A variable that tags do not define, and that none of the tags they
/// already depend on defines, is inherited from tags they are then made to
/// depend on.
pub proof fn law_dependency_fallback(m: VarMapView, tags: Seq<char>, dep: Seq<char>, var: Seq<char>)
    requires
        m.lookup(tags, var) is None,
        m.suggestions.contains_key((tag_key(dep), var)),
    ensures
        m.with_dependency(tags, dep).lookup(tags, var) == Some(m.suggestions[(tag_key(dep), var)]),
{
    let k = tag_key(tags);
    let m2 = m.with_dependency(tags, dep);
    assert(m2.deps.drop_last() =~= m.deps);
    assert(deps_of(m2.deps, k) == deps_of(m.deps, k).push(tag_key(dep)));
    lemma_first_dep_hit_push(m.suggestions, deps_of(m.deps, k), tag_key(dep), var);
}

proof fn lemma_first_dep_hit_push_found(m: Map<(u64, Seq<char>), SuggestionView>, ds: Seq<u64>, d: u64, var: Seq<char>)
    requires
        first_dep_hit(m, ds, var) is Some,
    ensures
        first_dep_hit(m, ds.push(d), var) == first_dep_hit(m, ds, var),
    decreases ds.len(),
{
    assert(ds.push(d)[0] == ds[0]);
    if !m.contains_key((ds[0], var)) {
        assert(ds.push(d).drop_first() =~= ds.drop_first().push(d));
        lemma_first_dep_hit_push_found(m, ds.drop_first(), d, var);
    }
}

proof fn lemma_trim_end_keeps_first(s: Seq<char>)
    requires
        s.len() > 0,
        !in_class(s[0], CharClass::WhiteSpace),
    ensures
        trim_end(s).len() > 0,
        trim_end(s)[0] == s[0],
    decreases s.len(),
{
    if in_class(s.last(), CharClass::WhiteSpace) {
        assert(s.len() > 1);
        lemma_trim_end_keeps_first(s.drop_last());
    }
}

/// An `@ D` line outside a code block makes the current section depend on
/// section `D` (the rest of the line, trimmed): a variable that the section
/// neither defines nor inherits yet is then inherited from `D`, while what
/// it already defines or inherits stays as it was. The items and the
/// current section are left alone.
pub proof fn law_dependency_line(
    st: crate::parser::PState,
    nr: int,
    line: Seq<char>,
    source: Seq<char>,
    var: Seq<char>,
)
    requires
        !st.in_front_matter,
        !st.inside_snippet,
        line.len() > 0,
        line[0] == '@',
    ensures
        ({
            let tags = st.current.tags;
            let dep = crate::text::trim(line.skip(1));
            &&& crate::parser::step(st, nr, line, source) matches Ok(s2)
            &&& s2.items == st.items
            &&& s2.current == st.current
            &&& st.vars.lookup(tags, var) is None && st.vars.suggestions.contains_key((tag_key(dep), var))
                ==> s2.vars.lookup(tags, var) == Some(st.vars.suggestions[(tag_key(dep), var)])
            &&& st.vars.lookup(tags, var) is Some ==> s2.vars.lookup(tags, var) == st.vars.lookup(tags, var)
        }),
{
    let tags = st.current.tags;
    let dep = crate::text::trim(line.skip(1));
    reveal_strlit("```");
    reveal_strlit("---");
    assert(!crate::text::starts_with(line, "```"@)) by {
        if crate::text::starts_with(line, "```"@) {
            assert(line.subrange(0, 3)[0] == line[0]);
        }
    }
    assert(crate::text::trim_start_by(line, CharClass::WhiteSpace) == line);
    lemma_trim_end_keeps_first(line);
    assert(crate::text::trim(line) != "---"@) by {
        assert(crate::text::trim(line)[0] == '@');
    }
    assert(crate::parser::without_prefix(line) == dep);
    let m = st.vars;
    let m2 = m.with_dependency(tags, dep);
    if m.lookup(tags, var) is None && m.suggestions.contains_key((tag_key(dep), var)) {
        law_dependency_fallback(m, tags, dep, var);
    }
    if m.lookup(tags, var) is Some && !m.suggestions.contains_key((tag_key(tags), var)) {
        let k = tag_key(tags);
        assert(m2.deps.drop_last() =~= m.deps);
        assert(deps_of(m2.deps, k) == deps_of(m.deps, k).push(tag_key(dep)));
        lemma_first_dep_hit_push_found(m.suggestions, deps_of(m.deps, k), tag_key(dep), var);
    }
}

/// Outside a code block, a blank line and a `;` comment line change
/// nothing, and a `% T` line closes the trick being read (keeping it when
/// it is complete) and starts a section with tags `T` (the rest of the
/// line, trimmed) and no snippet, detail or pending prose yet.
pub proof fn law_plain_outside_lines(st: crate::parser::PState, nr: int, line: Seq<char>, source: Seq<char>)
    requires
        !st.in_front_matter,
        !st.inside_snippet,
    ensures
        line.len() == 0 ==> crate::parser::step(st, nr, line, source) == Ok::<
            crate::parser::PState,
            crate::parser::ParseErrorView,
        >(st),
        line.len() > 0 && line[0] == ';' ==> crate::parser::step(st, nr, line, source) == Ok::<
            crate::parser::PState,
            crate::parser::ParseErrorView,
        >(st),
        line.len() > 0 && line[0] == '%' ==> ({
            let f = st.flushed();
            &&& crate::parser::step(st, nr, line, source) matches Ok(s2)
            &&& s2.items == f.items
            &&& s2.vars == st.vars
            &&& s2.current.tags == crate::text::trim(line.skip(1))
            &&& s2.current.snippet.len() == 0
            &&& s2.current.detail is None
            &&& s2.current.comment == f.current.comment
            &&& s2.pending_prose.len() == 0
        }),
{
    reveal_strlit("```");
    reveal_strlit("---");
    if line.len() == 0 {
        assert(crate::text::trim_start_by(line, CharClass::WhiteSpace) =~= line);
        assert(crate::text::trim(line) =~= line);
        assert(!crate::text::starts_with(line, "```"@));
    } else if line[0] == ';' || line[0] == '%' {
        assert(!crate::text::starts_with(line, "```"@)) by {
            if crate::text::starts_with(line, "```"@) {
                assert(line.subrange(0, 3)[0] == line[0]);
            }
        }
        assert(crate::text::trim_start_by(line, CharClass::WhiteSpace) == line);
        lemma_trim_end_keeps_first(line);
        assert(crate::text::trim(line) != "---"@) by {
            assert(crate::text::trim(line)[0] == line[0]);
        }
        assert(crate::parser::without_prefix(line) == crate::text::trim(line.skip(1)));
    }
}

/// Tags' own suggestion for a variable wins over anything their
/// dependencies define.
pub proof fn law_own_suggestion_wins(m: VarMapView, tags: Seq<char>, dep: Seq<char>, var: Seq<char>)
    requires
        m.suggestions.contains_key((tag_key(tags), var)),
    ensures
        m.with_dependency(tags, dep).lookup(tags, var) == m.lookup(tags, var),
        m.lookup(tags, var) == Some(m.suggestions[(tag_key(tags), var)]),
{
}

/// In a merge, the suggestions of the map merged in override those of the
/// map merged into.
pub proof fn law_merge_prefers_merged_in(a: VarMapView, b: VarMapView, tags: Seq<char>, var: Seq<char>)
    requires
        b.suggestions.contains_key((tag_key(tags), var)),
    ensures
        a.merged(b).lookup(tags, var) == Some(b.suggestions[(tag_key(tags), var)]),
{
}

// ---------------------------------------------------------------------------
// The picker.
// ---------------------------------------------------------------------------

/// Whatever key is pressed, the cursor stays within the query (or right
/// after it).
pub proof fn law_cursor_stays_in_query(st: StateView, k: Key, n: int, draw_rows: int, edit: bool)
    requires
        step_ok(st, k, draw_rows),
        n >= 0,
        draw_rows >= 0,
    ensures
        step(st, k, n, draw_rows, edit).0.wf(),
{
    match k {
        Key::DeleteWord => {
            if st.qpos > 0 {
                crate::picker::lemma_word_cut_range(st.query, st.qpos);
            }
        },
        _ => {},
    }
}

/// Up, Down and the page keys move only the selection: Up one row up and
/// Down one row down, not past the first or the last match; Page Up and
/// Page Down by the rows of the list (the window less the prompt and the
/// counter line), not past the first or the last match.
pub proof fn law_selection_keys(st: StateView, n: int, draw_rows: int, edit: bool)
    requires
        st.wf(),
        n >= 0,
        draw_rows >= 0,
    ensures
        step(st, Key::Up, n, draw_rows, edit) == (
            StateView { query: st.query, qpos: st.qpos, sel: if st.sel > 0 { st.sel - 1 } else { 0 }, scroll: st.scroll },
            KeyOutcome::Continue,
        ),
        step(st, Key::Down, n, draw_rows, edit) == (
            StateView { query: st.query, qpos: st.qpos, sel: if st.sel + 1 < n { st.sel + 1 } else { st.sel }, scroll: st.scroll },
            KeyOutcome::Continue,
        ),
        ({
            let page = if draw_rows > 2 { draw_rows - 2 } else { 0 };
            step(st, Key::PageUp, n, draw_rows, edit) == (
                StateView { query: st.query, qpos: st.qpos, sel: if st.sel > page { st.sel - page } else { 0 }, scroll: st.scroll },
                KeyOutcome::Continue,
            )
        }),
        ({
            let page = if draw_rows > 2 { draw_rows - 2 } else { 0 };
            step(st, Key::PageDown, n, draw_rows, edit) == (
                StateView {
                    query: st.query,
                    qpos: st.qpos,
                    sel: if n == 0 { st.sel } else if st.sel + page < n { st.sel + page } else { n - 1 },
                    scroll: st.scroll,
                },
                KeyOutcome::Continue,
            )
        }),
{
}

/// The cursor keys move only the cursor: Left one character back and Right
/// one forward, within the query; Home and Ctrl-A to its start; End, and
/// Ctrl-E when the edit key is off, to its end.
pub proof fn law_cursor_keys(st: StateView, n: int, draw_rows: int, edit: bool)
    requires
        st.wf(),
    ensures
        step(st, Key::Left, n, draw_rows, edit) == (
            StateView { qpos: if st.qpos > 0 { st.qpos - 1 } else { 0 }, ..st },
            KeyOutcome::Continue,
        ),
        step(st, Key::Right, n, draw_rows, edit) == (
            StateView { qpos: if st.qpos < st.query.len() { st.qpos + 1 } else { st.qpos }, ..st },
            KeyOutcome::Continue,
        ),
        step(st, Key::Home, n, draw_rows, edit) == (StateView { qpos: 0, ..st }, KeyOutcome::Continue),
        step(st, Key::LineStart, n, draw_rows, edit) == (StateView { qpos: 0, ..st }, KeyOutcome::Continue),
        step(st, Key::End, n, draw_rows, edit) == (
            StateView { qpos: st.query.len() as int, ..st },
            KeyOutcome::Continue,
        ),
        !edit ==> step(st, Key::EditOrEnd, n, draw_rows, edit) == (
            StateView { qpos: st.query.len() as int, ..st },
            KeyOutcome::Continue,
        ),
        step(st, Key::Other, n, draw_rows, edit) == (st, KeyOutcome::Continue),
{
}

/// The editing keys change the query around the cursor and bring the
/// selection and the list back to the top: typed text goes in at the
/// cursor, which moves past it; Backspace removes the character before the
/// cursor and Delete the one under it (nothing happens at the start, or
/// the end, of the query); Ctrl-K removes the rest of the query, Ctrl-U all
/// of it, and Ctrl-W the word before the cursor.
pub proof fn law_editing_keys(st: StateView, t: Vec<char>, n: int, draw_rows: int, edit: bool)
    requires
        st.wf(),
    ensures
        step(st, Key::Text(t), n, draw_rows, edit) == (
            StateView {
                query: st.query.take(st.qpos) + t@ + st.query.skip(st.qpos),
                qpos: st.qpos + t@.len(),
                sel: 0,
                scroll: 0,
            },
            KeyOutcome::QueryChanged,
        ),
        st.qpos > 0 ==> step(st, Key::Backspace, n, draw_rows, edit) == (
            StateView { query: st.query.remove(st.qpos - 1), qpos: st.qpos - 1, sel: 0, scroll: 0 },
            KeyOutcome::QueryChanged,
        ),
        st.qpos == 0 ==> step(st, Key::Backspace, n, draw_rows, edit) == (st, KeyOutcome::Continue),
        st.qpos < st.query.len() ==> step(st, Key::Delete, n, draw_rows, edit) == (
            StateView { query: st.query.remove(st.qpos), qpos: st.qpos, sel: 0, scroll: 0 },
            KeyOutcome::QueryChanged,
        ),
        st.qpos == st.query.len() ==> step(st, Key::Delete, n, draw_rows, edit) == (st, KeyOutcome::Continue),
        step(st, Key::KillToEnd, n, draw_rows, edit) == (
            StateView { query: st.query.take(st.qpos), qpos: st.qpos, sel: 0, scroll: 0 },
            KeyOutcome::QueryChanged,
        ),
        step(st, Key::ClearQuery, n, draw_rows, edit) == (
            StateView { query: Seq::empty(), qpos: 0, sel: 0, scroll: 0 },
            KeyOutcome::QueryChanged,
        ),
        st.qpos > 0 ==> ({
            let (s2, out) = step(st, Key::DeleteWord, n, draw_rows, edit);
            let c = s2.qpos;
            &&& out == KeyOutcome::QueryChanged
            &&& 0 <= c <= st.qpos
            &&& c == word_cut(st.query, st.qpos)
            &&& s2.query == st.query.take(c) + st.query.skip(st.qpos)
            &&& s2.sel == 0 && s2.scroll == 0
        }),
        st.qpos == 0 ==> step(st, Key::DeleteWord, n, draw_rows, edit) == (st, KeyOutcome::Continue),
{
    if st.qpos > 0 {
        crate::picker::lemma_word_cut_range(st.query, st.qpos);
        assert(st.query.remove(st.qpos - 1) =~= st.query.take(st.qpos - 1) + st.query.skip(st.qpos));
    }
    if st.qpos < st.query.len() {
        assert(st.query.remove(st.qpos) =~= st.query.take(st.qpos) + st.query.skip(st.qpos + 1));
    }
}

proof fn lemma_trim_end_prefix(s: Seq<char>)
    ensures
        trim_end(s).len() <= s.len(),
        trim_end(s) == s.take(trim_end(s).len() as int),
    decreases s.len(),
{
    if s.len() > 0 && in_class(s.last(), CharClass::WhiteSpace) {
        lemma_trim_end_prefix(s.drop_last());
        assert(s.drop_last().take(trim_end(s).len() as int) =~= s.take(trim_end(s).len() as int));
    } else {
        assert(s.take(s.len() as int) =~= s);
    }
}

proof fn lemma_last_space_is_last(t: Seq<char>)
    ensures
        match last_space(t) {
            Some(i) => 0 <= i < t.len() && t[i] == ' ' && forall|j: int| i < j < t.len() ==> t[j] != ' ',
            None => forall|j: int| 0 <= j < t.len() ==> t[j] != ' ',
        },
    decreases t.len(),
{
    if t.len() > 0 && t.last() != ' ' {
        let d = t.drop_last();
        lemma_last_space_is_last(d);
        match last_space(d) {
            Some(i) => {
                assert forall|j: int| i < j < t.len() implies t[j] != ' ' by {
                    if j < d.len() {
                        assert(t[j] == d[j]);
                    }
                }
                assert(t[i] == d[i]);
            },
            None => {
                assert forall|j: int| 0 <= j < t.len() implies t[j] != ' ' by {
                    if j < d.len() {
                        assert(t[j] == d[j]);
                    }
                }
            },
        }
    }
}

/// Ctrl-W cuts the query right after the last space that comes before the
/// word in front of the cursor (white space just before the cursor is cut
/// with the word), or at its start when there is no such space.
pub proof fn law_word_cut(q: Seq<char>, qpos: int)
    requires
        0 <= qpos <= q.len(),
    ensures
        ({
            let end = trim_end(q.take(qpos)).len() as int;
            let c = word_cut(q, qpos);
            &&& 0 <= c <= end <= qpos
            &&& forall|j: int| end <= j < qpos ==> in_class(#[trigger] q[j], CharClass::WhiteSpace)
            &&& c == 0 || q[c - 1] == ' '
            &&& forall|j: int| c <= j < end ==> #[trigger] q[j] != ' '
        }),
{
    let p = q.take(qpos);
    let t = trim_end(p);
    lemma_trim_end_prefix(p);
    lemma_last_space_is_last(t);
    lemma_trim_end_tail(p);
    assert forall|j: int| t.len() <= j < qpos implies in_class(#[trigger] q[j], CharClass::WhiteSpace) by {
        assert(q[j] == p[j]);
    }
    match last_space(t) {
        Some(i) => {
            assert(t[i] == p[i]);
            assert forall|j: int| i + 1 <= j < t.len() implies #[trigger] q[j] != ' ' by {
                assert(t[j] == p[j]);
            }
        },
        None => {
            assert forall|j: int| 0 <= j < t.len() implies #[trigger] q[j] != ' ' by {
                assert(t[j] == p[j]);
            }
        },
    }
}

proof fn lemma_trim_end_tail(s: Seq<char>)
    ensures
        forall|j: int| trim_end(s).len() <= j < s.len() ==> in_class(#[trigger] s[j], CharClass::WhiteSpace),
    decreases s.len(),
{
    if s.len() > 0 && in_class(s.last(), CharClass::WhiteSpace) {
        let d = s.drop_last();
        lemma_trim_end_tail(d);
        lemma_trim_end_prefix(d);
        assert forall|j: int| trim_end(s).len() <= j < s.len() implies in_class(#[trigger] s[j], CharClass::WhiteSpace) by {
            if j < d.len() {
                assert(s[j] == d[j]);
            }
        }
    }
}

/// Enter accepts, and Ctrl-E with the edit key on asks to edit, the
/// selected match when there is one, leaving the state as it is; with no
/// match selected they do nothing.
pub proof fn law_accept_keys(st: StateView, n: int, draw_rows: int, edit: bool)
    requires
        st.wf(),
        st.sel <= usize::MAX,
    ensures
        st.sel < n ==> step(st, Key::Enter, n, draw_rows, edit) == (st, KeyOutcome::Select(st.sel as usize)),
        st.sel >= n ==> step(st, Key::Enter, n, draw_rows, edit) == (st, KeyOutcome::Continue),
        edit && st.sel < n ==> step(st, Key::EditOrEnd, n, draw_rows, edit) == (st, KeyOutcome::Edit(st.sel as usize)),
        edit && st.sel >= n ==> step(st, Key::EditOrEnd, n, draw_rows, edit) == (st, KeyOutcome::Continue),
{
}

/// Every key that changes the query brings the selection and the list back
/// to the top.
pub proof fn law_query_change_resets_selection(st: StateView, k: Key, n: int, draw_rows: int, edit: bool)
    ensures
        step(st, k, n, draw_rows, edit).1 == KeyOutcome::QueryChanged ==> step(st, k, n, draw_rows, edit).0.sel == 0
            && step(st, k, n, draw_rows, edit).0.scroll == 0,
{
}

/// Moving the cursor or the selection leaves the query as it is, and only
/// keys that change the query report a change.
pub proof fn law_navigation_keeps_query(st: StateView, k: Key, n: int, draw_rows: int, edit: bool)
    ensures
        step(st, k, n, draw_rows, edit).1 != KeyOutcome::QueryChanged ==> step(st, k, n, draw_rows, edit).0.query
            == st.query,
{
}

/// Esc and Ctrl-C cancel, leaving the state as it is.
pub proof fn law_cancel_keys(st: StateView, n: int, draw_rows: int, edit: bool)
    ensures
        step(st, Key::Escape, n, draw_rows, edit) == (st, KeyOutcome::Cancel),
        step(st, Key::Interrupt, n, draw_rows, edit) == (st, KeyOutcome::Cancel),
{
}

/// Enter accepts exactly the selected match, when there is one.
pub proof fn law_enter_accepts_selection(st: StateView, n: int, draw_rows: int, edit: bool)
    requires
        0 <= st.sel < n,
        st.sel <= usize::MAX,
    ensures
        step(st, Key::Enter, n, draw_rows, edit).1 == KeyOutcome::Select(st.sel as usize),
{
}

/// The selection moves within the match list: Down never goes past the
/// last match, and after clamping the selection is a match (or 0 when there
/// is none) with the first shown row not below it.
pub proof fn law_selection_within_matches(st: StateView, n: int, draw_rows: int, edit: bool)
    requires
        n > 0,
        0 <= st.sel < n,
    ensures
        step(st, Key::Down, n, draw_rows, edit).0.sel < n,
        step(st, Key::Up, n, draw_rows, edit).0.sel < n,
        draw_rows >= 0 ==> step(st, Key::PageDown, n, draw_rows, edit).0.sel < n,
        clamped(st, n).sel < n,
        clamped(st, n).scroll <= clamped(st, n).sel,
{
}

/// Clamping with no match selects row 0 and shows from the top.
pub proof fn law_clamp_without_matches(st: StateView)
    requires
        st.scroll >= 0,
    ensures
        clamped(st, 0).sel == 0,
        clamped(st, 0).scroll == 0,
{
}

/// The list scrolls so that the selected match is one of the rows shown.
pub proof fn law_selection_visible(sel: int, scroll: int, list_height: int)
    requires
        list_height > 0,
        sel >= 0,
    ensures
        scroll_for(sel, scroll, list_height) <= sel < scroll_for(sel, scroll, list_height) + list_height,
{
}

// ---------------------------------------------------------------------------
// The picker's rows.
// ---------------------------------------------------------------------------

/// `a` and `b` hold the same element at position `k`, or both have none.
pub open spec fn same_at<T>(a: Seq<T>, b: Seq<T>, k: int) -> bool {
    &&& (0 <= k < a.len()) == (0 <= k < b.len())
    &&& 0 <= k < a.len() ==> a[k] == b[k]
}

/// The row drawn for a match is made from the match itself (the item or
/// trick it points at, and its matched positions) and from whether it is
/// the selected one: it is the same row wherever the match stands in the
/// match list and whatever the other items or tricks are.
pub proof fn law_row_follows_match(
    ms1: Seq<MatchResult>,
    ms2: Seq<MatchResult>,
    items1: Seq<String>,
    items2: Seq<String>,
    tricks1: Option<TricksDisplay>,
    tricks2: Option<TricksDisplay>,
    w: (int, int, int),
    sel1: int,
    sel2: int,
    cols: int,
    i: int,
    j: int,
)
    requires
        0 <= i < ms1.len(),
        0 <= j < ms2.len(),
        ms1[i] == ms2[j],
        (i == sel1) == (j == sel2),
        match (tricks1, tricks2) {
            (Some(t1), Some(t2)) => same_at(t1.entries@, t2.entries@, ms1[i].index as int),
            (None, None) => same_at(items1, items2, ms1[i].index as int),
            _ => false,
        },
    ensures
        row_at(ms1, items1, tricks1, w, sel1, cols, i) == row_at(ms2, items2, tricks2, w, sel2, cols, j),
{
}

/// The list shows the rows of the matches in the order of the match list:
/// the rows from `from` to `to` are those from `from` to `mid` followed by
/// those from `mid` to `to`, and a single position gives its own row.
pub proof fn law_rows_in_list_order(
    ms: Seq<MatchResult>,
    items: Seq<String>,
    tricks: Option<TricksDisplay>,
    w: (int, int, int),
    sel: int,
    cols: int,
    from: int,
    mid: int,
    to: int,
)
    requires
        from <= mid <= to,
    ensures
        rows_between(ms, items, tricks, w, sel, cols, from, to) == rows_between(ms, items, tricks, w, sel, cols, from, mid)
            + rows_between(ms, items, tricks, w, sel, cols, mid, to),
        rows_between(ms, items, tricks, w, sel, cols, from, from + 1) == row_at(ms, items, tricks, w, sel, cols, from),
    decreases to - mid,
{
    assert(rows_between(ms, items, tricks, w, sel, cols, from, from) =~= Seq::<char>::empty());
    assert(rows_between(ms, items, tricks, w, sel, cols, from, from + 1) =~= Seq::<char>::empty() + row_at(ms, items, tricks, w, sel, cols, from));
    if mid < to {
        law_rows_in_list_order(ms, items, tricks, w, sel, cols, from, mid, to - 1);
        assert(rows_between(ms, items, tricks, w, sel, cols, from, to) =~= rows_between(ms, items, tricks, w, sel, cols, from, mid)
            + rows_between(ms, items, tricks, w, sel, cols, mid, to));
    } else {
        assert(rows_between(ms, items, tricks, w, sel, cols, mid, to) =~= Seq::<char>::empty());
        assert(rows_between(ms, items, tricks, w, sel, cols, from, to) =~= rows_between(ms, items, tricks, w, sel, cols, from, mid)
            + rows_between(ms, items, tricks, w, sel, cols, mid, to));
    }
}

// ---------------------------------------------------------------------------
// Window heights.
// ---------------------------------------------------------------------------

/// Outside full-screen mode the picker draws at least three rows.
pub proof fn law_height_at_least_three(h: Height, term_rows: int)
    requires
        !(h is Full),
    ensures
        h.rows_for(term_rows) >= 3,
{
}

/// A height read from a setting is a percentage from 1 to 100, a row count
/// of at least 3, or full screen.
pub proof fn law_parsed_height_ranges(s: Seq<char>)
    ensures
        height_of(s) matches Height::Percent(p) ==> 1 <= p <= 100,
        height_of(s) matches Height::Rows(r) ==> r >= 3,
{
    crate::picker::lemma_height_of_ranges(s);
}

// ---------------------------------------------------------------------------
// Ranking.
// ---------------------------------------------------------------------------

/// Two strictly increasing sequences with the same elements are equal.
proof fn lemma_increasing_same_elements(a: Seq<u32>, b: Seq<u32>)
    requires
        strictly_increasing(a),
        strictly_increasing(b),
        forall|x: u32| a.contains(x) <==> b.contains(x),
    ensures
        a == b,
    decreases a.len(),
{
    if a.len() == 0 {
        if b.len() > 0 {
            assert(b.contains(b[0]));
        }
        assert(a =~= b);
    } else {
        assert(a.contains(a[0]));
        assert(b.len() > 0);
        assert(b.contains(b[0]));
        let j = choose|j: int| 0 <= j < b.len() && b[j] == a[0];
        let i = choose|i: int| 0 <= i < a.len() && a[i] == b[0];
        assert(a[0] <= a[i]);
        assert(b[0] <= b[j]);
        assert(a[0] == b[0]);
        let a1 = a.drop_first();
        let b1 = b.drop_first();
        assert forall|x: u32| a1.contains(x) <==> b1.contains(x) by {
            if a1.contains(x) {
                let k = choose|k: int| 0 <= k < a1.len() && a1[k] == x;
                assert(a[k + 1] == x);
                assert(a.contains(x));
                let m = choose|m: int| 0 <= m < b.len() && b[m] == x;
                assert(a[0] < a[k + 1]);
                assert(m != 0);
                assert(b1[m - 1] == x);
            }
            if b1.contains(x) {
                let k = choose|k: int| 0 <= k < b1.len() && b1[k] == x;
                assert(b[k + 1] == x);
                assert(b.contains(x));
                let m = choose|m: int| 0 <= m < a.len() && a[m] == x;
                assert(b[0] < b[k + 1]);
                assert(m != 0);
                assert(a1[m - 1] == x);
            }
        }
        lemma_increasing_same_elements(a1, b1);
        assert(a =~= seq![a[0]] + a1);
        assert(b =~= seq![b[0]] + b1);
    }
}

/// Two sequences ordered strictly by `ranks_before`, with the same
/// elements, are equal.
proof fn lemma_ranked_same_elements(a: Seq<MatchView>, b: Seq<MatchView>)
    requires
        forall|i: int, j: int| 0 <= i < j < a.len() ==> ranks_before(a[i], a[j]),
        forall|i: int, j: int| 0 <= i < j < b.len() ==> ranks_before(b[i], b[j]),
        forall|x: MatchView| a.contains(x) <==> b.contains(x),
    ensures
        a == b,
    decreases a.len(),
{
    if a.len() == 0 {
        if b.len() > 0 {
            assert(b.contains(b[0]));
        }
        assert(a =~= b);
    } else {
        assert(a.contains(a[0]));
        assert(b.len() > 0);
        assert(b.contains(b[0]));
        let j = choose|j: int| 0 <= j < b.len() && b[j] == a[0];
        let i = choose|i: int| 0 <= i < a.len() && a[i] == b[0];
        if j > 0 {
            assert(ranks_before(b[0], b[j]));
            if i > 0 {
                assert(ranks_before(a[0], a[i]));
            }
        }
        assert(a[0] == b[0]);
        let a1 = a.drop_first();
        let b1 = b.drop_first();
        assert forall|x: MatchView| a1.contains(x) <==> b1.contains(x) by {
            if a1.contains(x) {
                let k = choose|k: int| 0 <= k < a1.len() && a1[k] == x;
                assert(a[k + 1] == x);
                assert(a.contains(x));
                let m = choose|m: int| 0 <= m < b.len() && b[m] == x;
                assert(ranks_before(a[0], a[k + 1]));
                assert(m != 0);
                assert(b1[m - 1] == x);
            }
            if b1.contains(x) {
                let k = choose|k: int| 0 <= k < b1.len() && b1[k] == x;
                assert(b[k + 1] == x);
                assert(b.contains(x));
                let m = choose|m: int| 0 <= m < a.len() && a[m] == x;
                assert(ranks_before(b[0], b[k + 1]));
                assert(m != 0);
                assert(a1[m - 1] == x);
            }
        }
        lemma_ranked_same_elements(a1, b1);
        assert(a =~= seq![a[0]] + a1);
        assert(b =~= seq![b[0]] + b1);
    }
}

/// An entry of one ranking of the items is an entry of any other.
proof fn lemma_ranked_entry_shared(p: PatternView, items: Seq<Seq<char>>, r1: Seq<MatchView>, r2: Seq<MatchView>, m: MatchView)
    requires
        !p.empty,
        ranked(p, items, r1),
        ranked(p, items, r2),
        r1.contains(m),
    ensures
        r2.contains(m),
{
    let t = choose|t: int| 0 <= t < r1.len() && r1[t] == m;
    assert(r1[t] == m);
    let k = m.index as int;
    assert(nucleo_indices(p.query, p.respect_case, items[k]) is Some);
    let u = choose|u: int| 0 <= u < r2.len() && r2[u].index == k;
    let n = r2[u];
    match nucleo_indices(p.query, p.respect_case, items[k]) {
        Some((s, ps)) => {
            assert(sorted_unique_of(m.positions, ps));
            assert(sorted_unique_of(n.positions, ps));
            lemma_increasing_same_elements(m.positions, n.positions);
            assert(n == m);
            assert(r2[u] == m);
        },
        None => {},
    }
}

/// Ranking is a function of the pattern and the items: any two results
/// that rank the same items against the same pattern are equal, so
/// matching the items on the thread pool or one by one cannot change it.
pub proof fn law_ranking_unique(p: PatternView, items: Seq<Seq<char>>, r1: Seq<MatchView>, r2: Seq<MatchView>)
    requires
        ranked(p, items, r1),
        ranked(p, items, r2),
    ensures
        r1 == r2,
{
    if p.empty {
        assert(r1 =~= r2);
    } else {
        assert forall|x: MatchView| r1.contains(x) <==> r2.contains(x) by {
            if r1.contains(x) {
                lemma_ranked_entry_shared(p, items, r1, r2, x);
            }
            if r2.contains(x) {
                lemma_ranked_entry_shared(p, items, r2, r1, x);
            }
        }
        lemma_ranked_same_elements(r1, r2);
    }
}

// ---------------------------------------------------------------------------
// Suggestions.
// ---------------------------------------------------------------------------

/// `f` occurs somewhere in `l`.
pub open spec fn has_text(l: Seq<char>, f: Seq<char>) -> bool {
    exists|k: int| occurs_at(l, f, k)
}

/// The lines of a command's output that are not empty, in order.
pub open spec fn nonblank_lines(out: Seq<char>) -> Seq<Seq<char>> {
    lines(out).filter(|l: Seq<char>| l.len() > 0)
}

/// The options carry a `--filter` text that one of the lines holds.
pub open spec fn filter_hits(ls: Seq<Seq<char>>, o: Option<OptsView>) -> bool {
    &&& o matches Some(ov)
    &&& ov.filter matches Some(f)
    &&& exists|j: int| 0 <= j < ls.len() && has_text(#[trigger] ls[j], f)
}

proof fn lemma_non_empty_filter(ls: Seq<Seq<char>>)
    ensures
        non_empty(ls) == ls.filter(|l: Seq<char>| l.len() > 0),
    decreases ls.len(),
{
    reveal(Seq::filter);
    if ls.len() > 0 {
        lemma_non_empty_filter(ls.drop_last());
    }
}

proof fn lemma_find_from_some(l: Seq<char>, f: Seq<char>, i: int)
    requires
        0 <= i,
    ensures
        find_from(l, f, i) is Some <==> exists|k: int| i <= k && occurs_at(l, f, k),
    decreases l.len() - i,
{
    if i + f.len() <= l.len() {
        if !(f.len() == 0 || l.subrange(i, i + f.len()) == f) {
            lemma_find_from_some(l, f, i + 1);
            if exists|k: int| i <= k && occurs_at(l, f, k) {
                let k = choose|k: int| i <= k && occurs_at(l, f, k);
                if k == i {
                    assert(l.subrange(i, i + f.len()) == f);
                }
                assert(i + 1 <= k);
            }
        } else {
            if f.len() == 0 {
                assert(l.subrange(i, i + f.len()) =~= f);
            }
            assert(occurs_at(l, f, i));
        }
    } else {
        if exists|k: int| i <= k && occurs_at(l, f, k) {
            let k = choose|k: int| i <= k && occurs_at(l, f, k);
            assert(false);
        }
    }
}

proof fn lemma_first_containing(ls: Seq<Seq<char>>, f: Seq<char>, i: int)
    requires
        0 <= i <= ls.len(),
    ensures
        match first_containing(ls, f, i) {
            Some(l) => exists|j: int|
                i <= j < ls.len() && ls[j] == l && has_text(ls[j], f) && forall|t: int|
                    i <= t < j ==> !has_text(#[trigger] ls[t], f),
            None => forall|j: int| i <= j < ls.len() ==> !has_text(#[trigger] ls[j], f),
        },
    decreases ls.len() - i,
{
    if i < ls.len() {
        lemma_find_from_some(ls[i], f, 0);
        lemma_first_containing(ls, f, i + 1);
        if find_from(ls[i], f, 0) is Some {
            assert(has_text(ls[i], f));
        } else {
            assert(!has_text(ls[i], f));
            match first_containing(ls, f, i + 1) {
                Some(l) => {
                    let j = choose|j: int|
                        i + 1 <= j < ls.len() && ls[j] == l && has_text(ls[j], f) && forall|t: int|
                            i + 1 <= t < j ==> !has_text(#[trigger] ls[t], f);
                    assert(forall|t: int| i <= t < j ==> !has_text(#[trigger] ls[t], f));
                },
                None => {},
            }
        }
    }
}

/// What a suggestion command's output leads to. With no non-empty line the
/// user types the value. When the options' `--filter` text occurs in a
/// non-empty line, the first such line is taken without asking, through
/// `--column`, with the `--map` command. Otherwise the user picks among the
/// non-empty lines, in order, and the picker starts from the `--query`
/// text of the options.
pub proof fn law_suggestion_choice(out: Seq<char>, o: Option<OptsView>)
    ensures
        ({
            let ls = nonblank_lines(out);
            let c = choice_of(out, o);
            &&& (c.0 == 0) <==> ls.len() == 0
            &&& ls.len() > 0 && filter_hits(ls, o) ==> {
                &&& c.0 == 1
                &&& c.4 == o->0.map
                &&& exists|j: int|
                    0 <= j < ls.len() && has_text(ls[j], o->0.filter->0) && c.1 == column_of(ls[j], o->0) && forall|t: int|
                        0 <= t < j ==> !has_text(#[trigger] ls[t], o->0.filter->0)
            }
            &&& ls.len() > 0 && !filter_hits(ls, o) ==> {
                &&& c.0 == 2
                &&& c.2 == ls
                &&& c.3 == match o {
                    Some(ov) => ov.query,
                    None => None,
                }
                &&& c.4 is None
            }
        }),
{
    let ls = nonblank_lines(out);
    lemma_non_empty_filter(lines(out));
    if ls.len() > 0 {
        match o {
            Some(ov) => match ov.filter {
                Some(f) => {
                    lemma_first_containing(ls, f, 0);
                    if filter_hits(ls, o) {
                        let j = choose|j: int| 0 <= j < ls.len() && has_text(#[trigger] ls[j], f);
                        assert(has_text(ls[j], f));
                    }
                },
                None => {},
            },
            None => {},
        }
    }
}

// ---------------------------------------------------------------------------
// Placeholders.
// ---------------------------------------------------------------------------

/// Interpolation is cancelled exactly when one of the answers is missing.
pub proof fn law_interpolation_cancelled_iff_unanswered(s: Seq<char>, answers: Seq<(Seq<char>, Option<Seq<char>>)>)
    ensures
        substituted(s, answers) is None <==> exists|i: int| 0 <= i < answers.len() && (#[trigger] answers[i]).1 is None,
    decreases answers.len(),
{
    if answers.len() > 0 {
        law_interpolation_cancelled_iff_unanswered(s, answers.drop_last());
        let d = answers.drop_last();
        if exists|i: int| 0 <= i < d.len() && (#[trigger] d[i]).1 is None {
            let i = choose|i: int| 0 <= i < d.len() && (#[trigger] d[i]).1 is None;
            assert(answers[i] == d[i]);
        }
        if exists|i: int| 0 <= i < answers.len() && (#[trigger] answers[i]).1 is None {
            let i = choose|i: int| 0 <= i < answers.len() && (#[trigger] answers[i]).1 is None;
            if i < answers.len() - 1 {
                assert(d[i] == answers[i]);
            }
        }
    }
}

/// How many prompts a user who answers the `i`-th prompt with `ans[i]`
/// (`None`: cancel) is asked: all of them up to and including the first
/// one cancelled, or every one.
pub open spec fn prompts_asked(ans: Seq<Option<Seq<char>>>) -> nat
    decreases ans.len(),
{
    if ans.len() == 0 {
        0
    } else if ans[0] is None {
        1
    } else {
        1 + prompts_asked(ans.drop_first())
    }
}

/// The first `k` answers of such a user, each under its prompt's name.
pub open spec fn answers_given(names: Seq<Seq<char>>, ans: Seq<Option<Seq<char>>>, k: int) -> Seq<
    (Seq<char>, Option<Seq<char>>),
> {
    Seq::new(k as nat, |i: int| (names[i], ans[i]))
}

/// The names of a session's prompts, in order.
pub open spec fn prompt_names(s: Interpolation) -> Seq<Seq<char>> {
    s.prompts().map_values(|p: VarPrompt| p.name@)
}

/// A session on the course of the user who answers with `ans`: well formed,
/// one planned answer per prompt, and the answers so far are that user's,
/// none past the point where the user stops.
pub open spec fn on_course(s: Interpolation, ans: Seq<Option<Seq<char>>>) -> bool {
    &&& s.wf()
    &&& ans.len() == s.prompts().len()
    &&& s.answers().len() <= prompts_asked(ans)
    &&& s.answers() == answers_given(prompt_names(s), ans, s.answers().len() as int)
}

proof fn lemma_prompts_asked(ans: Seq<Option<Seq<char>>>)
    ensures
        prompts_asked(ans) <= ans.len(),
        ans.len() > 0 ==> prompts_asked(ans) > 0,
        forall|i: int| 0 <= i < prompts_asked(ans) - 1 ==> (#[trigger] ans[i]) is Some,
        prompts_asked(ans) < ans.len() ==> ans[prompts_asked(ans) - 1] is None,
    decreases ans.len(),
{
    if ans.len() > 0 && ans[0] is Some {
        let rest = ans.drop_first();
        lemma_prompts_asked(rest);
        assert forall|i: int| 0 <= i < prompts_asked(ans) - 1 implies (#[trigger] ans[i]) is Some by {
            if i > 0 {
                assert(ans[i] == rest[i - 1]);
            }
        }
        if prompts_asked(ans) < ans.len() {
            assert(ans[prompts_asked(ans) - 1] == rest[prompts_asked(rest) - 1]);
        }
    }
}

/// A session starts on the course of any user: nothing is answered yet.
pub proof fn law_interpolation_start(s: Interpolation, ans: Seq<Option<Seq<char>>>)
    requires
        s.wf(),
        s.answers().len() == 0,
        ans.len() == s.prompts().len(),
    ensures
        on_course(s, ans),
{
    assert(s.answers() =~= answers_given(prompt_names(s), ans, 0));
}

/// Answering the next prompt as the user does keeps the session on that
/// user's course: the prompts are asked one at a time, in order.
pub proof fn law_interpolation_step(s: Interpolation, t: Interpolation, ans: Seq<Option<Seq<char>>>)
    requires
        on_course(s, ans),
        !s.done(),
        t.wf(),
        t.prompts() == s.prompts(),
        t.answers() == s.answers().push((s.prompts()[s.answers().len() as int].name@, ans[s.answers().len() as int])),
    ensures
        on_course(t, ans),
        t.answers().len() == s.answers().len() + 1,
{
    let k = s.answers().len() as int;
    law_interpolation_session(s, ans);
    assert(prompt_names(t) == prompt_names(s));
    assert(t.answers() =~= answers_given(prompt_names(t), ans, k + 1));
}

/// A session on the course of the user who answers with `ans` is done
/// exactly once that user has stopped: after the first cancelled prompt, or
/// after the last one. While it is not done, the next prompt is the first
/// unanswered one. Once done, its outcome is the snippet with each prompt's
/// `<name>` replaced by the user's answers in order, and there is none
/// exactly when the user cancelled a prompt.
pub proof fn law_interpolation_session(s: Interpolation, ans: Seq<Option<Seq<char>>>)
    requires
        on_course(s, ans),
    ensures
        s.done() <==> s.answers().len() == prompts_asked(ans),
        !s.done() ==> s.answers().len() < s.prompts().len(),
        s.done() ==> substituted(s.snippet(), s.answers()) == substituted(
            s.snippet(),
            answers_given(prompt_names(s), ans, ans.len() as int),
        ),
        s.done() ==> (substituted(s.snippet(), s.answers()) is None <==> exists|i: int|
            0 <= i < ans.len() && (#[trigger] ans[i]) is None),
{
    lemma_prompts_asked(ans);
    let k = s.answers().len() as int;
    let a = prompts_asked(ans) as int;
    let n = ans.len() as int;
    let full = answers_given(prompt_names(s), ans, n);
    if k == a {
        if a < n {
            assert(s.answers()[k - 1].1 == ans[k - 1]);
        }
    }
    if s.done() {
        if k < n {
            assert(s.answers().last().1 is None);
            assert(s.answers()[k - 1].1 == ans[k - 1]);
            assert(k >= a);
        }
        assert(k == a);
        law_interpolation_cancelled_iff_unanswered(s.snippet(), full);
        law_interpolation_cancelled_iff_unanswered(s.snippet(), s.answers());
        if k == n {
            assert(s.answers() =~= full);
        } else {
            assert(s.answers()[k - 1].1 is None);
            assert(full[k - 1].1 is None);
        }
        assert forall|i: int| 0 <= i < ans.len() && (#[trigger] ans[i]) is None implies full[i].1 is None by {}
        if substituted(s.snippet(), full) is None {
            let i = choose|i: int| 0 <= i < full.len() && (#[trigger] full[i]).1 is None;
            assert(ans[i] is None);
        }
    }
}

proof fn lemma_first_occurrences(s: Seq<Seq<char>>)
    ensures
        forall|i: int, j: int| 0 <= i < j < first_occurrences(s).len() ==> first_occurrences(s)[i] != first_occurrences(s)[j],
        forall|x: Seq<char>| first_occurrences(s).contains(x) <==> s.contains(x),
    decreases s.len(),
{
    if s.len() > 0 {
        let p = s.drop_last();
        let l = s.last();
        let d = first_occurrences(p);
        lemma_first_occurrences(p);
        assert forall|x: Seq<char>| s.contains(x) <==> (p.contains(x) || x == l) by {
            if s.contains(x) {
                let i = choose|i: int| 0 <= i < s.len() && s[i] == x;
                if i < s.len() - 1 {
                    assert(p[i] == x);
                }
            }
            if p.contains(x) {
                let i = choose|i: int| 0 <= i < p.len() && p[i] == x;
                assert(s[i] == x);
            }
            if x == l {
                assert(s[s.len() - 1] == x);
            }
        }
        if !d.contains(l) {
            let e = d.push(l);
            assert forall|x: Seq<char>| e.contains(x) <==> (d.contains(x) || x == l) by {
                if e.contains(x) {
                    let i = choose|i: int| 0 <= i < e.len() && e[i] == x;
                    if i < d.len() {
                        assert(d[i] == x);
                    }
                }
                if d.contains(x) {
                    let i = choose|i: int| 0 <= i < d.len() && d[i] == x;
                    assert(e[i] == x);
                }
                if x == l {
                    assert(e[d.len() as int] == x);
                }
            }
            assert forall|i: int, j: int| 0 <= i < j < e.len() implies e[i] != e[j] by {
                if j == d.len() {
                    assert(e[i] == d[i]);
                    assert(d.contains(d[i]));
                } else {
                    assert(e[i] == d[i] && e[j] == d[j]);
                }
            }
        }
    }
}

/// A snippet's placeholder names are distinct, and they are exactly the
/// names its placeholders use.
pub proof fn law_placeholder_names_distinct(snippet: Seq<char>)
    ensures
        forall|i: int, j: int|
            0 <= i < j < placeholder_names(snippet).len() ==> placeholder_names(snippet)[i] != placeholder_names(snippet)[j],
        forall|x: Seq<char>| placeholder_names(snippet).contains(x) <==> crate::runner::placeholder_matches(snippet).contains(x),
{
    lemma_first_occurrences(crate::runner::placeholder_matches(snippet));
}

} // verus!
