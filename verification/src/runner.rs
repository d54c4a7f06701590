//! Placeholder interpolation: which `<variable>` placeholders a snippet
//! holds, what to ask the user for each, how a suggestion command's output
//! becomes a value, and the substitution of the answers.
//!
//! Running commands and prompting on the terminal are the caller's.

use vstd::prelude::*;
use crate::item::{duplicate_suggestion, suggestion_view, OptsView, Suggestion, SuggestionOpts, SuggestionView, VariableMap};
use crate::matcher::{strings_view, Scheme};
use crate::picker::{Height, PickResult, PickerConfig};
use crate::text::{
    chars_of, eq_exec, find_exec, find_from, lines, lines_exec, replace, replace_exec, split_str,
    split_str_exec, split_whitespace, split_whitespace_exec, string_of, trim, trim_chars, view_all,
};

verus! {

// ---------------------------------------------------------------------------
// Placeholders.
// ---------------------------------------------------------------------------

/// The placeholder pattern: `<`, a word character, then word characters,
/// digits, `-` or `_`, then `>`; group 1 is the variable's name.
pub const PLACEHOLDER_PATTERN: &'static str = "<(\\w[\\w\\d\\-_]*)>";

/// Name for what the `regex` crate finds with `pattern` in `haystack`:
/// `None` when the pattern does not compile; otherwise, for each
/// non-overlapping match from left to right, the text of capture group 1
/// when that group took part in the match.
pub uninterp spec fn regex_group1(pattern: Seq<char>, haystack: Seq<char>) -> Option<Seq<Option<Seq<char>>>>;

pub open spec fn opt_strings_view(v: Seq<Option<String>>) -> Seq<Option<Seq<char>>> {
    v.map_values(|o: Option<String>| crate::item::opt_view(o))
}

/// Compiles `pattern` with `regex::Regex::new` and collects capture group 1
/// of each match of `captures_iter`. The contract claims that the result
/// is a fixed function of the pattern and the haystack.
#[verifier::external_body]
fn regex_captures(pattern: &str, haystack: &str) -> (r: Option<Vec<Option<String>>>)
    ensures
        match r {
            Some(v) => regex_group1(pattern@, haystack@) == Some(opt_strings_view(v@)),
            None => regex_group1(pattern@, haystack@) is None,
        },
{
    let re = match regex::Regex::new(pattern) {
        Ok(re) => re,
        Err(_) => return None,
    };
    Some(re.captures_iter(haystack).map(|c| c.get(1).map(|m| m.as_str().to_string())).collect())
}

/// The groups that took part, in order.
pub open spec fn present(gs: Seq<Option<Seq<char>>>) -> Seq<Seq<char>>
    decreases gs.len(),
{
    if gs.len() == 0 {
        Seq::empty()
    } else {
        match gs.last() {
            Some(g) => present(gs.drop_last()).push(g),
            None => present(gs.drop_last()),
        }
    }
}

/// The placeholder names found in a snippet, from left to right, repeats
/// included.
pub open spec fn placeholder_matches(snippet: Seq<char>) -> Seq<Seq<char>> {
    match regex_group1(PLACEHOLDER_PATTERN@, snippet) {
        Some(gs) => present(gs),
        None => Seq::empty(),
    }
}

/// `s` without repeated elements, each kept where it first occurs.
pub open spec fn first_occurrences(s: Seq<Seq<char>>) -> Seq<Seq<char>>
    decreases s.len(),
{
    if s.len() == 0 {
        Seq::empty()
    } else {
        let d = first_occurrences(s.drop_last());
        if d.contains(s.last()) {
            d
        } else {
            d.push(s.last())
        }
    }
}

/// The distinct placeholder names of a snippet, in order of first
/// appearance.
pub open spec fn placeholder_names(snippet: Seq<char>) -> Seq<Seq<char>> {
    first_occurrences(placeholder_matches(snippet))
}

fn contains_string(v: &Vec<String>, x: &String) -> (r: bool)
    ensures
        r == strings_view(v@).contains(x@),
{
    let xv = chars_of(x.as_str());
    let mut k: usize = 0;
    while k < v.len()
        invariant
            k <= v.len(),
            xv@ == x@,
            forall|j: int| 0 <= j < k ==> v@[j]@ != x@,
        decreases v.len() - k,
    {
        if eq_exec(&chars_of(v[k].as_str()), &xv) {
            assert(strings_view(v@)[k as int] == x@);
            return true;
        }
        k = k + 1;
    }
    proof {
        if strings_view(v@).contains(x@) {
            let j = choose|j: int| 0 <= j < strings_view(v@).len() && strings_view(v@)[j] == x@;
            assert(v@[j]@ == x@);
        }
    }
    false
}

/// The distinct names among the captured groups, in order of first
/// appearance.
pub fn distinct_names(groups: &Vec<Option<String>>) -> (r: Vec<String>)
    ensures
        strings_view(r@) == first_occurrences(present(opt_strings_view(groups@))),
{
    let ghost gv = opt_strings_view(groups@);
    let mut r: Vec<String> = Vec::new();
    let mut k: usize = 0;
    while k < groups.len()
        invariant
            k <= groups.len(),
            gv == opt_strings_view(groups@),
            strings_view(r@) == first_occurrences(present(gv.take(k as int))),
        decreases groups.len() - k,
    {
        assert(gv.take(k + 1).drop_last() =~= gv.take(k as int));
        assert(gv.take(k + 1).last() == crate::item::opt_view(groups@[k as int]));
        match &groups[k] {
            Some(name) => {
                assert(present(gv.take(k + 1)) == present(gv.take(k as int)).push(name@));
                assert(present(gv.take(k as int)).push(name@).drop_last() =~= present(gv.take(k as int)));
                if !contains_string(&r, name) {
                    let ghost before = strings_view(r@);
                    r.push(name.clone());
                    assert(strings_view(r@) =~= before.push(name@));
                }
            },
            None => {
                assert(present(gv.take(k + 1)) == present(gv.take(k as int)));
            },
        }
        k = k + 1;
    }
    assert(gv.take(k as int) =~= gv);
    r
}

/// The distinct `<variable>` names of a snippet, in order of first
/// appearance.
pub fn placeholders(snippet: &str) -> (r: Vec<String>)
    ensures
        strings_view(r@) == placeholder_names(snippet@),
{
    match regex_captures(PLACEHOLDER_PATTERN, snippet) {
        Some(groups) => distinct_names(&groups),
        None => {
            let r: Vec<String> = Vec::new();
            assert(strings_view(r@) =~= Seq::<Seq<char>>::empty());
            r
        },
    }
}

// ---------------------------------------------------------------------------
// What to ask for each placeholder.
// ---------------------------------------------------------------------------

/// One placeholder to fill in: its name and the suggestion found for it
/// under the snippet's tags, if any.
pub struct VarPrompt {
    pub name: String,
    pub suggestion: Option<Suggestion>,
}

pub open spec fn prompt_view(p: VarPrompt) -> (Seq<char>, Option<SuggestionView>) {
    (
        p.name@,
        match p.suggestion {
            Some(s) => Some(suggestion_view(s)),
            None => None,
        },
    )
}

/// The prompts for a snippet under `tags`: one per distinct placeholder, in
/// order of first appearance, each with the suggestion the variable store
/// gives for it.
pub fn variable_prompts(snippet: &str, tags: &str, variables: &VariableMap) -> (r: Vec<VarPrompt>)
    ensures
        r@.len() == placeholder_names(snippet@).len(),
        forall|i: int|
            0 <= i < r@.len() ==> #[trigger] prompt_view(r@[i]) == (
                placeholder_names(snippet@)[i],
                variables@.lookup(tags@, placeholder_names(snippet@)[i]),
            ),
{
    let names = placeholders(snippet);
    let mut r: Vec<VarPrompt> = Vec::new();
    let mut k: usize = 0;
    while k < names.len()
        invariant
            k <= names.len(),
            strings_view(names@) == placeholder_names(snippet@),
            r@.len() == k,
            forall|i: int|
                0 <= i < k ==> #[trigger] prompt_view(r@[i]) == (
                    placeholder_names(snippet@)[i],
                    variables@.lookup(tags@, placeholder_names(snippet@)[i]),
                ),
        decreases names.len() - k,
    {
        assert(strings_view(names@)[k as int] == names@[k as int]@);
        let suggestion = match variables.get_suggestion(tags, names[k].as_str()) {
            Some(s) => Some(duplicate_suggestion(s)),
            None => None,
        };
        r.push(VarPrompt { name: names[k].clone(), suggestion });
        k = k + 1;
    }
    r
}

// ---------------------------------------------------------------------------
// Substitution.
// ---------------------------------------------------------------------------

/// `<name>`.
pub open spec fn bracketed(name: Seq<char>) -> Seq<char> {
    seq!['<'] + name + seq!['>']
}

/// The snippet with the answers applied in order, each replacing every
/// `<name>` of the text so far by its value; `None` as soon as an answer
/// is missing (the user cancelled).
pub open spec fn substituted(s: Seq<char>, answers: Seq<(Seq<char>, Option<Seq<char>>)>) -> Option<Seq<char>>
    decreases answers.len(),
{
    if answers.len() == 0 {
        Some(s)
    } else {
        match substituted(s, answers.drop_last()) {
            None => None,
            Some(r) => match answers.last().1 {
                None => None,
                Some(v) => Some(replace(r, bracketed(answers.last().0), v)),
            },
        }
    }
}

pub open spec fn answers_view(a: Seq<(String, Option<String>)>) -> Seq<(Seq<char>, Option<Seq<char>>)> {
    a.map_values(
        |x: (String, Option<String>)|
            (
                x.0@,
                match x.1 {
                    Some(v) => Some(v@),
                    None => None,
                },
            ),
    )
}

/// Fills the snippet's placeholders: each answer (a variable name and the
/// value the user gave, or `None` when the user cancelled) replaces every
/// `<name>` in turn; a cancelled answer cancels the whole interpolation.
pub fn interpolate(snippet: &str, answers: &Vec<(String, Option<String>)>) -> (r: Option<String>)
    ensures
        match r {
            Some(t) => substituted(snippet@, answers_view(answers@)) == Some(t@),
            None => substituted(snippet@, answers_view(answers@)) is None,
        },
{
    let ghost av = answers_view(answers@);
    let mut result = chars_of(snippet);
    let mut k: usize = 0;
    while k < answers.len()
        invariant
            k <= answers.len(),
            av == answers_view(answers@),
            substituted(snippet@, av.take(k as int)) == Some(result@),
        decreases answers.len() - k,
    {
        assert(av.take(k + 1).drop_last() =~= av.take(k as int));
        assert(av.take(k + 1).last() == av[k as int]);
        match &answers[k].1 {
            None => {
                proof {
                    lemma_substituted_stays_none(snippet@, av, k + 1);
                }
                return None;
            },
            Some(v) => {
                let mut pat: Vec<char> = vec!['<'];
                let name = chars_of(answers[k].0.as_str());
                crate::text::extend(&mut pat, &name);
                pat.push('>');
                assert(pat@ =~= bracketed(answers@[k as int].0@));
                result = replace_exec(&result, &pat, &chars_of(v.as_str()));
            },
        }
        k = k + 1;
    }
    assert(av.take(k as int) =~= av);
    Some(string_of(&result))
}

/// An interpolation in progress: the snippet, its prompts (one per
/// distinct placeholder, in order of first appearance) and the answers
/// given so far, in the prompts' order.
pub struct Interpolation {
    snippet: String,
    prompts: Vec<VarPrompt>,
    answers: Vec<(String, Option<String>)>,
}

impl Interpolation {
    pub closed spec fn snippet(&self) -> Seq<char> {
        self.snippet@
    }

    pub closed spec fn prompts(&self) -> Seq<VarPrompt> {
        self.prompts@
    }

    pub closed spec fn answers(&self) -> Seq<(Seq<char>, Option<Seq<char>>)> {
        answers_view(self.answers@)
    }

    /// Every answer is for the prompt at its position, and only the last
    /// one may be missing.
    pub open spec fn wf(&self) -> bool {
        &&& self.answers().len() <= self.prompts().len()
        &&& forall|i: int| 0 <= i < self.answers().len() ==> (#[trigger] self.answers()[i]).0 == self.prompts()[i].name@
        &&& forall|i: int| 0 <= i < self.answers().len() - 1 ==> (#[trigger] self.answers()[i]).1 is Some
    }

    /// Every prompt is answered, or the last answer cancelled.
    pub open spec fn done(&self) -> bool {
        ||| self.answers().len() == self.prompts().len()
        ||| (self.answers().len() > 0 && self.answers().last().1 is None)
    }

    /// Starts interpolating `snippet` under `tags`: nothing answered yet.
    pub fn start(snippet: &str, tags: &str, variables: &VariableMap) -> (r: Interpolation)
        ensures
            r.wf(),
            r.snippet() == snippet@,
            r.answers().len() == 0,
            r.prompts().len() == placeholder_names(snippet@).len(),
            forall|i: int|
                0 <= i < r.prompts().len() ==> #[trigger] prompt_view(r.prompts()[i]) == (
                    placeholder_names(snippet@)[i],
                    variables@.lookup(tags@, placeholder_names(snippet@)[i]),
                ),
    {
        let r = Interpolation {
            snippet: string_of(&chars_of(snippet)),
            prompts: variable_prompts(snippet, tags, variables),
            answers: Vec::new(),
        };
        assert(r.answers() =~= Seq::<(Seq<char>, Option<Seq<char>>)>::empty());
        r
    }

    /// The prompt to ask next: the first unanswered one, unless every prompt
    /// is answered or the user cancelled.
    pub fn next_prompt(&self) -> (r: Option<&VarPrompt>)
        requires
            self.wf(),
        ensures
            match r {
                Some(p) => !self.done() && *p == self.prompts()[self.answers().len() as int],
                None => self.done(),
            },
    {
        let n = self.answers.len();
        if n == self.prompts.len() {
            return None;
        }
        if n > 0 && self.answers[n - 1].1.is_none() {
            assert(self.answers()[n - 1].1 is None);
            return None;
        }
        proof {
            if n > 0 {
                assert(self.answers()[n - 1].1 is Some);
            }
        }
        Some(&self.prompts[n])
    }

    /// Records the answer to the next prompt: the value the user gave, or
    /// `None` when the user cancelled.
    pub fn answer(&mut self, value: Option<String>)
        requires
            old(self).wf(),
            !old(self).done(),
        ensures
            final(self).wf(),
            final(self).snippet() == old(self).snippet(),
            final(self).prompts() == old(self).prompts(),
            final(self).answers() == old(self).answers().push(
                (old(self).prompts()[old(self).answers().len() as int].name@, crate::item::opt_view(value)),
            ),
    {
        let n = self.answers.len();
        let name = self.prompts[n].name.clone();
        let ghost before = self.answers@;
        self.answers.push((name, value));
        assert(self.answers() =~= answers_view(before).push(
            (self.prompts()[n as int].name@, crate::item::opt_view(value)),
        ));
        proof {
            if n > 0 {
                assert(answers_view(before)[n - 1].1 is Some);
            }
        }
    }

    /// The outcome once done: the snippet with the answers substituted in
    /// order, or `None` when the user cancelled; `None` while prompts
    /// remain.
    pub fn result(&self) -> (r: Option<Option<String>>)
        requires
            self.wf(),
        ensures
            match r {
                Some(o) => self.done() && match o {
                    Some(t) => substituted(self.snippet(), self.answers()) == Some(t@),
                    None => substituted(self.snippet(), self.answers()) is None,
                },
                None => !self.done(),
            },
    {
        if self.next_prompt().is_some() {
            None
        } else {
            Some(interpolate(self.snippet.as_str(), &self.answers))
        }
    }
}

proof fn lemma_substituted_stays_none(s: Seq<char>, a: Seq<(Seq<char>, Option<Seq<char>>)>, k: int)
    requires
        0 <= k <= a.len(),
        substituted(s, a.take(k)) is None,
    ensures
        substituted(s, a) is None,
    decreases a.len() - k,
{
    if k < a.len() {
        assert(a.take(k + 1).drop_last() =~= a.take(k));
        lemma_substituted_stays_none(s, a, k + 1);
    } else {
        assert(a.take(k) =~= a);
    }
}

// ---------------------------------------------------------------------------
// Suggestions.
// ---------------------------------------------------------------------------

/// The column `--column` picks from a line: the whole line when no column
/// is set or the column is 0; otherwise the `column`-th field (split at the
/// delimiter, or at white space when there is none), or the whole line when
/// there is no such field; the field or line trimmed.
pub open spec fn column_of(line: Seq<char>, o: OptsView) -> Seq<char> {
    match o.column {
        None => line,
        Some(col) => if col == 0 {
            line
        } else {
            let parts = match o.delimiter {
                Some(d) => split_str(line, d),
                None => split_whitespace(line),
            };
            trim(
                if (col - 1) < parts.len() {
                    parts[col - 1]
                } else {
                    line
                },
            )
        },
    }
}

/// Extracts a specific column from a line according to the suggestion
/// options.
pub fn extract_column(line: &str, opts: &SuggestionOpts) -> (r: String)
    ensures
        r@ == column_of(line@, opts@),
{
    match opts.column {
        None => string_of(&chars_of(line)),
        Some(col) => {
            if col == 0 {
                return string_of(&chars_of(line));
            }
            let v = chars_of(line);
            let parts = match &opts.delimiter {
                Some(d) => split_str_exec(&v, &chars_of(d.as_str())),
                None => split_whitespace_exec(&v),
            };
            let i = (col - 1) as usize;
            let picked = if i < parts.len() {
                trim_chars(&parts[i])
            } else {
                trim_chars(&v)
            };
            string_of(&picked)
        },
    }
}

/// The command to run for a suggestion: the trimmed text, or `None` when
/// nothing is left (the user then types the value freely).
pub fn suggestion_command(command: &str) -> (r: Option<String>)
    ensures
        match r {
            Some(c) => trim(command@).len() > 0 && c@ == trim(command@),
            None => trim(command@).len() == 0,
        },
{
    let t = trim_chars(&chars_of(command));
    if t.len() == 0 {
        None
    } else {
        Some(string_of(&t))
    }
}

/// The lines that are not empty, in order.
pub open spec fn non_empty(ls: Seq<Seq<char>>) -> Seq<Seq<char>>
    decreases ls.len(),
{
    if ls.len() == 0 {
        Seq::empty()
    } else if ls.last().len() > 0 {
        non_empty(ls.drop_last()).push(ls.last())
    } else {
        non_empty(ls.drop_last())
    }
}

/// The first of the lines from position `i` on that contains `f`.
pub open spec fn first_containing(ls: Seq<Seq<char>>, f: Seq<char>, i: int) -> Option<Seq<char>>
    decreases ls.len() - i,
{
    if i < 0 || i >= ls.len() {
        None
    } else if find_from(ls[i], f, 0) is Some {
        Some(ls[i])
    } else {
        first_containing(ls, f, i + 1)
    }
}

/// What a suggestion command's output leads to.
pub enum SuggestionChoice {
    /// No output line: the user types the value.
    Freeform,
    /// A line was chosen without asking (the `--filter` option): the
    /// value, and the `--map` command that transforms it, if any.
    Value(String, Option<String>),
    /// The user picks among these lines, with this initial query.
    Pick(Vec<String>, Option<String>),
}

/// The choice for a command's output, as (kind, value, lines, initial
/// query, map command): no non-empty line means free-form input (kind 0);
/// with a filter, the first line that contains it gives the value, through
/// the column option, to be transformed by the `--map` command (kind 1);
/// otherwise the user picks among the non-empty lines, starting from the
/// `--query` option (kind 2).
pub open spec fn choice_of(out: Seq<char>, o: Option<OptsView>) -> (
    int,
    Seq<char>,
    Seq<Seq<char>>,
    Option<Seq<char>>,
    Option<Seq<char>>,
) {
    let ls = non_empty(lines(out));
    if ls.len() == 0 {
        (0, Seq::empty(), Seq::empty(), None, None)
    } else {
        match o {
            Some(ov) => match ov.filter {
                Some(f) => match first_containing(ls, f, 0) {
                    Some(l) => (1, column_of(l, ov), Seq::empty(), None, ov.map),
                    None => (2, Seq::empty(), ls, ov.query, None),
                },
                None => (2, Seq::empty(), ls, ov.query, None),
            },
            None => (2, Seq::empty(), ls, None, None),
        }
    }
}

fn non_empty_lines(out: &str) -> (r: Vec<String>)
    ensures
        strings_view(r@) == non_empty(lines(out@)),
{
    let ls = lines_exec(&chars_of(out));
    let ghost lv = lines(out@);
    let mut r: Vec<String> = Vec::new();
    let mut k: usize = 0;
    while k < ls.len()
        invariant
            k <= ls.len(),
            view_all(ls@) == lv,
            strings_view(r@) == non_empty(lv.take(k as int)),
        decreases ls.len() - k,
    {
        assert(lv.take(k + 1).drop_last() =~= lv.take(k as int));
        assert(lv.take(k + 1).last() == ls@[k as int]@);
        if ls[k].len() > 0 {
            let ghost before = strings_view(r@);
            let x = string_of(&ls[k]);
            r.push(x);
            assert(strings_view(r@) =~= before.push(ls@[k as int]@));
        }
        k = k + 1;
    }
    assert(lv.take(k as int) =~= lv);
    r
}

fn first_containing_exec(ls: &Vec<String>, f: &Vec<char>) -> (r: Option<usize>)
    ensures
        match r {
            Some(i) => i < ls@.len() && first_containing(strings_view(ls@), f@, 0) == Some(ls@[i as int]@),
            None => first_containing(strings_view(ls@), f@, 0) is None,
        },
{
    let ghost lv = strings_view(ls@);
    let mut k: usize = 0;
    while k < ls.len()
        invariant
            k <= ls.len(),
            lv == strings_view(ls@),
            first_containing(lv, f@, 0) == first_containing(lv, f@, k as int),
        decreases ls.len() - k,
    {
        assert(lv[k as int] == ls@[k as int]@);
        if find_exec(&chars_of(ls[k].as_str()), f, 0).is_some() {
            return Some(k);
        }
        k = k + 1;
    }
    None
}

/// Decides what a suggestion command's output leads to.
pub fn choose_suggestion(out: &str, opts: &Option<SuggestionOpts>) -> (r: SuggestionChoice)
    ensures
        match r {
            SuggestionChoice::Freeform => choice_of(out@, opt_opts_view(*opts)).0 == 0,
            SuggestionChoice::Value(v, m) => choice_of(out@, opt_opts_view(*opts)).0 == 1
                && choice_of(out@, opt_opts_view(*opts)).1 == v@
                && choice_of(out@, opt_opts_view(*opts)).4 == crate::item::opt_view(m),
            SuggestionChoice::Pick(items, q) => choice_of(out@, opt_opts_view(*opts)).0 == 2
                && choice_of(out@, opt_opts_view(*opts)).2 == strings_view(items@)
                && choice_of(out@, opt_opts_view(*opts)).3 == crate::item::opt_view(q),
        },
{
    let ls = non_empty_lines(out);
    if ls.len() == 0 {
        return SuggestionChoice::Freeform;
    }
    match opts {
        Some(o) => {
            match &o.filter {
                Some(f) => {
                    match first_containing_exec(&ls, &chars_of(f.as_str())) {
                        Some(i) => SuggestionChoice::Value(
                            extract_column(ls[i].as_str(), o),
                            crate::item::clone_opt(&o.map),
                        ),
                        None => SuggestionChoice::Pick(ls, crate::item::clone_opt(&o.query)),
                    }
                },
                None => SuggestionChoice::Pick(ls, crate::item::clone_opt(&o.query)),
            }
        },
        None => SuggestionChoice::Pick(ls, None),
    }
}

pub open spec fn opt_opts_view(o: Option<SuggestionOpts>) -> Option<OptsView> {
    match o {
        Some(x) => Some(x@),
        None => None,
    }
}

/// The picker configuration for choosing a variable's value among a
/// command's output lines: the variable's name as prompt, the default
/// scheme, full screen, the `--query` option as initial query, no edit key
/// and no tricks columns.
pub fn suggestion_picker_config(var_name: &str, opts: &Option<SuggestionOpts>) -> (r: PickerConfig)
    ensures
        r.prompt@ == var_name@,
        r.scheme == Scheme::Default,
        r.height == Height::Full,
        crate::item::opt_view(r.initial_query) == match opt_opts_view(*opts) {
            Some(o) => o.query,
            None => None,
        },
        !r.edit_enabled,
        r.tricks is None,
{
    PickerConfig {
        prompt: string_of(&chars_of(var_name)),
        scheme: Scheme::Default,
        height: Height::Full,
        initial_query: match opts {
            Some(o) => crate::item::clone_opt(&o.query),
            None => None,
        },
        edit_enabled: false,
        tricks: None,
    }
}

/// The `--map` command of the options, if any.
pub open spec fn map_command(o: Option<OptsView>) -> Option<Seq<char>> {
    match o {
        Some(ov) => ov.map,
        None => None,
    }
}

/// The value a picker result gives a variable: the selected line, through
/// the column option when there are options, with the `--map` command that
/// transforms it, if any; nothing when the user cancelled or asked to edit.
pub fn picked_value(result: &PickResult, opts: &Option<SuggestionOpts>) -> (r: Option<(String, Option<String>)>)
    ensures
        match *result {
            PickResult::Selected(_, item) => r matches Some((v, m)) && v@ == match opt_opts_view(*opts) {
                Some(o) => column_of(item@, o),
                None => item@,
            } && crate::item::opt_view(m) == map_command(opt_opts_view(*opts)),
            _ => r is None,
        },
{
    match result {
        PickResult::Selected(_, item) => match opts {
            Some(o) => Some((extract_column(item.as_str(), o), crate::item::clone_opt(&o.map))),
            None => Some((string_of(&chars_of(item.as_str())), None)),
        },
        _ => None,
    }
}

/// The text without one final line ending (`\n` or `\r\n`).
pub open spec fn without_line_end(s: Seq<char>) -> Seq<char> {
    if s.len() > 0 && s.last() == '\n' {
        crate::text::strip_cr(s.drop_last())
    } else {
        s
    }
}

/// The value a `--map` command gives: its output without the final line
/// ending.
pub fn mapped_value(output: &str) -> (r: String)
    ensures
        r@ == without_line_end(output@),
{
    let v = chars_of(output);
    if v.len() > 0 && v[v.len() - 1] == '\n' {
        let w = crate::text::slice_of(&v, 0, v.len() - 1);
        assert(w@ == v@.drop_last());
        string_of(&crate::text::strip_cr_exec(&w))
    } else {
        string_of(&v)
    }
}

} // verus!
