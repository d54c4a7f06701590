//! Trick items, variable suggestions and the store that maps tags to them.

use vstd::prelude::*;
use crate::text::{chars_of, occurs_at_exec, replace, replace_exec, string_of, trim, trim_chars};

verus! {

/// Separator that joins the lines of a multi-line snippet.
pub const LINE_SEPARATOR: &'static str = " \x15 ";

/// The characters of `LINE_SEPARATOR`.
pub open spec fn line_separator() -> Seq<char> {
    seq![' ', '\u{15}', ' ']
}

pub fn line_separator_chars() -> (v: Vec<char>)
    ensures
        v@ == line_separator(),
{
    vec![' ', '\u{15}', ' ']
}

/// A snippet as it is displayed: every separator becomes a newline.
pub open spec fn display_of(s: Seq<char>) -> Seq<char> {
    replace(s, line_separator(), seq!['\n'])
}

/// Replace `LINE_SEPARATOR` with real newlines.
pub fn snippet_to_display(s: &str) -> (r: String)
    ensures
        r@ == display_of(s@),
{
    let v = chars_of(s);
    let sep = line_separator_chars();
    let nl: Vec<char> = vec!['\n'];
    assert(nl@ == seq!['\n']);
    let out = replace_exec(&v, &sep, &nl);
    string_of(&out)
}

/// Name for the 64-bit hash that `std`'s `DefaultHasher::new()` gives to one
/// string slice.
pub uninterp spec fn default_hash_str(s: Seq<char>) -> u64;

/// Name for the 64-bit hash that `std`'s `DefaultHasher::new()` gives to
/// three string slices hashed one after another.
pub uninterp spec fn default_hash_str3(a: Seq<char>, b: Seq<char>, c: Seq<char>) -> u64;

/// Hashes one string slice with `std::hash::DefaultHasher::new()`. The
/// contract claims that the hash is a fixed function of the characters.
#[verifier::external_body]
pub(crate) fn hash_one_str(s: &str) -> (h: u64)
    ensures
        h == default_hash_str(s@),
{
    let mut hasher = std::hash::DefaultHasher::new();
    std::hash::Hash::hash(s, &mut hasher);
    std::hash::Hasher::finish(&hasher)
}

/// Hashes three string slices in order with one
/// `std::hash::DefaultHasher::new()`. The contract claims that the hash is a
/// fixed function of the three character sequences.
#[verifier::external_body]
pub(crate) fn hash_three_strs(a: &str, b: &str, c: &str) -> (h: u64)
    ensures
        h == default_hash_str3(a@, b@, c@),
{
    let mut hasher = std::hash::DefaultHasher::new();
    std::hash::Hash::hash(a, &mut hasher);
    std::hash::Hash::hash(b, &mut hasher);
    std::hash::Hash::hash(c, &mut hasher);
    std::hash::Hasher::finish(&hasher)
}

/// The key under which tags are stored: the hash of the trimmed tags.
pub open spec fn tag_key(tags: Seq<char>) -> u64 {
    default_hash_str(trim(tags))
}

/// Hash of the trimmed string.
pub fn hash_str(s: &str) -> (h: u64)
    ensures
        h == tag_key(s@),
{
    let t = trim_chars(&chars_of(s));
    let ts = string_of(&t);
    hash_one_str(ts.as_str())
}

pub open spec fn opt_view(o: Option<String>) -> Option<Seq<char>> {
    match o {
        Some(s) => Some(s@),
        None => None,
    }
}

pub fn clone_opt(o: &Option<String>) -> (r: Option<String>)
    ensures
        r == *o,
{
    match o {
        Some(s) => Some(s.clone()),
        None => None,
    }
}

/// A parsed trick item: one snippet with its metadata.
#[derive(Debug, Clone)]
pub struct Item {
    pub tags: String,
    pub comment: String,
    pub snippet: String,
    /// Snippet with the separators replaced by newlines.
    pub snippet_display: String,
    /// Prose between the heading and the code block.
    pub detail: Option<String>,
    /// Language hint of the item's own code fence.
    pub lang: Option<String>,
    /// Source file path.
    pub file: Option<String>,
    /// Line of the heading (1-indexed) in the source file.
    pub line: Option<usize>,
}

/// The abstract content of an `Item`.
pub struct ItemView {
    pub tags: Seq<char>,
    pub comment: Seq<char>,
    pub snippet: Seq<char>,
    pub snippet_display: Seq<char>,
    pub detail: Option<Seq<char>>,
    pub lang: Option<Seq<char>>,
    pub file: Option<Seq<char>>,
    pub line: Option<usize>,
}

impl View for Item {
    type V = ItemView;

    open spec fn view(&self) -> ItemView {
        ItemView {
            tags: self.tags@,
            comment: self.comment@,
            snippet: self.snippet@,
            snippet_display: self.snippet_display@,
            detail: opt_view(self.detail),
            lang: opt_view(self.lang),
            file: opt_view(self.file),
            line: self.line,
        }
    }
}

impl ItemView {
    pub open spec fn empty() -> ItemView {
        ItemView {
            tags: Seq::empty(),
            comment: Seq::empty(),
            snippet: Seq::empty(),
            snippet_display: Seq::empty(),
            detail: None,
            lang: None,
            file: None,
            line: None,
        }
    }

    /// True if the item has enough data to be displayed.
    pub open spec fn valid(self) -> bool {
        self.comment.len() > 0 && trim(self.snippet).len() > 0
    }

    /// The deduplication key of the item.
    pub open spec fn key(self) -> u64 {
        default_hash_str3(trim(self.tags), trim(self.comment), trim(self.snippet))
    }

    /// The item with its display snippet recomputed.
    pub open spec fn finalized(self) -> ItemView {
        ItemView { snippet_display: display_of(self.snippet), ..self }
    }
}

pub open spec fn items_view(v: Seq<Item>) -> Seq<ItemView> {
    v.map_values(|i: Item| i@)
}

impl Item {
    pub fn new() -> (r: Item)
        ensures
            r@ == ItemView::empty(),
    {
        Item {
            tags: String::new(),
            comment: String::new(),
            snippet: String::new(),
            snippet_display: String::new(),
            detail: None,
            lang: None,
            file: None,
            line: None,
        }
    }

    /// Recompute `snippet_display` from `snippet`.
    pub fn finalize_snippet(&mut self)
        ensures
            final(self)@ == old(self)@.finalized(),
    {
        self.snippet_display = snippet_to_display(self.snippet.as_str());
    }

    /// Hash for deduplication, over the trimmed tags, comment and snippet.
    pub fn hash_key(&self) -> (h: u64)
        ensures
            h == self@.key(),
    {
        let t = string_of(&trim_chars(&chars_of(self.tags.as_str())));
        let c = string_of(&trim_chars(&chars_of(self.comment.as_str())));
        let s = string_of(&trim_chars(&chars_of(self.snippet.as_str())));
        hash_three_strs(t.as_str(), c.as_str(), s.as_str())
    }

    /// True if this item has enough data to be displayed.
    pub fn is_valid(&self) -> (r: bool)
        ensures
            r == self@.valid(),
    {
        let s = trim_chars(&chars_of(self.snippet.as_str()));
        !self.comment.as_str().is_empty() && s.len() > 0
    }

    /// A field-by-field copy.
    pub fn duplicate(&self) -> (r: Item)
        ensures
            r@ == self@,
    {
        Item {
            tags: self.tags.clone(),
            comment: self.comment.clone(),
            snippet: self.snippet.clone(),
            snippet_display: self.snippet_display.clone(),
            detail: clone_opt(&self.detail),
            lang: clone_opt(&self.lang),
            file: clone_opt(&self.file),
            line: self.line,
        }
    }
}

/// Options controlling how a variable suggestion is displayed and selected.
#[derive(Debug, Clone)]
pub struct SuggestionOpts {
    pub column: Option<u8>,
    pub delimiter: Option<String>,
    pub prevent_extra: bool,
    pub query: Option<String>,
    pub filter: Option<String>,
    pub preview: Option<String>,
    pub preview_window: Option<String>,
    pub header: Option<String>,
    pub header_lines: u8,
    pub map: Option<String>,
    pub expand: bool,
}

/// The abstract content of `SuggestionOpts`.
pub struct OptsView {
    pub column: Option<u8>,
    pub delimiter: Option<Seq<char>>,
    pub prevent_extra: bool,
    pub query: Option<Seq<char>>,
    pub filter: Option<Seq<char>>,
    pub preview: Option<Seq<char>>,
    pub preview_window: Option<Seq<char>>,
    pub header: Option<Seq<char>>,
    pub header_lines: u8,
    pub map: Option<Seq<char>>,
    pub expand: bool,
}

impl View for SuggestionOpts {
    type V = OptsView;

    open spec fn view(&self) -> OptsView {
        OptsView {
            column: self.column,
            delimiter: opt_view(self.delimiter),
            prevent_extra: self.prevent_extra,
            query: opt_view(self.query),
            filter: opt_view(self.filter),
            preview: opt_view(self.preview),
            preview_window: opt_view(self.preview_window),
            header: opt_view(self.header),
            header_lines: self.header_lines,
            map: opt_view(self.map),
            expand: self.expand,
        }
    }
}

impl OptsView {
    /// All options unset.
    pub open spec fn default_opts() -> OptsView {
        OptsView {
            column: None,
            delimiter: None,
            prevent_extra: false,
            query: None,
            filter: None,
            preview: None,
            preview_window: None,
            header: None,
            header_lines: 0,
            map: None,
            expand: false,
        }
    }
}

impl Default for SuggestionOpts {
    fn default() -> (r: SuggestionOpts)
        ensures
            r@ == OptsView::default_opts(),
    {
        SuggestionOpts {
            column: None,
            delimiter: None,
            prevent_extra: false,
            query: None,
            filter: None,
            preview: None,
            preview_window: None,
            header: None,
            header_lines: 0,
            map: None,
            expand: false,
        }
    }
}

impl SuggestionOpts {
    /// A copy with the same options.
    pub fn duplicate(&self) -> (r: SuggestionOpts)
        ensures
            r@ == self@,
    {
        SuggestionOpts {
            column: self.column,
            delimiter: clone_opt(&self.delimiter),
            prevent_extra: self.prevent_extra,
            query: clone_opt(&self.query),
            filter: clone_opt(&self.filter),
            preview: clone_opt(&self.preview),
            preview_window: clone_opt(&self.preview_window),
            header: clone_opt(&self.header),
            header_lines: self.header_lines,
            map: clone_opt(&self.map),
            expand: self.expand,
        }
    }
}

/// A variable suggestion: the command to run and its display options.
pub type Suggestion = (String, Option<SuggestionOpts>);

/// The abstract content of a `Suggestion`.
pub type SuggestionView = (Seq<char>, Option<OptsView>);

pub open spec fn suggestion_view(s: Suggestion) -> SuggestionView {
    (
        s.0@,
        match s.1 {
            Some(o) => Some(o@),
            None => None,
        },
    )
}

/// A copy of a suggestion.
pub fn duplicate_suggestion(s: &Suggestion) -> (r: Suggestion)
    ensures
        suggestion_view(r) == suggestion_view(*s),
{
    let opts = match &s.1 {
        Some(o) => Some(o.duplicate()),
        None => None,
    };
    (string_of(&chars_of(s.0.as_str())), opts)
}

/// One stored suggestion: tag key, variable name and value.
#[derive(Debug)]
struct VarEntry {
    key: u64,
    name: String,
    value: Suggestion,
}

/// The abstract content of a `VariableMap`: every stored suggestion under
/// its (tag key, variable name), and the dependency edges between tag keys
/// in the order they were recorded.
pub struct VarMapView {
    pub suggestions: Map<(u64, Seq<char>), SuggestionView>,
    pub deps: Seq<(u64, u64)>,
}

/// The map that a list of entries describes: later entries override
/// earlier ones.
pub open spec fn entries_map(s: Seq<(u64, Seq<char>, SuggestionView)>) -> Map<
    (u64, Seq<char>),
    SuggestionView,
>
    decreases s.len(),
{
    if s.len() == 0 {
        Map::empty()
    } else {
        entries_map(s.drop_last()).insert((s.last().0, s.last().1), s.last().2)
    }
}

/// The tag keys that `k` depends on, in the order they were recorded.
pub open spec fn deps_of(deps: Seq<(u64, u64)>, k: u64) -> Seq<u64>
    decreases deps.len(),
{
    if deps.len() == 0 {
        Seq::empty()
    } else if deps.last().0 == k {
        deps_of(deps.drop_last(), k).push(deps.last().1)
    } else {
        deps_of(deps.drop_last(), k)
    }
}

/// The suggestion for `var` under the first of `ds` that has one.
pub open spec fn first_dep_hit(
    m: Map<(u64, Seq<char>), SuggestionView>,
    ds: Seq<u64>,
    var: Seq<char>,
) -> Option<SuggestionView>
    decreases ds.len(),
{
    if ds.len() == 0 {
        None
    } else if m.contains_key((ds[0], var)) {
        Some(m[(ds[0], var)])
    } else {
        first_dep_hit(m, ds.drop_first(), var)
    }
}

impl VarMapView {
    pub open spec fn empty() -> VarMapView {
        VarMapView { suggestions: Map::empty(), deps: Seq::empty() }
    }

    /// Record that `tags` depends on `dep_tags`.
    pub open spec fn with_dependency(self, tags: Seq<char>, dep_tags: Seq<char>) -> VarMapView {
        VarMapView { deps: self.deps.push((tag_key(tags), tag_key(dep_tags))), ..self }
    }

    /// Store a suggestion for `var` under `tags`.
    pub open spec fn with_suggestion(
        self,
        tags: Seq<char>,
        var: Seq<char>,
        value: SuggestionView,
    ) -> VarMapView {
        VarMapView { suggestions: self.suggestions.insert((tag_key(tags), var), value), ..self }
    }

    /// `other` merged into `self`: its suggestions override, its
    /// dependencies come after.
    pub open spec fn merged(self, other: VarMapView) -> VarMapView {
        VarMapView {
            suggestions: self.suggestions.union_prefer_right(other.suggestions),
            deps: self.deps + other.deps,
        }
    }

    /// The suggestion for `var` under `tags`, or else under the first tags
    /// that `tags` depends on which has one.
    pub open spec fn lookup(self, tags: Seq<char>, var: Seq<char>) -> Option<SuggestionView> {
        let k = tag_key(tags);
        if self.suggestions.contains_key((k, var)) {
            Some(self.suggestions[(k, var)])
        } else {
            first_dep_hit(self.suggestions, deps_of(self.deps, k), var)
        }
    }
}

/// Maps (tags, variable name) to a suggestion, and tracks tag dependencies
/// so that variables can be inherited.
#[derive(Debug)]
pub struct VariableMap {
    variables: Vec<VarEntry>,
    dependencies: Vec<(u64, u64)>,
}

spec fn entry_view(e: VarEntry) -> (u64, Seq<char>, SuggestionView) {
    (e.key, e.name@, suggestion_view(e.value))
}

impl View for VariableMap {
    type V = VarMapView;

    closed spec fn view(&self) -> VarMapView {
        VarMapView {
            suggestions: entries_map(self.variables@.map_values(|e: VarEntry| entry_view(e))),
            deps: self.dependencies@,
        }
    }
}

proof fn lemma_entries_map_concat(
    a: Seq<(u64, Seq<char>, SuggestionView)>,
    b: Seq<(u64, Seq<char>, SuggestionView)>,
)
    ensures
        entries_map(a + b) == entries_map(a).union_prefer_right(entries_map(b)),
    decreases b.len(),
{
    if b.len() == 0 {
        assert(a + b == a);
        assert(entries_map(a).union_prefer_right(entries_map(b)) =~= entries_map(a));
    } else {
        lemma_entries_map_concat(a, b.drop_last());
        assert((a + b).drop_last() == a + b.drop_last());
        assert((a + b).last() == b.last());
        assert(entries_map(a + b) =~= entries_map(a).union_prefer_right(entries_map(b)));
    }
}

impl Default for VariableMap {
    fn default() -> (r: VariableMap)
        ensures
            r@ == VarMapView::empty(),
    {
        let r = VariableMap { variables: Vec::new(), dependencies: Vec::new() };
        assert(r.variables@.map_values(|e: VarEntry| entry_view(e)) =~= Seq::empty());
        r
    }
}

impl VariableMap {
    /// Record that `tags` depends on `dep_tags` (for variable lookup fallback).
    pub fn insert_dependency(&mut self, tags: &str, dep_tags: &str)
        ensures
            final(self)@ == old(self)@.with_dependency(tags@, dep_tags@),
    {
        let k = hash_str(tags);
        let d = hash_str(dep_tags);
        self.dependencies.push((k, d));
    }

    /// Store a variable suggestion under the given tags.
    pub fn insert_suggestion(&mut self, tags: &str, variable: &str, value: Suggestion)
        ensures
            final(self)@ == old(self)@.with_suggestion(
                tags@,
                variable@,
                suggestion_view(value),
            ),
    {
        let k = hash_str(tags);
        let name = string_of(&chars_of(variable));
        let e = VarEntry { key: k, name, value };
        let ghost before = self.variables@;
        self.variables.push(e);
        proof {
            let f = |x: VarEntry| entry_view(x);
            let s2 = before.map_values(f).push(entry_view(e));
            assert(self.variables@.map_values(f) == s2);
            assert(s2.drop_last() == before.map_values(f));
            assert(entries_map(s2) == entries_map(before.map_values(f)).insert(
                (e.key, e.name@),
                suggestion_view(e.value),
            ));
        }
    }

    /// Merge another map into this one.
    pub fn merge(&mut self, other: VariableMap)
        ensures
            final(self)@ == old(self)@.merged(other@),
    {
        let ghost before = self.variables@;
        let ghost other_vars = other.variables@;
        let mut other = other;
        self.variables.append(&mut other.variables);
        self.dependencies.append(&mut other.dependencies);
        proof {
            let f = |x: VarEntry| entry_view(x);
            assert(self.variables@.map_values(f) == before.map_values(f) + other_vars.map_values(f));
            lemma_entries_map_concat(before.map_values(f), other_vars.map_values(f));
        }
    }
}

proof fn lemma_entries_map_last(s: Seq<(u64, Seq<char>, SuggestionView)>, i: int)
    requires
        0 <= i < s.len(),
        forall|t: int| i < t < s.len() ==> (s[t].0, s[t].1) != (s[i].0, s[i].1),
    ensures
        entries_map(s).contains_key((s[i].0, s[i].1)),
        entries_map(s)[(s[i].0, s[i].1)] == s[i].2,
    decreases s.len(),
{
    if i < s.len() - 1 {
        let d = s.drop_last();
        assert forall|t: int| i < t < d.len() implies (d[t].0, d[t].1) != (d[i].0, d[i].1) by {
            assert(d[t] == s[t]);
        }
        lemma_entries_map_last(d, i);
    }
}

proof fn lemma_entries_map_absent(s: Seq<(u64, Seq<char>, SuggestionView)>, q: (u64, Seq<char>))
    requires
        forall|t: int| 0 <= t < s.len() ==> (s[t].0, s[t].1) != q,
    ensures
        !entries_map(s).contains_key(q),
    decreases s.len(),
{
    if s.len() > 0 {
        let d = s.drop_last();
        assert forall|t: int| 0 <= t < d.len() implies (d[t].0, d[t].1) != q by {
            assert(d[t] == s[t]);
        }
        lemma_entries_map_absent(d, q);
    }
}

proof fn lemma_deps_of_concat(a: Seq<(u64, u64)>, b: Seq<(u64, u64)>, k: u64)
    ensures
        deps_of(a + b, k) == deps_of(a, k) + deps_of(b, k),
    decreases b.len(),
{
    if b.len() == 0 {
        assert(a + b == a);
        assert(deps_of(a, k) + deps_of(b, k) == deps_of(a, k));
    } else {
        lemma_deps_of_concat(a, b.drop_last(), k);
        assert((a + b).drop_last() == a + b.drop_last());
        assert((a + b).last() == b.last());
        if b.last().0 == k {
            assert(deps_of(a, k) + deps_of(b, k) == (deps_of(a, k) + deps_of(b.drop_last(), k)).push(
                b.last().1,
            ));
        }
    }
}

proof fn lemma_deps_of_split(d: Seq<(u64, u64)>, j: int, k: u64)
    requires
        0 <= j < d.len(),
    ensures
        deps_of(d.skip(j), k) == (if d[j].0 == k {
            seq![d[j].1]
        } else {
            Seq::empty()
        }) + deps_of(d.skip(j + 1), k),
{
    let one = seq![d[j]];
    assert(d.skip(j) == one + d.skip(j + 1));
    lemma_deps_of_concat(one, d.skip(j + 1), k);
    assert(one.drop_last() == Seq::<(u64, u64)>::empty());
    assert(one.last() == d[j]);
    assert(deps_of(Seq::<(u64, u64)>::empty(), k) == Seq::<u64>::empty());
    if d[j].0 == k {
        assert(deps_of(one, k) == Seq::<u64>::empty().push(d[j].1));
        assert(Seq::<u64>::empty().push(d[j].1) == seq![d[j].1]);
    }
}

impl VariableMap {
    /// Index of the last entry stored under `(k, name)`.
    fn find_entry(&self, k: u64, name: &Vec<char>) -> (r: Option<usize>)
        ensures
            match r {
                Some(i) => i < self.variables@.len() && self@.suggestions.contains_key((k, name@))
                    && self@.suggestions[(k, name@)] == suggestion_view(self.variables@[i as int].value),
                None => !self@.suggestions.contains_key((k, name@)),
            },
    {
        let ghost es = self.variables@.map_values(|e: VarEntry| entry_view(e));
        let mut i: usize = self.variables.len();
        while i > 0
            invariant
                i <= self.variables@.len(),
                es == self.variables@.map_values(|e: VarEntry| entry_view(e)),
                forall|t: int| i <= t < es.len() ==> (es[t].0, es[t].1) != (k, name@),
            decreases i,
        {
            let e = &self.variables[i - 1];
            let en = chars_of(e.name.as_str());
            if e.key == k && en.len() == name.len() && occurs_at_exec(&en, name, 0) {
                proof {
                    assert(en@.subrange(0, name@.len() as int) == en@);
                    assert(es[i - 1] == entry_view(*e));
                    lemma_entries_map_last(es, i - 1);
                }
                return Some(i - 1);
            }
            proof {
                if en@ == name@ {
                    assert(en@.subrange(0, name@.len() as int) == en@);
                }
                assert(es[i - 1] == entry_view(*e));
            }
            i = i - 1;
        }
        proof {
            lemma_entries_map_absent(es, (k, name@));
        }
        None
    }

    /// Look up a suggestion by tags and variable name, falling back to the
    /// tags that these tags depend on, in the order they were recorded.
    pub fn get_suggestion(&self, tags: &str, variable: &str) -> (r: Option<&Suggestion>)
        ensures
            match r {
                Some(s) => self@.lookup(tags@, variable@) == Some(suggestion_view(*s)),
                None => self@.lookup(tags@, variable@) is None,
            },
    {
        let k = hash_str(tags);
        let var = chars_of(variable);
        if let Some(i) = self.find_entry(k, &var) {
            return Some(&self.variables[i].value);
        }
        let ghost m = self@.suggestions;
        let ghost d = self.dependencies@;
        let mut j: usize = 0;
        assert(d.skip(0) == d);
        while j < self.dependencies.len()
            invariant
                j <= self.dependencies@.len(),
                d == self.dependencies@,
                m == self@.suggestions,
                !m.contains_key((k, var@)),
                k == tag_key(tags@),
                var@ == variable@,
                self@.lookup(tags@, variable@) == first_dep_hit(m, deps_of(d.skip(j as int), k), var@),
            decreases self.dependencies@.len() - j,
        {
            proof {
                lemma_deps_of_split(d, j as int, k);
            }
            let (a, b) = self.dependencies[j];
            if a == k {
                proof {
                    let rest = deps_of(d.skip(j + 1), k);
                    assert((seq![b] + rest).drop_first() == rest);
                    assert((seq![b] + rest)[0] == b);
                }
                if let Some(i) = self.find_entry(b, &var) {
                    return Some(&self.variables[i].value);
                }
            } else {
                assert(Seq::<u64>::empty() + deps_of(d.skip(j + 1), k) == deps_of(d.skip(j + 1), k));
            }
            j = j + 1;
        }
        assert(d.skip(j as int).len() == 0);
        None
    }
}

pub proof fn lemma_items_view_push(v: Seq<Item>, x: Item)
    ensures
        items_view(v.push(x)) == items_view(v).push(x@),
{
    assert(items_view(v.push(x)) =~= items_view(v).push(x@));
}

} // verus!
