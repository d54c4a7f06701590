//! Usage counts: how often each trick was run, kept sorted by key, read
//! from and written as a small TOML table.

use vstd::prelude::*;
use crate::item::opt_view;
use crate::text::{chars_of, decimal, decimal_chars_u64, eq_exec, extend, replace, replace_exec, string_of, trim, trim_chars};

verus! {

/// The key of a trick: its trimmed tags and trimmed comment, joined by
/// `//`.
pub open spec fn key_of(tags: Seq<char>, comment: Seq<char>) -> Seq<char> {
    trim(tags) + seq!['/', '/'] + trim(comment)
}

pub fn make_key(tags: &str, comment: &str) -> (r: String)
    ensures
        r@ == key_of(tags@, comment@),
{
    let mut v = trim_chars(&chars_of(tags));
    v.push('/');
    v.push('/');
    extend(&mut v, &trim_chars(&chars_of(comment)));
    string_of(&v)
}

// ---------------------------------------------------------------------------
// Key order.
// ---------------------------------------------------------------------------

/// `a` sorts strictly before `b`: the order of `String`, which for UTF-8
/// text is the lexicographic order of the code points.
pub open spec fn lex_lt(a: Seq<char>, b: Seq<char>) -> bool
    decreases a.len(),
{
    if b.len() == 0 {
        false
    } else if a.len() == 0 {
        true
    } else if a[0] != b[0] {
        a[0] < b[0]
    } else {
        lex_lt(a.drop_first(), b.drop_first())
    }
}

proof fn lemma_lex_trans(a: Seq<char>, b: Seq<char>, c: Seq<char>)
    requires
        lex_lt(a, b),
        lex_lt(b, c),
    ensures
        lex_lt(a, c),
    decreases a.len(),
{
    if a.len() > 0 && b.len() > 0 && c.len() > 0 && a[0] == b[0] && b[0] == c[0] {
        lemma_lex_trans(a.drop_first(), b.drop_first(), c.drop_first());
    }
}

proof fn lemma_lex_total(a: Seq<char>, b: Seq<char>)
    ensures
        lex_lt(a, b) || lex_lt(b, a) || a == b,
    decreases a.len(),
{
    if a.len() > 0 && b.len() > 0 && a[0] == b[0] {
        lemma_lex_total(a.drop_first(), b.drop_first());
        if a.drop_first() == b.drop_first() {
            assert(a =~= seq![a[0]] + a.drop_first());
            assert(b =~= seq![b[0]] + b.drop_first());
            assert(a =~= b);
        }
    } else if a.len() == 0 && b.len() == 0 {
        assert(a =~= b);
    }
}

proof fn lemma_lex_irrefl(a: Seq<char>)
    ensures
        !lex_lt(a, a),
    decreases a.len(),
{
    if a.len() > 0 {
        lemma_lex_irrefl(a.drop_first());
    }
}

fn lex_lt_exec(a: &Vec<char>, b: &Vec<char>) -> (r: bool)
    ensures
        r == lex_lt(a@, b@),
{
    let mut k: usize = 0;
    assert(a@.skip(0) =~= a@);
    assert(b@.skip(0) =~= b@);
    while k < a.len() && k < b.len() && a[k] == b[k]
        invariant
            k <= a.len(),
            k <= b.len(),
            lex_lt(a@, b@) == lex_lt(a@.skip(k as int), b@.skip(k as int)),
        decreases a.len() - k,
    {
        assert(a@.skip(k as int).drop_first() =~= a@.skip(k + 1));
        assert(b@.skip(k as int).drop_first() =~= b@.skip(k + 1));
        k = k + 1;
    }
    if k == b.len() {
        false
    } else if k == a.len() {
        true
    } else {
        assert(a@.skip(k as int)[0] == a@[k as int]);
        assert(b@.skip(k as int)[0] == b@[k as int]);
        a[k] < b[k]
    }
}

// ---------------------------------------------------------------------------
// The counts.
// ---------------------------------------------------------------------------

/// The keys strictly increase.
pub open spec fn sorted_keys(s: Seq<(Seq<char>, u64)>) -> bool {
    forall|i: int, j: int| 0 <= i < j < s.len() ==> lex_lt(#[trigger] s[i].0, #[trigger] s[j].0)
}

pub open spec fn has_key(s: Seq<(Seq<char>, u64)>, k: Seq<char>) -> bool {
    exists|i: int| 0 <= i < s.len() && #[trigger] s[i].0 == k
}

/// The count recorded for `k`, or 0.
pub open spec fn count_of(s: Seq<(Seq<char>, u64)>, k: Seq<char>) -> u64 {
    if has_key(s, k) {
        s[choose|i: int| 0 <= i < s.len() && #[trigger] s[i].0 == k].1
    } else {
        0
    }
}

/// How often each trick was run, with the file the counts live in.
#[derive(Debug)]
pub struct Usage {
    counts: Vec<(String, u64)>,
    path: Option<String>,
}

pub open spec fn entries_view(v: Seq<(String, u64)>) -> Seq<(Seq<char>, u64)> {
    v.map_values(|e: (String, u64)| (e.0@, e.1))
}

impl Usage {
    /// The counts, sorted by key.
    pub closed spec fn entries(&self) -> Seq<(Seq<char>, u64)> {
        entries_view(self.counts@)
    }

    pub closed spec fn file(&self) -> Option<Seq<char>> {
        opt_view(self.path)
    }

    pub open spec fn wf(&self) -> bool {
        sorted_keys(self.entries())
    }

    /// No counts yet, kept in `path`.
    pub fn new(path: Option<String>) -> (r: Usage)
        ensures
            r.wf(),
            r.entries() == Seq::<(Seq<char>, u64)>::empty(),
            r.file() == opt_view(path),
    {
        let r = Usage { counts: Vec::new(), path };
        assert(r.entries() =~= Seq::<(Seq<char>, u64)>::empty());
        r
    }

    /// The file the counts are kept in.
    pub fn path(&self) -> (r: Option<String>)
        ensures
            opt_view(r) == self.file(),
    {
        crate::item::clone_opt(&self.path)
    }

    /// Where `key` is, or where it would go to keep the keys sorted.
    fn position(&self, key: &Vec<char>) -> (r: usize)
        requires
            self.wf(),
        ensures
            r <= self.entries().len(),
            forall|i: int| 0 <= i < r ==> lex_lt(#[trigger] self.entries()[i].0, key@),
            r < self.entries().len() ==> !lex_lt(self.entries()[r as int].0, key@),
    {
        let mut k: usize = 0;
        while k < self.counts.len()
            invariant
                k <= self.counts.len(),
                self.entries() == entries_view(self.counts@),
                forall|i: int| 0 <= i < k ==> lex_lt(#[trigger] self.entries()[i].0, key@),
            decreases self.counts.len() - k,
        {
            assert(self.entries()[k as int].0 == self.counts@[k as int].0@);
            if !lex_lt_exec(&chars_of(self.counts[k].0.as_str()), key) {
                return k;
            }
            k = k + 1;
        }
        k
    }

    /// How often the trick with this key was run (0 when never).
    pub fn get(&self, key: &str) -> (r: u64)
        requires
            self.wf(),
        ensures
            r == count_of(self.entries(), key@),
    {
        let kv = chars_of(key);
        let p = self.position(&kv);
        let ghost e = self.entries();
        if p < self.counts.len() && eq_exec(&chars_of(self.counts[p].0.as_str()), &kv) {
            assert(e[p as int].0 == key@);
            proof {
                let c = choose|i: int| 0 <= i < e.len() && #[trigger] e[i].0 == key@;
                if c != p {
                    lemma_lex_irrefl(key@);
                }
            }
            self.counts[p].1
        } else {
            proof {
                if has_key(e, key@) {
                    let c = choose|i: int| 0 <= i < e.len() && #[trigger] e[i].0 == key@;
                    if c < p {
                        lemma_lex_irrefl(key@);
                    } else if c > p {
                        assert(lex_lt(e[p as int].0, e[c].0));
                        lemma_lex_total(e[p as int].0, key@);
                    } else {
                    }
                }
            }
            0
        }
    }

    /// Sets the count of `key` to `value`, adding the key in its place when
    /// it is new.
    pub fn set_count(&mut self, key: &str, value: u64)
        requires
            old(self).wf(),
        ensures
            final(self).wf(),
            final(self).file() == old(self).file(),
            forall|k: Seq<char>| has_key(final(self).entries(), k) <==> (has_key(old(self).entries(), k) || k == key@),
            forall|k: Seq<char>| count_of(final(self).entries(), k) == if k == key@ {
                value
            } else {
                count_of(old(self).entries(), k)
            },
    {
        let kv = chars_of(key);
        let p = self.position(&kv);
        let ghost e = self.entries();
        if p < self.counts.len() && eq_exec(&chars_of(self.counts[p].0.as_str()), &kv) {
            assert(e[p as int].0 == key@);
            let name = self.counts[p].0.clone();
            self.counts.set(p, (name, value));
            proof {
                let e2 = self.entries();
                assert(e2 =~= e.update(p as int, (key@, value)));
                Self::lemma_update_keeps(e, e2, p as int, key@, value);
                assert(forall|k: Seq<char>| has_key(self.entries(), k) <==> (has_key(e, k) || k == key@));
            }
        } else {
            self.counts.insert(p, (string_of(&kv), value));
            proof {
                let e2 = self.entries();
                assert(e2 =~= e.insert(p as int, (key@, value)));
                Self::lemma_insert_keeps(e, e2, p as int, key@, value);
                assert(forall|k: Seq<char>| has_key(self.entries(), k) <==> (has_key(e, k) || k == key@));
            }
        }
    }

    proof fn lemma_update_keeps(e: Seq<(Seq<char>, u64)>, e2: Seq<(Seq<char>, u64)>, p: int, key: Seq<char>, value: u64)
        requires
            sorted_keys(e),
            0 <= p < e.len(),
            e[p].0 == key,
            e2 == e.update(p, (key, value)),
        ensures
            sorted_keys(e2),
            forall|k: Seq<char>| has_key(e2, k) <==> has_key(e, k),
            forall|k: Seq<char>| count_of(e2, k) == if k == key {
                value
            } else {
                count_of(e, k)
            },
    {
        
        assert forall|k: Seq<char>| has_key(e2, k) <==> has_key(e, k) by {
            if has_key(e, k) {
                let c = choose|i: int| 0 <= i < e.len() && #[trigger] e[i].0 == k;
                assert(e2[c].0 == k);
            }
            if has_key(e2, k) {
                let c = choose|i: int| 0 <= i < e2.len() && #[trigger] e2[i].0 == k;
                assert(e[c].0 == k);
            }
        }
        assert forall|k: Seq<char>| count_of(e2, k) == if k == key {
            value
        } else {
            count_of(e, k)
        } by {
            if has_key(e2, k) {
                let c = choose|i: int| 0 <= i < e2.len() && #[trigger] e2[i].0 == k;
                let c1 = choose|i: int| 0 <= i < e.len() && #[trigger] e[i].0 == k;
                assert(e[c].0 == k);
                if c != c1 {
                    if c < c1 {
                        assert(lex_lt(e[c].0, e[c1].0));
                    } else {
                        assert(lex_lt(e[c1].0, e[c].0));
                    }
                    lemma_lex_irrefl(k);
                }
                if k == key && c != p {
                    if c < p {
                        assert(lex_lt(e[c].0, e[p].0));
                    } else {
                        assert(lex_lt(e[p].0, e[c].0));
                    }
                    lemma_lex_irrefl(k);
                }
            }
        }
    }

    proof fn lemma_insert_keeps(e: Seq<(Seq<char>, u64)>, e2: Seq<(Seq<char>, u64)>, p: int, key: Seq<char>, value: u64)
        requires
            e2 == e.insert(p, (key, value)),
            sorted_keys(e),
            0 <= p <= e.len(),
            forall|i: int| 0 <= i < p ==> lex_lt(#[trigger] e[i].0, key),
            p < e.len() ==> !lex_lt(e[p].0, key),
            p < e.len() ==> e[p].0 != key,
        ensures
            sorted_keys(e2),
            forall|k: Seq<char>| has_key(e2, k) <==> (has_key(e, k) || k == key),
            forall|k: Seq<char>| count_of(e2, k) == if k == key {
                value
            } else {
                count_of(e, k)
            },
    {
        
        if p < e.len() {
            lemma_lex_total(e[p].0, key);
        }
        assert forall|i: int, j: int| 0 <= i < j < e2.len() implies lex_lt(#[trigger] e2[i].0, #[trigger] e2[j].0) by {
            if j == p {
            } else if i == p {
                if j > p + 1 {
                    assert(lex_lt(e[p].0, e[j - 1].0));
                    lemma_lex_trans(key, e[p].0, e[j - 1].0);
                }
            } else if i < p && j > p {
                if j - 1 > p {
                    assert(lex_lt(e[p].0, e[j - 1].0));
                    lemma_lex_trans(key, e[p].0, e[j - 1].0);
                }
                lemma_lex_trans(e[i].0, key, e[j - 1].0);
            } else if i > p {
                assert(lex_lt(e[i - 1].0, e[j - 1].0));
            } else {
                assert(lex_lt(e[i].0, e[j].0));
            }
        }
        assert forall|k: Seq<char>| has_key(e2, k) <==> (has_key(e, k) || k == key) by {
            if has_key(e, k) {
                let c = choose|i: int| 0 <= i < e.len() && #[trigger] e[i].0 == k;
                if c < p {
                    assert(e2[c].0 == k);
                } else {
                    assert(e2[c + 1].0 == k);
                }
            }
            if k == key {
                assert(e2[p].0 == k);
            }
            if has_key(e2, k) {
                let c = choose|i: int| 0 <= i < e2.len() && #[trigger] e2[i].0 == k;
                if c < p {
                    assert(e[c].0 == k);
                } else if c > p {
                    assert(e[c - 1].0 == k);
                }
            }
        }
        assert forall|k: Seq<char>| count_of(e2, k) == if k == key {
            value
        } else {
            count_of(e, k)
        } by {
            if has_key(e2, k) {
                let c = choose|i: int| 0 <= i < e2.len() && #[trigger] e2[i].0 == k;
                if k == key {
                    if c != p {
                        if c < p {
                            assert(lex_lt(e2[c].0, e2[p].0));
                        } else {
                            assert(lex_lt(e2[p].0, e2[c].0));
                        }
                        lemma_lex_irrefl(k);
                    }
                } else {
                    let c1 = choose|i: int| 0 <= i < e.len() && #[trigger] e[i].0 == k;
                    let c2 = if c1 < p {
                        c1
                    } else {
                        c1 + 1
                    };
                    assert(e2[c2].0 == k);
                    if c != c2 {
                        if c < c2 {
                            assert(lex_lt(e2[c].0, e2[c2].0));
                        } else {
                            assert(lex_lt(e2[c2].0, e2[c].0));
                        }
                        lemma_lex_irrefl(k);
                    }
                }
            }
        }
    }
}

impl Usage {
    /// Counts one more run of the trick with this key (saturating).
    pub fn record(&mut self, key: &str)
        requires
            old(self).wf(),
        ensures
            final(self).wf(),
            final(self).file() == old(self).file(),
            forall|k: Seq<char>| has_key(final(self).entries(), k) <==> (has_key(old(self).entries(), k) || k == key@),
            forall|k: Seq<char>| count_of(final(self).entries(), k) == if k == key@ {
                if count_of(old(self).entries(), k) == u64::MAX {
                    u64::MAX
                } else {
                    (count_of(old(self).entries(), k) + 1) as u64
                }
            } else {
                count_of(old(self).entries(), k)
            },
    {
        let c = self.get(key);
        let n = if c == u64::MAX {
            u64::MAX
        } else {
            c + 1
        };
        self.set_count(key, n);
    }

    /// Counts read back from a file: each entry sets the count of its key,
    /// a later entry for the same key replacing an earlier one.
    pub fn from_counts(entries: &Vec<(String, u64)>, path: Option<String>) -> (r: Usage)
        ensures
            r.wf(),
            r.file() == opt_view(path),
            forall|k: Seq<char>| has_key(r.entries(), k) <==> has_key(entries_view(entries@), k),
            forall|k: Seq<char>| count_of(r.entries(), k) == last_count(entries_view(entries@), k),
    {
        let mut u = Usage::new(path);
        let ghost ev = entries_view(entries@);
        let mut i: usize = 0;
        while i < entries.len()
            invariant
                i <= entries.len(),
                ev == entries_view(entries@),
                u.wf(),
                u.file() == opt_view(path),
                forall|k: Seq<char>| has_key(u.entries(), k) <==> has_key(ev.take(i as int), k),
                forall|k: Seq<char>| count_of(u.entries(), k) == last_count(ev.take(i as int), k),
            decreases entries.len() - i,
        {
            let ghost before = u.entries();
            u.set_count(entries[i].0.as_str(), entries[i].1);
            proof {
                let t = ev.take(i + 1);
                assert(t.drop_last() =~= ev.take(i as int));
                assert(t.last() == ev[i as int]);
                assert(ev[i as int] == (entries@[i as int].0@, entries@[i as int].1));
                assert forall|k: Seq<char>| has_key(u.entries(), k) <==> has_key(t, k) by {
                    if has_key(t, k) {
                        let c = choose|j: int| 0 <= j < t.len() && #[trigger] t[j].0 == k;
                        if c < i {
                            assert(ev.take(i as int)[c].0 == k);
                        }
                    }
                    if has_key(ev.take(i as int), k) {
                        let c = choose|j: int| 0 <= j < ev.take(i as int).len() && #[trigger] ev.take(i as int)[j].0 == k;
                        assert(t[c].0 == k);
                    }
                    if k == ev[i as int].0 {
                        assert(t[i as int].0 == k);
                    }
                }
            }
            i = i + 1;
        }
        assert(ev.take(i as int) =~= ev);
        u
    }
}

/// The count the last entry for `k` gives, or 0.
pub open spec fn last_count(es: Seq<(Seq<char>, u64)>, k: Seq<char>) -> u64
    decreases es.len(),
{
    if es.len() == 0 {
        0
    } else if es.last().0 == k {
        es.last().1
    } else {
        last_count(es.drop_last(), k)
    }
}

// ---------------------------------------------------------------------------
// The file.
// ---------------------------------------------------------------------------

/// A key quoted for TOML: backslashes and double quotes escaped.
pub open spec fn escaped(k: Seq<char>) -> Seq<char> {
    replace(replace(k, seq!['\\'], seq!['\\', '\\']), seq!['"'], seq!['\\', '"'])
}

/// One line of the file: `"key" = count`.
pub open spec fn usage_line(e: (Seq<char>, u64)) -> Seq<char> {
    seq!['"'] + escaped(e.0) + seq!['"', ' ', '=', ' '] + decimal(e.1 as nat) + seq!['\n']
}

pub open spec fn usage_lines(s: Seq<(Seq<char>, u64)>) -> Seq<char>
    decreases s.len(),
{
    if s.len() == 0 {
        Seq::empty()
    } else {
        usage_lines(s.drop_last()) + usage_line(s.last())
    }
}

/// The file's text: a `[usage]` table with one line per key, in key order.
pub open spec fn usage_text(s: Seq<(Seq<char>, u64)>) -> Seq<char> {
    seq!['[', 'u', 's', 'a', 'g', 'e', ']', '\n'] + usage_lines(s)
}

impl Usage {
    /// The text of the usage file.
    pub fn render(&self) -> (r: String)
        ensures
            r@ == usage_text(self.entries()),
    {
        let mut v: Vec<char> = vec!['[', 'u', 's', 'a', 'g', 'e', ']', '\n'];
        let ghost head = v@;
        assert(head == seq!['[', 'u', 's', 'a', 'g', 'e', ']', '\n']);
        let bs: Vec<char> = vec!['\\'];
        let bs2: Vec<char> = vec!['\\', '\\'];
        let q: Vec<char> = vec!['"'];
        let bq: Vec<char> = vec!['\\', '"'];
        let eqs: Vec<char> = vec!['"', ' ', '=', ' '];
        assert(bs@ == seq!['\\']);
        assert(bs2@ == seq!['\\', '\\']);
        assert(q@ == seq!['"']);
        assert(bq@ == seq!['\\', '"']);
        assert(eqs@ == seq!['"', ' ', '=', ' ']);
        let mut i: usize = 0;
        while i < self.counts.len()
            invariant
                i <= self.counts.len(),
                self.entries() == entries_view(self.counts@),
                v@ == head + usage_lines(self.entries().take(i as int)),
                bs@ == seq!['\\'],
                bs2@ == seq!['\\', '\\'],
                q@ == seq!['"'],
                bq@ == seq!['\\', '"'],
                eqs@ == seq!['"', ' ', '=', ' '],
            decreases self.counts.len() - i,
        {
            let k = chars_of(self.counts[i].0.as_str());
            let e1 = replace_exec(&k, &bs, &bs2);
            let e2 = replace_exec(&e1, &q, &bq);
            let ghost before = v@;
            v.push('"');
            extend(&mut v, &e2);
            extend(&mut v, &eqs);
            extend(&mut v, &decimal_chars_u64(self.counts[i].1));
            v.push('\n');
            proof {
                let t = self.entries().take(i + 1);
                assert(t.drop_last() =~= self.entries().take(i as int));
                assert(t.last() == (self.counts@[i as int].0@, self.counts@[i as int].1));
                assert(v@ =~= before + usage_line(t.last()));
            }
            i = i + 1;
        }
        assert(self.entries().take(i as int) =~= self.entries());
        string_of(&v)
    }
}

/// Name for what the `toml` crate reads from a document's text for the
/// table `key`: `None` when the text is not a TOML document or has no table
/// under `key`; otherwise that table's entries in the order the crate lists
/// them, each key with its value when that value is an integer.
pub uninterp spec fn toml_table_entries(text: Seq<char>, key: Seq<char>) -> Option<Seq<(Seq<char>, Option<i64>)>>;

pub open spec fn table_view(v: Seq<(String, Option<i64>)>) -> Seq<(Seq<char>, Option<i64>)> {
    v.map_values(|e: (String, Option<i64>)| (e.0@, e.1))
}

/// Parses the text as a TOML document (`toml::Table`) and reads its table
/// under `key` with `Table::get`, `Value::as_table` and
/// `Value::as_integer`. The contract claims that the result is a fixed
/// function of the text and the key.
#[verifier::external_body]
fn read_table(text: &str, key: &str) -> (r: Option<Vec<(String, Option<i64>)>>)
    ensures
        match r {
            Some(v) => toml_table_entries(text@, key@) == Some(table_view(v@)),
            None => toml_table_entries(text@, key@) is None,
        },
{
    let table: toml::Table = match text.parse() {
        Ok(t) => t,
        Err(_) => return None,
    };
    let entries = table.get(key)?.as_table()?;
    Some(entries.iter().map(|(k, v)| (k.clone(), v.as_integer())).collect())
}

/// The table of a usage file.
pub open spec fn usage_table_key() -> Seq<char> {
    seq!['u', 's', 'a', 'g', 'e']
}

/// The integer entries of a usage table, each value taken as a `u64`
/// (`as` conversion, which wraps negative values).
pub open spec fn integer_entries(t: Seq<(Seq<char>, Option<i64>)>) -> Seq<(Seq<char>, u64)>
    decreases t.len(),
{
    if t.len() == 0 {
        Seq::empty()
    } else {
        let rest = integer_entries(t.drop_last());
        match t.last().1 {
            Some(n) => rest.push((t.last().0, n as u64)),
            None => rest,
        }
    }
}

/// The counts of a usage table: its entries with integer values.
pub fn integer_counts(t: &Vec<(String, Option<i64>)>) -> (r: Vec<(String, u64)>)
    ensures
        entries_view(r@) == integer_entries(table_view(t@)),
{
    let ghost tv = table_view(t@);
    let mut r: Vec<(String, u64)> = Vec::new();
    let mut i: usize = 0;
    while i < t.len()
        invariant
            i <= t.len(),
            tv == table_view(t@),
            entries_view(r@) == integer_entries(tv.take(i as int)),
        decreases t.len() - i,
    {
        assert(tv.take(i + 1).drop_last() =~= tv.take(i as int));
        assert(tv.take(i + 1).last() == (t@[i as int].0@, t@[i as int].1));
        match t[i].1 {
            Some(n) => {
                let ghost before = entries_view(r@);
                r.push((t[i].0.clone(), n as u64));
                assert(entries_view(r@) =~= before.push((t@[i as int].0@, n as u64)));
            },
            None => {},
        }
        i = i + 1;
    }
    assert(tv.take(i as int) =~= tv);
    r
}

/// Reads the counts of a usage file: `None` when the text is not TOML or
/// has no `usage` table; the entries with integer values otherwise.
pub fn parse_usage_toml(text: &str) -> (r: Option<Vec<(String, u64)>>)
    ensures
        match r {
            Some(v) => toml_table_entries(text@, usage_table_key()) matches Some(t) && entries_view(v@)
                == integer_entries(t),
            None => toml_table_entries(text@, usage_table_key()) is None,
        },
{
    let key = string_of(&vec!['u', 's', 'a', 'g', 'e']);
    assert(key@ == usage_table_key());
    match read_table(text, key.as_str()) {
        Some(t) => Some(integer_counts(&t)),
        None => None,
    }
}

/// The usage file: `usage.toml` under the data directory, when there is
/// one.
pub fn usage_path(data_dir: Option<String>) -> (r: Option<String>)
    ensures
        opt_view(r) == match data_dir {
            Some(d) => Some(crate::files::joined(d@, seq!['u', 's', 'a', 'g', 'e', '.', 't', 'o', 'm', 'l'])),
            None => None,
        },
{
    match data_dir {
        Some(d) => {
            let seg: Vec<char> = vec!['u', 's', 'a', 'g', 'e', '.', 't', 'o', 'm', 'l'];
            assert(seg@ == seq!['u', 's', 'a', 'g', 'e', '.', 't', 'o', 'm', 'l']);
            Some(crate::files::join_exec(&d, &seg))
        },
        None => None,
    }
}


} // verus!
