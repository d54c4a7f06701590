//! Character-sequence operations with the semantics of the corresponding
//! `str` methods, stated over `Seq<char>`.

use vstd::prelude::*;

verus! {

/// `char::is_whitespace`: the character has the Unicode `White_Space`
/// property (U+0009 to U+000D, U+0020, U+0085, U+00A0, U+1680, U+2000 to
/// U+200A, U+2028, U+2029, U+202F, U+205F and U+3000).
pub open spec fn is_white_space(c: char) -> bool {
    let x = c as u32;
    (0x9 <= x && x <= 0xd) || x == 0x20 || x == 0x85 || x == 0xa0 || x == 0x1680 || (0x2000 <= x && x
        <= 0x200a) || x == 0x2028 || x == 0x2029 || x == 0x202f || x == 0x205f || x == 0x3000
}

pub(crate) fn char_is_whitespace(c: char) -> (r: bool)
    ensures
        r == is_white_space(c),
{
    let x = c as u32;
    (0x9 <= x && x <= 0xd) || x == 0x20 || x == 0x85 || x == 0xa0 || x == 0x1680 || (0x2000 <= x && x
        <= 0x200a) || x == 0x2028 || x == 0x2029 || x == 0x202f || x == 0x205f || x == 0x3000
}

/// Appends one character to a `String` (`String::push`).
#[verifier::external_body]
pub(crate) fn push_char(s: &mut String, c: char)
    ensures
        final(s)@ == old(s)@.push(c),
{
    s.push(c)
}

/// Which characters a trimming operation removes.
#[derive(Clone, Copy)]
pub enum CharClass {
    WhiteSpace,
    Exactly(char),
}

pub open spec fn in_class(c: char, m: CharClass) -> bool {
    match m {
        CharClass::WhiteSpace => is_white_space(c),
        CharClass::Exactly(d) => c == d,
    }
}

pub fn char_in_class(c: char, m: CharClass) -> (r: bool)
    ensures
        r == in_class(c, m),
{
    match m {
        CharClass::WhiteSpace => char_is_whitespace(c),
        CharClass::Exactly(d) => c == d,
    }
}

/// `s` without its leading characters of class `m` (`trim_start_matches`).
pub open spec fn trim_start_by(s: Seq<char>, m: CharClass) -> Seq<char>
    decreases s.len(),
{
    if s.len() > 0 && in_class(s[0], m) {
        trim_start_by(s.drop_first(), m)
    } else {
        s
    }
}

/// `s` without its trailing characters of class `m` (`trim_end_matches`).
pub open spec fn trim_end_by(s: Seq<char>, m: CharClass) -> Seq<char>
    decreases s.len(),
{
    if s.len() > 0 && in_class(s.last(), m) {
        trim_end_by(s.drop_last(), m)
    } else {
        s
    }
}

/// `s` without leading and trailing characters of class `m` (`trim_matches`).
pub open spec fn trim_by(s: Seq<char>, m: CharClass) -> Seq<char> {
    trim_end_by(trim_start_by(s, m), m)
}

/// `str::trim`.
pub open spec fn trim(s: Seq<char>) -> Seq<char> {
    trim_by(s, CharClass::WhiteSpace)
}

/// `str::trim_end`.
pub open spec fn trim_end(s: Seq<char>) -> Seq<char> {
    trim_end_by(s, CharClass::WhiteSpace)
}

/// `true` when `p` occurs in `s` at position `i`.
pub open spec fn occurs_at(s: Seq<char>, p: Seq<char>, i: int) -> bool {
    0 <= i && i + p.len() <= s.len() && s.subrange(i, i + p.len()) == p
}

/// `str::starts_with`.
pub open spec fn starts_with(s: Seq<char>, p: Seq<char>) -> bool {
    occurs_at(s, p, 0)
}

/// The first position at or after `i` where `p` occurs in `s`.
pub open spec fn find_from(s: Seq<char>, p: Seq<char>, i: int) -> Option<int>
    decreases s.len() - i,
{
    if i < 0 || i + p.len() > s.len() {
        None
    } else if p.len() == 0 || s.subrange(i, i + p.len()) == p {
        Some(i)
    } else {
        find_from(s, p, i + 1)
    }
}

/// Pieces of `s` between the non-overlapping occurrences of `p`, scanning
/// from `i` with the current piece starting at `start` (`p` not empty).
pub open spec fn split_scan(s: Seq<char>, p: Seq<char>, start: int, i: int) -> Seq<Seq<char>>
    decreases s.len() - i,
{
    if p.len() == 0 || i < 0 || i + p.len() > s.len() {
        seq![s.subrange(start, s.len() as int)]
    } else if s.subrange(i, i + p.len()) == p {
        seq![s.subrange(start, i)] + split_scan(s, p, i + p.len(), i + p.len())
    } else {
        split_scan(s, p, start, i + 1)
    }
}

/// `str::split` with a string pattern: with an empty pattern the pieces
/// are an empty piece, one piece per character, and an empty piece.
pub open spec fn split_str(s: Seq<char>, p: Seq<char>) -> Seq<Seq<char>> {
    if p.len() == 0 {
        seq![Seq::<char>::empty()] + s.map_values(|c: char| seq![c]) + seq![Seq::<char>::empty()]
    } else {
        split_scan(s, p, 0, 0)
    }
}

/// `str::split` with a character pattern.
pub open spec fn split_char(s: Seq<char>, c: char) -> Seq<Seq<char>> {
    split_str(s, seq![c])
}

/// `[..].join(sep)`.
pub open spec fn join(parts: Seq<Seq<char>>, sep: Seq<char>) -> Seq<char>
    decreases parts.len(),
{
    if parts.len() == 0 {
        Seq::empty()
    } else if parts.len() == 1 {
        parts[0]
    } else {
        join(parts.drop_last(), sep) + sep + parts.last()
    }
}

/// `str::replace` with a non-empty pattern, scanning from `i`.
pub open spec fn replace_from(s: Seq<char>, p: Seq<char>, r: Seq<char>, i: int) -> Seq<char>
    decreases s.len() - i,
{
    if p.len() == 0 || i < 0 || i >= s.len() {
        Seq::empty()
    } else if i + p.len() <= s.len() && s.subrange(i, i + p.len()) == p {
        r + replace_from(s, p, r, i + p.len())
    } else {
        seq![s[i]] + replace_from(s, p, r, i + 1)
    }
}

/// `str::replace(p, r)` for a non-empty `p`.
pub open spec fn replace(s: Seq<char>, p: Seq<char>, r: Seq<char>) -> Seq<char> {
    replace_from(s, p, r, 0)
}

/// Maximal runs of non-white-space characters, scanning from `i`; `start`
/// is where the current run began, or negative outside a run.
pub open spec fn words_scan(s: Seq<char>, start: int, i: int) -> Seq<Seq<char>>
    decreases s.len() - i,
{
    if i < 0 || i >= s.len() {
        if 0 <= start <= s.len() {
            seq![s.subrange(start, s.len() as int)]
        } else {
            Seq::empty()
        }
    } else if is_white_space(s[i]) {
        if 0 <= start {
            seq![s.subrange(start, i)] + words_scan(s, -1, i + 1)
        } else {
            words_scan(s, -1, i + 1)
        }
    } else {
        words_scan(s, if 0 <= start { start } else { i }, i + 1)
    }
}

/// `str::split_whitespace`.
pub open spec fn split_whitespace(s: Seq<char>) -> Seq<Seq<char>> {
    words_scan(s, -1, 0)
}

/// A line without one trailing carriage return.
pub open spec fn strip_cr(l: Seq<char>) -> Seq<char> {
    if l.len() > 0 && l.last() == '\r' {
        l.drop_last()
    } else {
        l
    }
}

/// `str::lines`: lines end at `\n` or `\r\n`; the final line ending is
/// optional and a bare `\r` ends no line.
pub open spec fn lines(s: Seq<char>) -> Seq<Seq<char>> {
    let ps = split_char(s, '\n');
    if ps.last().len() == 0 {
        ps.drop_last().map_values(|l: Seq<char>| strip_cr(l))
    } else {
        ps.drop_last().map_values(|l: Seq<char>| strip_cr(l)).push(ps.last())
    }
}

/// The character sequences of a sequence of vectors.
pub open spec fn view_all(v: Seq<Vec<char>>) -> Seq<Seq<char>> {
    v.map_values(|x: Vec<char>| x@)
}

pub proof fn lemma_view_all_push(v: Seq<Vec<char>>, x: Vec<char>)
    ensures
        view_all(v.push(x)) == view_all(v).push(x@),
{
    assert(view_all(v.push(x)) =~= view_all(v).push(x@));
}

// ---------------------------------------------------------------------------
// Executable counterparts.
// ---------------------------------------------------------------------------

/// The characters of a string slice, in order.
pub fn chars_of(s: &str) -> (v: Vec<char>)
    ensures
        v@ == s@,
{
    let mut v: Vec<char> = Vec::new();
    for c in it: s.chars()
        invariant
            v@ == it.seq().take(it.index() as int),
    {
        v.push(c);
    }
    v
}

/// Builds a `String` from characters.
pub fn string_of(v: &Vec<char>) -> (s: String)
    ensures
        s@ == v@,
{
    let mut s = String::new();
    let mut i: usize = 0;
    while i < v.len()
        invariant
            i <= v.len(),
            s@ == v@.take(i as int),
        decreases v.len() - i,
    {
        push_char(&mut s, v[i]);
        i = i + 1;
        assert(s@ == v@.take(i as int));
    }
    assert(v@.take(v.len() as int) == v@);
    s
}

/// A copy of `v[i..j]`.
pub fn slice_of(v: &Vec<char>, i: usize, j: usize) -> (r: Vec<char>)
    requires
        i <= j <= v.len(),
    ensures
        r@ == v@.subrange(i as int, j as int),
{
    let mut r: Vec<char> = Vec::new();
    let mut k: usize = i;
    while k < j
        invariant
            i <= k <= j <= v.len(),
            r@ == v@.subrange(i as int, k as int),
        decreases j - k,
    {
        r.push(v[k]);
        k = k + 1;
        assert(r@ == v@.subrange(i as int, k as int));
    }
    r
}

/// `a` followed by `b`.
pub fn concat(a: &Vec<char>, b: &Vec<char>) -> (r: Vec<char>)
    ensures
        r@ == a@ + b@,
{
    let mut r = a.clone();
    assert(r@ == a@);
    let mut k: usize = 0;
    while k < b.len()
        invariant
            k <= b.len(),
            r@ == a@ + b@.take(k as int),
        decreases b.len() - k,
    {
        r.push(b[k]);
        k = k + 1;
        assert(r@ == a@ + b@.take(k as int));
    }
    assert(b@.take(b.len() as int) == b@);
    r
}

/// Appends `b` to `a` in place.
pub fn extend(a: &mut Vec<char>, b: &Vec<char>)
    ensures
        final(a)@ == old(a)@ + b@,
{
    let mut k: usize = 0;
    while k < b.len()
        invariant
            k <= b.len(),
            a@ == old(a)@ + b@.take(k as int),
        decreases b.len() - k,
    {
        a.push(b[k]);
        k = k + 1;
        assert(a@ == old(a)@ + b@.take(k as int));
    }
    assert(b@.take(b.len() as int) == b@);
}

proof fn lemma_trim_start_step(s: Seq<char>, m: CharClass, i: int)
    requires
        0 <= i < s.len(),
        in_class(s[i], m),
    ensures
        trim_start_by(s.subrange(i, s.len() as int), m) == trim_start_by(
            s.subrange(i + 1, s.len() as int),
            m,
        ),
{
    assert(s.subrange(i, s.len() as int).drop_first() == s.subrange(i + 1, s.len() as int));
}

proof fn lemma_trim_end_step(s: Seq<char>, m: CharClass, j: int)
    requires
        0 < j <= s.len(),
        in_class(s[j - 1], m),
    ensures
        trim_end_by(s.subrange(0, j), m) == trim_end_by(s.subrange(0, j - 1), m),
{
    assert(s.subrange(0, j).drop_last() == s.subrange(0, j - 1));
}

/// Where `trim_start_by(v, m)` begins.
pub fn leading_end(v: &Vec<char>, m: CharClass) -> (i: usize)
    ensures
        i <= v.len(),
        trim_start_by(v@, m) == v@.subrange(i as int, v@.len() as int),
{
    let mut i: usize = 0;
    assert(v@.subrange(0, v@.len() as int) == v@);
    while i < v.len() && char_in_class(v[i], m)
        invariant
            i <= v.len(),
            trim_start_by(v@, m) == trim_start_by(v@.subrange(i as int, v@.len() as int), m),
        decreases v.len() - i,
    {
        proof {
            lemma_trim_start_step(v@, m, i as int);
        }
        i = i + 1;
    }
    i
}

/// Where `trim_end_by(v, m)` ends.
pub fn trailing_start(v: &Vec<char>, m: CharClass) -> (j: usize)
    ensures
        j <= v.len(),
        trim_end_by(v@, m) == v@.subrange(0, j as int),
{
    let mut j: usize = v.len();
    assert(v@.subrange(0, v@.len() as int) == v@);
    while j > 0 && char_in_class(v[j - 1], m)
        invariant
            j <= v.len(),
            trim_end_by(v@, m) == trim_end_by(v@.subrange(0, j as int), m),
        decreases j,
    {
        proof {
            lemma_trim_end_step(v@, m, j as int);
        }
        j = j - 1;
    }
    j
}

pub fn trim_start_with(v: &Vec<char>, m: CharClass) -> (r: Vec<char>)
    ensures
        r@ == trim_start_by(v@, m),
{
    let i = leading_end(v, m);
    slice_of(v, i, v.len())
}

pub fn trim_end_with(v: &Vec<char>, m: CharClass) -> (r: Vec<char>)
    ensures
        r@ == trim_end_by(v@, m),
{
    let j = trailing_start(v, m);
    slice_of(v, 0, j)
}

pub fn trim_with(v: &Vec<char>, m: CharClass) -> (r: Vec<char>)
    ensures
        r@ == trim_by(v@, m),
{
    let t = trim_start_with(v, m);
    trim_end_with(&t, m)
}

/// `str::trim` on characters.
pub fn trim_chars(v: &Vec<char>) -> (r: Vec<char>)
    ensures
        r@ == trim(v@),
{
    trim_with(v, CharClass::WhiteSpace)
}

/// Whether `p` occurs in `v` at `i`.
pub fn occurs_at_exec(v: &Vec<char>, p: &Vec<char>, i: usize) -> (r: bool)
    ensures
        r == occurs_at(v@, p@, i as int),
{
    if p.len() > v.len() || i > v.len() - p.len() {
        return false;
    }
    let mut k: usize = 0;
    while k < p.len()
        invariant
            k <= p.len(),
            i + p.len() <= v.len(),
            forall|t: int| 0 <= t < k ==> v@[i + t] == p@[t],
        decreases p.len() - k,
    {
        if v[i + k] != p[k] {
            assert(v@.subrange(i as int, i + p.len())[k as int] != p@[k as int]);
            return false;
        }
        k = k + 1;
    }
    assert(v@.subrange(i as int, i + p.len()) == p@);
    true
}

/// `str::starts_with`.
pub fn starts_with_exec(v: &Vec<char>, p: &Vec<char>) -> (r: bool)
    ensures
        r == starts_with(v@, p@),
{
    occurs_at_exec(v, p, 0)
}

/// Whether `c` occurs in `v`.
pub fn contains_char(v: &Vec<char>, c: char) -> (r: bool)
    ensures
        r == v@.contains(c),
{
    let mut k: usize = 0;
    while k < v.len()
        invariant
            k <= v.len(),
            forall|t: int| 0 <= t < k ==> v@[t] != c,
        decreases v.len() - k,
    {
        if v[k] == c {
            assert(v@[k as int] == c);
            return true;
        }
        k = k + 1;
    }
    false
}

/// Whether the last character of `v` is `c`.
pub fn ends_with_char(v: &Vec<char>, c: char) -> (r: bool)
    ensures
        r == (v@.len() > 0 && v@.last() == c),
{
    v.len() > 0 && v[v.len() - 1] == c
}

/// First occurrence of `p` at or after `start`.
pub fn find_exec(v: &Vec<char>, p: &Vec<char>, start: usize) -> (r: Option<usize>)
    ensures
        match r {
            Some(k) => find_from(v@, p@, start as int) == Some(k as int),
            None => find_from(v@, p@, start as int) is None,
        },
{
    let mut k: usize = start;
    while k <= v.len() && p.len() <= v.len() - k
        invariant
            start <= k,
            find_from(v@, p@, start as int) == find_from(v@, p@, k as int),
        decreases v.len() + 1 - k,
    {
        if occurs_at_exec(v, p, k) {
            return Some(k);
        }
        proof {
            if p@.len() == 0 {
                assert(v@.subrange(k as int, k as int) == p@);
            }
        }
        k = k + 1;
    }
    None
}

/// `str::split` with a string pattern.
pub fn split_str_exec(v: &Vec<char>, p: &Vec<char>) -> (r: Vec<Vec<char>>)
    ensures
        view_all(r@) == split_str(v@, p@),
{
    let mut r: Vec<Vec<char>> = Vec::new();
    if p.len() == 0 {
        let e0: Vec<char> = Vec::new();
        let ghost e0_v = e0;
        r.push(e0);
        proof { lemma_view_all_push(Seq::empty(), e0_v); }
        let mut k: usize = 0;
        while k < v.len()
            invariant
                k <= v.len(),
                view_all(r@) == seq![Seq::<char>::empty()] + v@.take(k as int).map_values(
                    |c: char| seq![c],
                ),
            decreases v.len() - k,
        {
            let ghost before = view_all(r@);
            let ghost before_r = r@;
            let mut one: Vec<char> = Vec::new();
            one.push(v[k]);
            let ghost one_v = one;
            r.push(one);
            proof { lemma_view_all_push(before_r, one_v); }
            k = k + 1;
            assert(v@.take(k as int).map_values(|c: char| seq![c]) == v@.take(
                k - 1,
            ).map_values(|c: char| seq![c]).push(seq![v@[k - 1]]));
        }
        let ghost before_r = r@;
        let e: Vec<char> = Vec::new();
        let ghost e_v = e;
        r.push(e);
        proof { lemma_view_all_push(before_r, e_v); }
        assert(v@.take(v.len() as int) == v@);
        return r;
    }
    let mut start: usize = 0;
    let mut i: usize = 0;
    while i <= v.len() && p.len() <= v.len() - i
        invariant
            p.len() > 0,
            start <= i,
            i <= v.len(),
            split_scan(v@, p@, 0, 0) == view_all(r@) + split_scan(
                v@,
                p@,
                start as int,
                i as int,
            ),
        decreases v.len() + 1 - i,
    {
        if occurs_at_exec(v, p, i) {
            let piece = slice_of(v, start, i);
            let ghost before_r = r@;
            let ghost piece_v = piece;
            r.push(piece);
            proof { lemma_view_all_push(before_r, piece_v); }
            i = i + p.len();
            start = i;
        } else {
            i = i + 1;
        }
    }
    let last = slice_of(v, start, v.len());
    let ghost before_r = r@;
    let ghost last_v = last;
    r.push(last);
    proof { lemma_view_all_push(before_r, last_v); }
    r
}

/// `str::split` with a character pattern.
pub fn split_char_exec(v: &Vec<char>, c: char) -> (r: Vec<Vec<char>>)
    ensures
        view_all(r@) == split_char(v@, c),
{
    let p: Vec<char> = vec![c];
    assert(p@ == seq![c]);
    split_str_exec(v, &p)
}

/// `[..].join(sep)`.
pub fn join_exec(parts: &Vec<Vec<char>>, sep: &Vec<char>) -> (r: Vec<char>)
    ensures
        r@ == join(view_all(parts@), sep@),
{
    let mut r: Vec<char> = Vec::new();
    let mut k: usize = 0;
    while k < parts.len()
        invariant
            k <= parts.len(),
            r@ == join(view_all(parts@.take(k as int)), sep@),
        decreases parts.len() - k,
    {
        let ghost prev = view_all(parts@.take(k as int));
        if k > 0 {
            extend(&mut r, sep);
        }
        extend(&mut r, &parts[k]);
        k = k + 1;
        proof {
            let cur = view_all(parts@.take(k as int));
            assert(cur.drop_last() == prev);
            assert(cur.last() == parts@[k - 1]@);
            assert(cur.len() == k);
            if k == 1 {
                assert(prev.len() == 0);
            }
        }
    }
    assert(parts@.take(parts.len() as int) == parts@);
    r
}

/// `str::replace(p, r)` with a non-empty pattern.
pub fn replace_exec(v: &Vec<char>, p: &Vec<char>, rep: &Vec<char>) -> (r: Vec<char>)
    requires
        p.len() > 0,
    ensures
        r@ == replace(v@, p@, rep@),
{
    let mut r: Vec<char> = Vec::new();
    let mut i: usize = 0;
    while i < v.len()
        invariant
            p.len() > 0,
            i <= v.len(),
            replace(v@, p@, rep@) == r@ + replace_from(v@, p@, rep@, i as int),
        decreases v.len() - i,
    {
        if occurs_at_exec(v, p, i) {
            extend(&mut r, rep);
            i = i + p.len();
        } else {
            r.push(v[i]);
            i = i + 1;
        }
    }
    assert(r@ + Seq::<char>::empty() == r@);
    r
}

/// `str::split_whitespace`.
pub fn split_whitespace_exec(v: &Vec<char>) -> (r: Vec<Vec<char>>)
    ensures
        view_all(r@) == split_whitespace(v@),
{
    let mut r: Vec<Vec<char>> = Vec::new();
    let mut start: usize = 0;
    let mut in_word = false;
    let mut i: usize = 0;
    while i < v.len()
        invariant
            i <= v.len(),
            in_word ==> start <= i,
            split_whitespace(v@) == view_all(r@) + words_scan(
                v@,
                if in_word { start as int } else { -1 },
                i as int,
            ),
        decreases v.len() - i,
    {
        if char_is_whitespace(v[i]) {
            if in_word {
                let w = slice_of(v, start, i);
                let ghost before_r = r@;
                let ghost w_v = w;
                r.push(w);
                proof {
                    lemma_view_all_push(before_r, w_v);
                }
                in_word = false;
            }
        } else if !in_word {
            in_word = true;
            start = i;
        }
        i = i + 1;
    }
    if in_word {
        let w = slice_of(v, start, v.len());
        let ghost before_r = r@;
        let ghost w_v = w;
        r.push(w);
        proof {
            lemma_view_all_push(before_r, w_v);
        }
    } else {
        assert(view_all(r@) + Seq::<Seq<char>>::empty() == view_all(r@));
    }
    r
}

/// A line without one trailing carriage return.
pub fn strip_cr_exec(l: &Vec<char>) -> (r: Vec<char>)
    ensures
        r@ == strip_cr(l@),
{
    if l.len() > 0 && l[l.len() - 1] == '\r' {
        slice_of(l, 0, l.len() - 1)
    } else {
        l.clone()
    }
}

/// `str::lines`.
pub fn lines_exec(v: &Vec<char>) -> (r: Vec<Vec<char>>)
    ensures
        view_all(r@) == lines(v@),
{
    let ps = split_char_exec(v, '\n');
    let ghost psv = split_char(v@, '\n');
    proof {
        lemma_split_nonempty(v@, seq!['\n']);
    }
    let n = ps.len();
    let mut r: Vec<Vec<char>> = Vec::new();
    let mut k: usize = 0;
    while k + 1 < n
        invariant
            n == ps.len(),
            n >= 1,
            view_all(ps@) == psv,
            k + 1 <= n,
            view_all(r@) == psv.take(k as int).map_values(|l: Seq<char>| strip_cr(l)),
        decreases n - k,
    {
        let l = strip_cr_exec(&ps[k]);
        let ghost before_r = r@;
        let ghost l_v = l;
        r.push(l);
        proof {
            lemma_view_all_push(before_r, l_v);
            assert(psv.take(k + 1).map_values(|l: Seq<char>| strip_cr(l)) == psv.take(
                k as int,
            ).map_values(|l: Seq<char>| strip_cr(l)).push(strip_cr(psv[k as int])));
        }
        k = k + 1;
    }
    assert(psv.take(k as int) == psv.drop_last());
    if ps[n - 1].len() > 0 {
        let last = ps[n - 1].clone();
        let ghost before_r = r@;
        let ghost last_v = last;
        r.push(last);
        proof {
            lemma_view_all_push(before_r, last_v);
        }
    }
    r
}

proof fn lemma_split_scan_nonempty(s: Seq<char>, p: Seq<char>, start: int, i: int)
    ensures
        split_scan(s, p, start, i).len() >= 1,
    decreases s.len() - i,
{
    if p.len() == 0 || i < 0 || i + p.len() > s.len() {
    } else if s.subrange(i, i + p.len()) == p {
        lemma_split_scan_nonempty(s, p, i + p.len(), i + p.len());
    } else {
        lemma_split_scan_nonempty(s, p, start, i + 1);
    }
}

pub proof fn lemma_split_nonempty(s: Seq<char>, p: Seq<char>)
    ensures
        split_str(s, p).len() >= 1,
{
    if p.len() > 0 {
        lemma_split_scan_nonempty(s, p, 0, 0);
    }
}

/// Whether two character vectors are equal.
pub fn eq_exec(a: &Vec<char>, b: &Vec<char>) -> (r: bool)
    ensures
        r == (a@ == b@),
{
    if a.len() != b.len() {
        return false;
    }
    let r = occurs_at_exec(a, b, 0);
    proof {
        if a@.len() == b@.len() {
            assert(a@.subrange(0, b@.len() as int) == a@);
        }
    }
    r
}

/// Appends characters to a `String`.
pub fn push_chars(s: &mut String, v: &Vec<char>)
    ensures
        final(s)@ == old(s)@ + v@,
{
    let mut k: usize = 0;
    while k < v.len()
        invariant
            k <= v.len(),
            s@ == old(s)@ + v@.take(k as int),
        decreases v.len() - k,
    {
        push_char(s, v[k]);
        k = k + 1;
        assert(s@ == old(s)@ + v@.take(k as int));
    }
    assert(v@.take(v.len() as int) == v@);
}

/// The decimal digit character for `d < 10`.
pub open spec fn digit_char(d: nat) -> char {
    (48 + d) as char
}

/// The decimal representation of `n`, without leading zeros.
pub open spec fn decimal(n: nat) -> Seq<char>
    decreases n,
{
    if n < 10 {
        seq![digit_char(n)]
    } else {
        decimal(n / 10).push(digit_char(n % 10))
    }
}

/// The decimal representation of `n` (`n.to_string()`).
pub fn decimal_chars(n: usize) -> (r: Vec<char>)
    ensures
        r@ == decimal(n as nat),
    decreases n,
{
    if n < 10 {
        let c = ((48 + n) as u8) as char;
        let mut r: Vec<char> = Vec::new();
        r.push(c);
        assert(r@ == seq![c]);
        r
    } else {
        let mut r = decimal_chars(n / 10);
        let d = n % 10;
        let c = ((48 + d) as u8) as char;
        r.push(c);
        r
    }
}

/// The decimal representation of a 64-bit count.
pub fn decimal_chars_u64(n: u64) -> (r: Vec<char>)
    ensures
        r@ == decimal(n as nat),
    decreases n,
{
    if n < 10 {
        let c = ((48 + n) as u8) as char;
        let mut r: Vec<char> = Vec::new();
        r.push(c);
        assert(r@ == seq![c]);
        r
    } else {
        let mut r = decimal_chars_u64(n / 10);
        let d = n % 10;
        let c = ((48 + d) as u8) as char;
        r.push(c);
        r
    }
}

/// `n` spaces.
pub open spec fn spaces(n: nat) -> Seq<char> {
    Seq::new(n, |i: int| ' ')
}

/// Appends `n` spaces.
pub fn push_spaces(v: &mut Vec<char>, n: usize)
    ensures
        final(v)@ == old(v)@ + spaces(n as nat),
{
    let mut k: usize = 0;
    while k < n
        invariant
            k <= n,
            v@ == old(v)@ + spaces(k as nat),
        decreases n - k,
    {
        v.push(' ');
        k = k + 1;
        assert(v@ == old(v)@ + spaces(k as nat));
    }
}

/// `true` for ASCII letters (`char::is_ascii_alphabetic`).
pub open spec fn is_ascii_alpha(c: char) -> bool {
    (65 <= (c as u32) <= 90) || (97 <= (c as u32) <= 122)
}

/// The ASCII lower-case of `c` (`char::to_ascii_lowercase`).
pub open spec fn ascii_lower(c: char) -> int {
    if 65 <= (c as u32) <= 90 {
        (c as u32) + 32
    } else {
        c as u32 as int
    }
}

/// `str::eq_ignore_ascii_case`.
pub open spec fn eq_ignore_ascii_case(a: Seq<char>, b: Seq<char>) -> bool {
    a.len() == b.len() && forall|i: int| 0 <= i < a.len() ==> #[trigger] ascii_lower(a[i]) == ascii_lower(b[i])
}

pub fn eq_ignore_ascii_case_exec(a: &Vec<char>, b: &Vec<char>) -> (r: bool)
    ensures
        r == eq_ignore_ascii_case(a@, b@),
{
    if a.len() != b.len() {
        return false;
    }
    let mut k: usize = 0;
    while k < a.len()
        invariant
            k <= a.len(),
            a.len() == b.len(),
            forall|i: int| 0 <= i < k ==> #[trigger] ascii_lower(a@[i]) == ascii_lower(b@[i]),
        decreases a.len() - k,
    {
        let x = a[k] as u32;
        let y = b[k] as u32;
        let lx = if 65 <= x && x <= 90 { x + 32 } else { x };
        let ly = if 65 <= y && y <= 90 { y + 32 } else { y };
        if lx != ly {
            assert(ascii_lower(a@[k as int]) != ascii_lower(b@[k as int]));
            return false;
        }
        k = k + 1;
    }
    true
}

} // verus!
