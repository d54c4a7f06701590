//! Locations: the default trick directory, path joining and which files
//! are trick files. Walking directories is the caller's.

use vstd::prelude::*;
use crate::item::opt_view;
use crate::text::{chars_of, string_of};

verus! {

/// `PathBuf::push` of a relative segment: a `/` is added between the two
/// unless the base is empty or already ends with one.
pub open spec fn joined(base: Seq<char>, seg: Seq<char>) -> Seq<char> {
    if base.len() > 0 && base.last() != '/' {
        base + seq!['/'] + seg
    } else {
        base + seg
    }
}

pub fn join_exec(base: &String, seg: &Vec<char>) -> (r: String)
    ensures
        r@ == joined(base@, seg@),
{
    let mut v = chars_of(base.as_str());
    if v.len() > 0 && v[v.len() - 1] != '/' {
        v.push('/');
    }
    crate::text::extend(&mut v, seg);
    string_of(&v)
}

/// Default trick directory: `tricks` under the data directory, when there
/// is one.
pub fn default_tricks_dir(data_dir: Option<String>) -> (r: Option<String>)
    ensures
        opt_view(r) == match data_dir {
            Some(d) => Some(joined(d@, seq!['t', 'r', 'i', 'c', 'k', 's'])),
            None => None,
        },
{
    match data_dir {
        Some(d) => {
            let seg: Vec<char> = vec!['t', 'r', 'i', 'c', 'k', 's'];
            assert(seg@ == seq!['t', 'r', 'i', 'c', 'k', 's']);
            Some(join_exec(&d, &seg))
        },
        None => None,
    }
}

/// `.trick.md`.
pub open spec fn trick_suffix() -> Seq<char> {
    seq!['.', 't', 'r', 'i', 'c', 'k', '.', 'm', 'd']
}

/// Whether a file is a trick file: its path ends with `.trick.md`.
pub fn is_trick_file(path: &str) -> (r: bool)
    ensures
        r == (path@.len() >= trick_suffix().len() && path@.skip(path@.len() - trick_suffix().len()) == trick_suffix()),
{
    let v = chars_of(path);
    let suf: Vec<char> = vec!['.', 't', 'r', 'i', 'c', 'k', '.', 'm', 'd'];
    assert(suf@ == trick_suffix());
    if v.len() < suf.len() {
        return false;
    }
    let start = v.len() - suf.len();
    let mut k: usize = 0;
    while k < suf.len()
        invariant
            k <= suf.len(),
            start + suf.len() == v.len(),
            suf@ == trick_suffix(),
            v@ == path@,
            forall|j: int| 0 <= j < k ==> v@[start + j] == suf@[j],
        decreases suf.len() - k,
    {
        if v[start + k] != suf[k] {
            assert(v@.skip(start as int)[k as int] != suf@[k as int]);
            return false;
        }
        k = k + 1;
    }
    assert(v@.skip(start as int) =~= suf@);
    true
}

} // verus!
