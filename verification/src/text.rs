//! Case folding and substring matching for the case-insensitive search.

use vstd::prelude::*;
use vstd::string::StrSliceExecFns;

verus! {

/// The character sequence that Unicode lowercasing yields for `s`; named
/// here, defined by the standard library.
pub uninterp spec fn lower_of(s: Seq<char>) -> Seq<char>;

/// True when `needle` occurs contiguously inside `hay`.
pub open spec fn contains_seq(hay: Seq<char>, needle: Seq<char>) -> bool {
    exists|i: int|
        0 <= i && i + needle.len() <= hay.len() && #[trigger] hay.subrange(i, i + needle.len())
            == needle
}

/// Split one `NAME=value` block entry at its first `=`; an entry without
/// `=` yields nothing.
pub fn split_env_entry(s: &str) -> (r: Option<(String, String)>)
    ensures
        match r {
            Some(p) => {
                let n = p.0@.len() as int;
                &&& n < s@.len()
                &&& s@[n] == '='
                &&& (forall|j: int| 0 <= j < n ==> s@[j] != '=')
                &&& p.0@ == s@.subrange(0, n)
                &&& p.1@ == s@.subrange(n + 1, s@.len() as int)
            },
            None => forall|i: int| 0 <= i < s@.len() ==> s@[i] != '=',
        },
{
    let len = s.unicode_len();
    let mut i: usize = 0;
    while i < len
        invariant
            len == s@.len(),
            i <= len,
            forall|j: int| 0 <= j < i ==> s@[j] != '=',
        decreases len - i,
    {
        if s.get_char(i) == '=' {
            let name = s.substring_char(0, i).to_owned();
            let value = s.substring_char(i + 1, len).to_owned();
            return Some((name, value));
        }
        i += 1;
    }
    None
}

/// Relies on str::to_lowercase: the result is the lowercase equivalent of
/// the input and depends on its characters alone.
#[verifier::external_body]
pub(crate) fn to_lowercase(s: &str) -> (r: String)
    ensures
        r@ == lower_of(s@),
{
    s.to_lowercase()
}

/// Relies on str::contains: true exactly when the pattern occurs as a
/// substring of the receiver.
#[verifier::external_body]
pub(crate) fn contains_str(hay: &str, needle: &str) -> (r: bool)
    ensures
        r == contains_seq(hay@, needle@),
{
    hay.contains(needle)
}

} // verus!
