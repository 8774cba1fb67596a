//! Verified helpers for the string operations the rewriting logic needs:
//! equality, `name=`-prefix detection, suffix extraction and concatenation.

use vstd::prelude::*;

verus! {

/// `tok` begins with `name` followed immediately by `=`.
pub open spec fn eq_prefixed(name: Seq<char>, tok: Seq<char>) -> bool {
    &&& tok.len() > name.len()
    &&& tok.subrange(0, name.len() as int) == name
    &&& tok[name.len() as int] == '='
}

/// Character-by-character string equality.
pub fn str_eq(a: &str, b: &str) -> (r: bool)
    ensures
        r == (a@ == b@),
{
    let a_len = a.unicode_len();
    let b_len = b.unicode_len();
    if a_len != b_len {
        return false;
    }
    let mut i: usize = 0;
    while i < a_len
        invariant
            a_len == a@.len(),
            b_len == b@.len(),
            a_len == b_len,
            i <= a_len,
            forall|j: int| 0 <= j < i ==> a@[j] == b@[j],
        decreases a_len - i,
    {
        if a.get_char(i) != b.get_char(i) {
            return false;
        }
        i += 1;
    }
    proof {
        assert(a@ =~= b@);
    }
    true
}

/// Whether `tok` begins with `name` followed immediately by `=`.
pub fn has_eq_prefix(tok: &str, name: &str) -> (r: bool)
    ensures
        r == eq_prefixed(name@, tok@),
{
    let name_len = name.unicode_len();
    let tok_len = tok.unicode_len();
    if tok_len <= name_len {
        return false;
    }
    let mut i: usize = 0;
    while i < name_len
        invariant
            name_len == name@.len(),
            tok_len == tok@.len(),
            tok_len > name_len,
            i <= name_len,
            forall|j: int| 0 <= j < i ==> tok@[j] == name@[j],
        decreases name_len - i,
    {
        if tok.get_char(i) != name.get_char(i) {
            proof {
                assert(tok@.subrange(0, name@.len() as int)[i as int] == tok@[i as int]);
            }
            return false;
        }
        i += 1;
    }
    if tok.get_char(name_len) == '=' {
        proof {
            assert(tok@.subrange(0, name@.len() as int) =~= name@);
        }
        true
    } else {
        false
    }
}

/// The suffix of `tok` from character position `from` on, as an owned string.
pub fn tail_from(tok: &str, from: usize) -> (r: String)
    requires
        from <= tok@.len(),
    ensures
        r@ == tok@.skip(from as int),
{
    let len = tok.unicode_len();
    let sub = tok.substring_char(from, len);
    proof {
        assert(tok@.subrange(from as int, tok@.len() as int) =~= tok@.skip(from as int));
    }
    sub.to_owned()
}

/// Concatenation of two string slices into an owned string.
pub fn concat_str(a: &str, b: &str) -> (r: String)
    ensures
        r@ == a@ + b@,
{
    let mut s = a.to_owned();
    s.append(b);
    s
}

} // verus!
