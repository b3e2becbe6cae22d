//! Segment-wise path hierarchy: when one slash-delimited path covers
//! another, defined as a specification and decided executably.

use vstd::prelude::*;

verus! {

/// `p` is a proper, segment-wise descendant of `anc`: `p` strictly extends
/// `anc`, and the extension begins at a segment boundary, so that "/x" is an
/// ancestor of "/x/y" but not of "/xfoo".  An ancestor that already ends in
/// the separator (such as the root "/") needs no further boundary character.
pub open spec fn is_strict_descendant(anc: Seq<char>, p: Seq<char>) -> bool {
    &&& p.len() > anc.len()
    &&& p.subrange(0, anc.len() as int) == anc
    &&& (anc.len() > 0 && anc[anc.len() - 1] == '/' || p[anc.len() as int] == '/')
}

/// A hierarchical query for `q` covers an entity stored at `p`: either the
/// two paths are equal or `p` is a proper segment-wise descendant of `q`.
pub open spec fn covers(q: Seq<char>, p: Seq<char>) -> bool {
    p == q || is_strict_descendant(q, p)
}

/// Decides `covers(q@, p@)` executably, comparing character by character.
pub fn path_covers(q: &str, p: &str) -> (b: bool)
    ensures
        b == covers(q@, p@),
{
    let ql = q.unicode_len();
    let pl = p.unicode_len();
    if pl < ql {
        return false;
    }
    let mut i: usize = 0;
    while i < ql
        invariant
            i <= ql,
            ql == q@.len(),
            pl == p@.len(),
            ql <= pl,
            forall|j: int| 0 <= j < i ==> q@[j] == p@[j],
        decreases ql - i,
    {
        if q.get_char(i) != p.get_char(i) {
            proof {
                assert(p@.subrange(0, ql as int)[i as int] == p@[i as int]);
            }
            return false;
        }
        i += 1;
    }
    proof {
        assert(p@.subrange(0, ql as int) =~= q@);
    }
    if pl == ql {
        proof {
            assert(p@ =~= q@);
        }
        return true;
    }
    if ql == 0 {
        return p.get_char(0) == '/';
    }
    if q.get_char(ql - 1) == '/' {
        return true;
    }
    p.get_char(ql) == '/'
}

/// Decides equality of two paths executably, character by character.
pub fn path_eq(a: &str, b: &str) -> (r: bool)
    ensures
        r == (a@ == b@),
{
    let al = a.unicode_len();
    let bl = b.unicode_len();
    if al != bl {
        return false;
    }
    let mut i: usize = 0;
    while i < al
        invariant
            i <= al,
            al == a@.len(),
            bl == b@.len(),
            al == bl,
            forall|j: int| 0 <= j < i ==> a@[j] == b@[j],
        decreases al - i,
    {
        if a.get_char(i) != b.get_char(i) {
            return false;
        }
        i += 1;
    }
    proof {
        assert(a@ =~= b@);
    }
    true
}

} // verus!
