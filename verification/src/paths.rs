//! Structural containment of directory paths.
//!
//! A directory `child` lies strictly inside `parent` when `parent` is a
//! proper prefix of `child` that ends at a path-segment boundary.  The
//! segment condition matters: `/data/ab` is not inside `/data/a`, even
//! though the raw string `/data/ab` starts with `/data/a`.

use vstd::prelude::*;
use vstd::string::StrSliceExecFns;

verus! {

/// True when the path ends in the separator character, as `/` or `/srv/`
/// do.  For such a parent any proper extension starts a new segment.
pub open spec fn ends_with_separator(p: Seq<char>) -> bool {
    p.len() > 0 && p[p.len() - 1] == '/'
}

/// `child` names a directory strictly inside `parent`: `parent` is a
/// proper prefix of `child`, and the prefix ends on a whole path segment,
/// either because `parent` itself ends in the separator or because the
/// next character of `child` is the separator.
pub open spec fn is_strict_descendant(child: Seq<char>, parent: Seq<char>) -> bool {
    &&& parent.len() < child.len()
    &&& child.subrange(0, parent.len() as int) == parent
    &&& (ends_with_separator(parent) || child[parent.len() as int] == '/')
}

/// Decides strict containment of one directory path in another by whole
/// path segments, never by a bare string prefix.
pub fn strict_descendant(child: &str, parent: &str) -> (r: bool)
    ensures
        r == is_strict_descendant(child@, parent@),
{
    let clen = child.unicode_len();
    let plen = parent.unicode_len();
    if plen >= clen {
        return false;
    }
    let mut i: usize = 0;
    while i < plen
        invariant
            plen < clen,
            clen == child@.len(),
            plen == parent@.len(),
            i <= plen,
            forall|j: int| 0 <= j < i ==> child@[j] == parent@[j],
        decreases plen - i,
    {
        let cc = child.get_char(i);
        let pc = parent.get_char(i);
        if cc != pc {
            assert(child@.subrange(0, plen as int)[i as int] != parent@[i as int]);
            return false;
        }
        i += 1;
    }
    assert(child@.subrange(0, plen as int) =~= parent@);
    if plen > 0 {
        if parent.get_char(plen - 1) == '/' {
            return true;
        }
    }
    child.get_char(plen) == '/'
}

} // verus!
