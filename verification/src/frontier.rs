//! Frontier deduplication of an enumerated directory set.
//!
//! When the traversal depth allows both a directory and one of its
//! subdirectories to be enumerated, only the more specific entry is worth
//! ranking.  `deduplicate` therefore drops every directory that has a
//! strict descendant in the set, keeping the maximal-depth frontier.  This
//! deliberately prioritises concrete offenders over aggregate totals: a
//! parent is always dropped once any child of it is present, so reported
//! sizes never double-count nested content — and callers must not expect
//! a parent's total to include its children's.
//!
//! Containment is decided by whole path segments (see [`crate::paths`]),
//! never by a raw string prefix: `/data/ab` does not drop `/data/a`.

use vstd::prelude::*;
use crate::paths::{is_strict_descendant, strict_descendant};

verus! {

/// Some element of `dirs` lies strictly inside `d`.
pub open spec fn has_strict_descendant_in(dirs: Seq<Seq<char>>, d: Seq<char>) -> bool {
    exists|i: int| 0 <= i < dirs.len() && is_strict_descendant(dirs[i], d)
}

/// The frontier of a directory set: the elements, in input order, that
/// have no strict descendant elsewhere in the set.
pub open spec fn frontier(dirs: Seq<Seq<char>>) -> Seq<Seq<char>> {
    dirs.filter(|d: Seq<char>| !has_strict_descendant_in(dirs, d))
}

/// Law: the frontier of a directory set never holds two paths where one
/// lies strictly inside the other.
pub proof fn lemma_frontier_no_nested_pair(dirs: Seq<Seq<char>>, i: int, j: int)
    requires
        0 <= i < frontier(dirs).len(),
        0 <= j < frontier(dirs).len(),
    ensures
        !is_strict_descendant(frontier(dirs)[i], frontier(dirs)[j]),
{
    let pred = |d: Seq<char>| !has_strict_descendant_in(dirs, d);
    let f = frontier(dirs);
    dirs.lemma_filter_pred(pred, j);
    assert(f.contains(f[i]));
    dirs.lemma_filter_contains_rev(pred, f[i]);
    if is_strict_descendant(f[i], f[j]) {
        let k = choose|k: int| 0 <= k < dirs.len() && dirs[k] == f[i];
        assert(is_strict_descendant(dirs[k], f[j]));
        assert(false);
    }
}

/// Law: every member of the frontier is a member of the input set.
pub proof fn lemma_frontier_subset(dirs: Seq<Seq<char>>, d: Seq<char>)
    requires
        frontier(dirs).contains(d),
    ensures
        dirs.contains(d),
{
    let pred = |x: Seq<char>| !has_strict_descendant_in(dirs, x);
    dirs.lemma_filter_contains_rev(pred, d);
}

/// Every element of a sequence that satisfies the predicate throughout is
/// kept unchanged by `filter`.
proof fn lemma_filter_all_kept<A>(s: Seq<A>, pred: spec_fn(A) -> bool)
    requires
        forall|i: int| 0 <= i < s.len() ==> #[trigger] pred(s[i]),
    ensures
        s.filter(pred) == s,
    decreases s.len(),
{
    reveal(Seq::filter);
    if s.len() > 0 {
        lemma_filter_all_kept(s.drop_last(), pred);
        assert(s.drop_last().push(s.last()) =~= s);
    }
}

/// Law: deduplication is idempotent; the frontier of a frontier is the
/// frontier itself.
pub proof fn lemma_frontier_idempotent(dirs: Seq<Seq<char>>)
    ensures
        frontier(frontier(dirs)) == frontier(dirs),
{
    let f = frontier(dirs);
    let pred = |d: Seq<char>| !has_strict_descendant_in(f, d);
    assert forall|i: int| 0 <= i < f.len() implies #[trigger] pred(f[i]) by {
        if has_strict_descendant_in(f, f[i]) {
            let k = choose|k: int| 0 <= k < f.len() && is_strict_descendant(f[k], f[i]);
            lemma_frontier_no_nested_pair(dirs, k, i);
        }
    }
    lemma_filter_all_kept(f, pred);
}

/// Decides whether any element of `dirs` lies strictly inside `d`.
fn has_strict_descendant(dirs: &Vec<String>, d: &String) -> (r: bool)
    ensures
        r == has_strict_descendant_in(dirs.deep_view(), d@),
{
    let n = dirs.len();
    let mut j: usize = 0;
    while j < n
        invariant
            n == dirs@.len(),
            j <= n,
            forall|k: int| 0 <= k < j ==> !is_strict_descendant(dirs.deep_view()[k], d@),
        decreases n - j,
    {
        if strict_descendant(dirs[j].as_str(), d.as_str()) {
            assert(is_strict_descendant(dirs.deep_view()[j as int], d@));
            return true;
        }
        j += 1;
    }
    false
}

/// Removes every directory that has a strict descendant in the set,
/// returning the maximal-depth frontier in input order.
pub fn deduplicate(dirs: &Vec<String>) -> (r: Vec<String>)
    ensures
        r.deep_view() == frontier(dirs.deep_view()),
{
    let ghost model = dirs.deep_view();
    let ghost pred = |d: Seq<char>| !has_strict_descendant_in(model, d);
    let n = dirs.len();
    let mut out: Vec<String> = Vec::new();
    let mut i: usize = 0;
    proof {
        reveal(Seq::filter);
        assert(model.take(0) =~= Seq::<Seq<char>>::empty());
        assert(out.deep_view() =~= model.take(0).filter(pred));
    }
    while i < n
        invariant
            n == dirs@.len(),
            model == dirs.deep_view(),
            pred == (|d: Seq<char>| !has_strict_descendant_in(model, d)),
            i <= n,
            out.deep_view() == model.take(i as int).filter(pred),
        decreases n - i,
    {
        let ghost prev = out.deep_view();
        let keep = !has_strict_descendant(dirs, &dirs[i]);
        if keep {
            out.push(dirs[i].clone());
        }
        proof {
            reveal(Seq::filter);
            assert(model.take(i + 1).drop_last() =~= model.take(i as int));
            assert(model.take(i + 1).last() == model[i as int]);
            if keep {
                assert(out.deep_view() =~= prev.push(model[i as int]));
            }
            assert(out.deep_view() =~= model.take(i + 1).filter(pred));
        }
        i += 1;
    }
    proof {
        assert(model.take(n as int) =~= model);
    }
    out
}

} // verus!
