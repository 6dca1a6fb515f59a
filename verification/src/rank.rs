//! Sizing outcomes and ranking.
//!
//! Sizing a frontier directory is a best-effort outside operation: each
//! directory either gets a byte total or fails.  `collect_sized` folds
//! those per-directory outcomes into the list of successfully sized
//! directories, and `rank` selects the `top_n` largest of them, sorted
//! descending by size.

use vstd::prelude::*;
use vstd::math::min;

verus! {

broadcast use vstd::seq_lib::group_to_multiset_ensures, vstd::multiset::group_multiset_axioms;

/// A directory together with the byte total computed for it in this scan.
pub struct SizedDirectory {
    pub directory: String,
    pub size: u64,
}

impl DeepView for SizedDirectory {
    type V = (Seq<char>, u64);

    open spec fn deep_view(&self) -> (Seq<char>, u64) {
        (self.directory.deep_view(), self.size)
    }
}

/// The outcome of sizing one directory: its byte total, or nothing when
/// the computation failed and the directory is to be excluded.
pub struct SizeOutcome {
    pub directory: String,
    pub size: Option<u64>,
}

impl DeepView for SizeOutcome {
    type V = (Seq<char>, Option<u64>);

    open spec fn deep_view(&self) -> (Seq<char>, Option<u64>) {
        (self.directory.deep_view(), self.size)
    }
}

/// The successfully sized directories among the outcomes, in order.
pub open spec fn successful_sizes(outcomes: Seq<(Seq<char>, Option<u64>)>) -> Seq<(Seq<char>, u64)> {
    outcomes.filter_map(
        |o: (Seq<char>, Option<u64>)|
            match o.1 {
                Some(sz) => Some((o.0, sz)),
                None => None,
            },
    )
}

/// Keeps the directories whose size computation succeeded, in input
/// order, and drops the failed ones.
pub fn collect_sized(outcomes: &Vec<SizeOutcome>) -> (r: Vec<SizedDirectory>)
    ensures
        r.deep_view() == successful_sizes(outcomes.deep_view()),
{
    let ghost model = outcomes.deep_view();
    let n = outcomes.len();
    let mut r: Vec<SizedDirectory> = Vec::new();
    let mut i: usize = 0;
    proof {
        assert(model.take(0) =~= Seq::<(Seq<char>, Option<u64>)>::empty());
        assert(r.deep_view() =~= successful_sizes(model.take(0)));
    }
    while i < n
        invariant
            n == outcomes@.len(),
            model == outcomes.deep_view(),
            i <= n,
            r.deep_view() == successful_sizes(model.take(i as int)),
        decreases n - i,
    {
        let ghost prev = r.deep_view();
        match outcomes[i].size {
            Some(sz) => {
                let entry = SizedDirectory { directory: outcomes[i].directory.clone(), size: sz };
                r.push(entry);
                proof {
                    assert(r.deep_view() =~= prev + seq![(model[i as int].0, sz)]);
                }
            },
            None => {},
        }
        proof {
            model.lemma_filter_map_take_succ(
                |o: (Seq<char>, Option<u64>)|
                    match o.1 {
                        Some(sz) => Some((o.0, sz)),
                        None => None,
                    },
                i as int,
            );
            assert(r.deep_view() =~= successful_sizes(model.take(i + 1)));
        }
        i += 1;
    }
    proof {
        assert(model.take(n as int) =~= model);
    }
    r
}

/// The sequence is ordered from largest to smallest size.
pub open spec fn sorted_descending(s: Seq<SizedDirectory>) -> bool {
    forall|i: int, j: int| 0 <= i < j < s.len() ==> s[i].size >= s[j].size
}

/// `r` ranks `input`: it holds exactly `min(top_n, |input|)` of the input
/// entries, sorted descending by size, and no entry left behind is larger
/// than any entry kept.
pub open spec fn is_top_ranked(
    input: Seq<SizedDirectory>,
    top_n: int,
    r: Seq<SizedDirectory>,
) -> bool {
    &&& r.len() == min(top_n, input.len() as int)
    &&& sorted_descending(r)
    &&& r.to_multiset().subset_of(input.to_multiset())
    &&& forall|x: SizedDirectory, i: int|
        #![trigger input.to_multiset().sub(r.to_multiset()).count(x), r[i]]
        input.to_multiset().sub(r.to_multiset()).count(x) > 0 && 0 <= i < r.len()
            ==> r[i].size >= x.size
}

/// Selects the `top_n` largest entries, sorted descending by size.  With
/// `top_n` of zero the result is empty; with fewer than `top_n` entries
/// every entry is returned.  Among entries of equal size the choice and
/// order are left open.
pub fn rank(sized: Vec<SizedDirectory>, top_n: usize) -> (r: Vec<SizedDirectory>)
    ensures
        is_top_ranked(sized@, top_n as int, r@),
{
    let ghost total = sized@.to_multiset();
    let mut rest = sized;
    let mut out: Vec<SizedDirectory> = Vec::new();
    proof {
        assert(out@.to_multiset().add(rest@.to_multiset()) =~= total);
    }
    while out.len() < top_n && rest.len() > 0
        invariant
            total == sized@.to_multiset(),
            out@.len() + rest@.len() == sized@.len(),
            out@.len() <= top_n,
            out@.to_multiset().add(rest@.to_multiset()) == total,
            sorted_descending(out@),
            forall|a: int, b: int|
                0 <= a < out@.len() && 0 <= b < rest@.len() ==> #[trigger] out@[a].size
                    >= #[trigger] rest@[b].size,
        decreases top_n - out.len(),
    {
        let mut best: usize = 0;
        let mut j: usize = 1;
        while j < rest.len()
            invariant
                0 < rest@.len(),
                best < j,
                j <= rest@.len(),
                forall|k: int| 0 <= k < j ==> rest@[best as int].size >= #[trigger] rest@[k].size,
            decreases rest@.len() - j,
        {
            if rest[j].size > rest[best].size {
                best = j;
            }
            j += 1;
        }
        let ghost old_rest = rest@;
        let ghost old_out = out@;
        let item = rest.remove(best);
        out.push(item);
        proof {
            assert(rest@ == old_rest.remove(best as int));
            assert(out@.to_multiset() =~= old_out.to_multiset().insert(item));
            assert(rest@.to_multiset() =~= old_rest.to_multiset().remove(item));
            assert(old_rest.to_multiset().count(item) > 0);
            assert(out@.to_multiset().add(rest@.to_multiset()) =~= total);
            assert forall|b: int| 0 <= b < rest@.len() implies item.size >= #[trigger] rest@[b].size by {
                if b < best {
                    assert(rest@[b] == old_rest[b]);
                } else {
                    assert(rest@[b] == old_rest[b + 1]);
                }
            }
            assert forall|a: int, b: int|
                0 <= a < out@.len() && 0 <= b < rest@.len() implies #[trigger] out@[a].size
                    >= #[trigger] rest@[b].size by {
                if a < old_out.len() {
                    if b < best {
                        assert(rest@[b] == old_rest[b]);
                    } else {
                        assert(rest@[b] == old_rest[b + 1]);
                    }
                } else {
                    assert(out@[a] == item);
                }
            }
            assert forall|a: int, b: int| 0 <= a < b < out@.len() implies out@[a].size
                >= out@[b].size by {
                if b == out@.len() - 1 {
                    assert(out@[b] == item);
                    assert(old_rest.to_multiset().count(item) > 0);
                    assert(old_out[a].size >= old_rest[best as int].size);
                }
            }
        }
    }
    proof {
        assert(out@.len() == min(top_n as int, sized@.len() as int));
        assert forall|x: SizedDirectory| out@.to_multiset().count(x)
            <= sized@.to_multiset().count(x) by {
            assert(total.count(x) == out@.to_multiset().count(x) + rest@.to_multiset().count(x));
        }
        let remaining = sized@.to_multiset().sub(out@.to_multiset());
        assert(remaining =~= rest@.to_multiset());
        assert forall|x: SizedDirectory, i: int|
            #![trigger remaining.count(x), out@[i]]
            remaining.count(x) > 0 && 0 <= i < out@.len() implies out@[i].size >= x.size by {
            assert(rest@.to_multiset().count(x) > 0);
            assert(rest@.contains(x));
            let b = choose|b: int| 0 <= b < rest@.len() && rest@[b] == x;
            assert(out@[i].size >= rest@[b].size);
        }
    }
    out
}

} // verus!
