//! Ranking the categories by weight.

use crate::binary64::{encodes_nan, order_key, sort_key};
use crate::dhatu::Dhatu;
use crate::vector::DhatuVector;
use vstd::prelude::*;

verus! {

/// Whether the category at position `i` ranks before the one at position `j`:
/// by the greater weight, and among equal weights by the earlier position.
pub open spec fn ranks_before(weights: Seq<u64>, i: int, j: int) -> bool {
    order_key(weights[i]) > order_key(weights[j]) || (order_key(weights[i]) == order_key(
        weights[j],
    ) && i < j)
}

/// Whether a ranking holds the category.
pub open spec fn listed(ranked: Seq<(Dhatu, u64)>, dhatu: Dhatu) -> bool {
    exists|s: int| 0 <= s < ranked.len() && (#[trigger] ranked[s]).0 == dhatu
}

/// Whether `ranked` is the ranking of the first `k` categories by `weights`:
/// it has `k` entries, or nine where `k` is more; each entry pairs a category
/// with its weight; each entry ranks before the entries after it; and each
/// entry ranks before every category that is left out.
pub open spec fn is_ranking(weights: Seq<u64>, k: nat, ranked: Seq<(Dhatu, u64)>) -> bool {
    &&& ranked.len() == if k < 9 { k } else { 9 }
    &&& forall|r: int|
        0 <= r < ranked.len() ==> (#[trigger] ranked[r]).1 == weights[ranked[r].0.spec_index()]
    &&& forall|r: int, s: int|
        0 <= r < s < ranked.len() ==> ranks_before(
            weights,
            (#[trigger] ranked[r]).0.spec_index(),
            (#[trigger] ranked[s]).0.spec_index(),
        )
    &&& forall|r: int, dhatu: Dhatu|
        0 <= r < ranked.len() && !listed(ranked, dhatu) ==> ranks_before(
            weights,
            (#[trigger] ranked[r]).0.spec_index(),
            #[trigger] dhatu.spec_index(),
        )
}

/// Two rankings by the same weights agree at each position.
proof fn lemma_ranking_agrees(
    weights: Seq<u64>,
    k: nat,
    a: Seq<(Dhatu, u64)>,
    b: Seq<(Dhatu, u64)>,
    r: int,
)
    requires
        is_ranking(weights, k, a),
        is_ranking(weights, k, b),
        0 <= r < a.len(),
    ensures
        a[r] == b[r],
    decreases r,
{
    assert forall|s: int| 0 <= s < r implies a[s] == b[s] by {
        lemma_ranking_agrees(weights, k, a, b, s);
    }
    let x = a[r].0;
    let y = b[r].0;
    if x != y {
        assert(ranks_before(weights, y.spec_index(), x.spec_index())) by {
            if listed(b, x) {
                let s = choose|s: int| 0 <= s < b.len() && (#[trigger] b[s]).0 == x;
                if s < r {
                    assert(ranks_before(weights, a[s].0.spec_index(), a[r].0.spec_index()));
                }
            }
        }
        assert(ranks_before(weights, x.spec_index(), y.spec_index())) by {
            if listed(a, y) {
                let s = choose|s: int| 0 <= s < a.len() && (#[trigger] a[s]).0 == y;
                if s < r {
                    assert(ranks_before(weights, b[s].0.spec_index(), b[r].0.spec_index()));
                }
            }
        }
    }
}

/// There is one ranking of the first `k` categories by given weights.
pub proof fn lemma_ranking_unique(
    weights: Seq<u64>,
    k: nat,
    a: Seq<(Dhatu, u64)>,
    b: Seq<(Dhatu, u64)>,
)
    requires
        is_ranking(weights, k, a),
        is_ranking(weights, k, b),
    ensures
        a == b,
{
    assert forall|r: int| 0 <= r < a.len() implies a[r] == b[r] by {
        lemma_ranking_agrees(weights, k, a, b, r);
    }
    assert(a =~= b);
}

/// In a ranking the weights do not increase from one entry to the next, and
/// entries of equal weight stand in declaration order.
pub proof fn lemma_ranking_order(
    weights: Seq<u64>,
    k: nat,
    ranked: Seq<(Dhatu, u64)>,
    r: int,
    s: int,
)
    requires
        is_ranking(weights, k, ranked),
        0 <= r < s < ranked.len(),
    ensures
        order_key(ranked[r].1) >= order_key(ranked[s].1),
        order_key(ranked[r].1) == order_key(ranked[s].1) ==> ranked[r].0.spec_index()
            < ranked[s].0.spec_index(),
{
    assert(ranks_before(weights, ranked[r].0.spec_index(), ranked[s].0.spec_index()));
}

/// How many of nine flags are set.
spec fn count_set(flags: Seq<bool>) -> int {
    one_if(flags[0]) + one_if(flags[1]) + one_if(flags[2]) + one_if(flags[3]) + one_if(flags[4])
        + one_if(flags[5]) + one_if(flags[6]) + one_if(flags[7]) + one_if(flags[8])
}

spec fn one_if(flag: bool) -> int {
    if flag {
        1
    } else {
        0
    }
}

impl DhatuVector {
    /// The first `k` categories by weight, greatest first, each with its
    /// weight; categories of equal weight come in declaration order.
    pub fn top_dhatus(&self, k: usize) -> (ranked: Vec<(Dhatu, u64)>)
        requires
            forall|i: int| 0 <= i < 9 ==> !encodes_nan(#[trigger] self.weights@[i]),
        ensures
            is_ranking(self.weights@, k as nat, ranked@),
    {
        let count: usize = if k < 9 { k } else { 9 };
        let mut ranked: Vec<(Dhatu, u64)> = Vec::new();
        let mut taken: [bool; 9] = [false; 9];
        while ranked.len() < count
            invariant
                ranked.len() <= count <= 9,
                count_set(taken@) == ranked.len(),
                forall|r: int|
                    0 <= r < ranked.len() ==> (#[trigger] ranked@[r]).1
                        == self.weights@[ranked@[r].0.spec_index()],
                forall|i: int|
                    0 <= i < 9 ==> (#[trigger] taken@[i] <==> listed(ranked@, Dhatu::at(i))),
                forall|r: int, s: int|
                    0 <= r < s < ranked.len() ==> ranks_before(
                        self.weights@,
                        (#[trigger] ranked@[r]).0.spec_index(),
                        (#[trigger] ranked@[s]).0.spec_index(),
                    ),
                forall|r: int, i: int|
                    0 <= r < ranked.len() && 0 <= i < 9 && !(#[trigger] taken@[i])
                        ==> ranks_before(self.weights@, (#[trigger] ranked@[r]).0.spec_index(), i),
            decreases count - ranked.len(),
        {
            let mut best: usize = 9;
            let mut i: usize = 0;
            while i < 9
                invariant
                    i <= 9,
                    best <= 9,
                    best == 9 ==> forall|j: int| 0 <= j < i ==> taken@[j],
                    best < 9 ==> best < i && !taken@[best as int] && forall|j: int|
                        0 <= j < i && !taken@[j] && j != best ==> ranks_before(
                            self.weights@,
                            best as int,
                            j,
                        ),
                decreases 9 - i,
            {
                if !taken[i] && (best == 9 || sort_key(self.weights[i]) > sort_key(
                    self.weights[best],
                )) {
                    best = i;
                }
                i = i + 1;
            }
            assert(best < 9);
            let ghost before = ranked@;
            let dhatu = Dhatu::from_index(best);
            ranked.push((dhatu, self.weights[best]));
            taken[best] = true;
            proof {
                assert(ranked@[before.len() as int].0 == dhatu);
                assert forall|i: int| 0 <= i < 9 implies (#[trigger] taken@[i] <==> listed(
                    ranked@,
                    Dhatu::at(i),
                )) by {
                    if i == best {
                        assert(listed(ranked@, Dhatu::at(i)));
                    } else if listed(before, Dhatu::at(i)) {
                        let s = choose|s: int|
                            0 <= s < before.len() && (#[trigger] before[s]).0 == Dhatu::at(i);
                        assert(ranked@[s].0 == Dhatu::at(i));
                    } else if listed(ranked@, Dhatu::at(i)) {
                        let s = choose|s: int|
                            0 <= s < ranked@.len() && (#[trigger] ranked@[s]).0 == Dhatu::at(i);
                        assert(before[s].0 == Dhatu::at(i));
                    }
                }
            }
        }
        proof {
            assert forall|r: int, dhatu: Dhatu|
                0 <= r < ranked@.len() && !listed(ranked@, dhatu) implies ranks_before(
                self.weights@,
                (#[trigger] ranked@[r]).0.spec_index(),
                #[trigger] dhatu.spec_index(),
            ) by {
                assert(Dhatu::at(dhatu.spec_index()) == dhatu);
            }
        }
        ranked
    }
}

} // verus!
