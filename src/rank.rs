//! Ordering scored candidates, best first.
use vstd::prelude::*;
use crate::score::MatchResult;

verus! {

impl MatchResult {
    /// The weighted sum that ranks a result: the identifier rate weighs most,
    /// then the position rate, the original-strand rate and the plus-strand
    /// rate. The rate of ambiguous alleles does not count.
    pub open spec fn priority_spec(&self) -> int {
        4000 * self.name_match_rate + 3000 * self.name_pos_match_rate + 2000
            * self.strand_match_rate + self.plus_match_rate
    }

    /// Executable form of `priority_spec`.
    pub fn priority(&self) -> (r: u128)
        ensures
            r == self.priority_spec(),
    {
        4000 * (self.name_match_rate as u128) + 3000 * (self.name_pos_match_rate as u128) + 2000
            * (self.strand_match_rate as u128) + self.plus_match_rate as u128
    }

    /// A copy of this result.
    pub fn duplicate(&self) -> (r: MatchResult)
        ensures
            r == *self,
    {
        MatchResult {
            name: self.name.clone(),
            name_match_rate: self.name_match_rate,
            name_pos_match_rate: self.name_pos_match_rate,
            strand_match_rate: self.strand_match_rate,
            plus_match_rate: self.plus_match_rate,
            atcg_match_rate: self.atcg_match_rate,
        }
    }
}

/// Result `i` of `rs` ranks before result `j`: its priority is higher, or the
/// two are equal and `i` came first.
pub open spec fn precedes(rs: Seq<MatchResult>, i: int, j: int) -> bool {
    rs[i].priority_spec() > rs[j].priority_spec() || (rs[i].priority_spec()
        == rs[j].priority_spec() && i < j)
}

/// `order` lists every index of `rs` once, best first.
pub open spec fn is_ranking(rs: Seq<MatchResult>, order: Seq<int>) -> bool {
    &&& order.len() == rs.len()
    &&& forall|i: int| 0 <= i < order.len() ==> 0 <= #[trigger] order[i] < rs.len()
    &&& forall|i: int, j: int|
        0 <= i < j < order.len() ==> precedes(rs, #[trigger] order[i], #[trigger] order[j])
}

/// The indices of `results` in ranked order: by descending priority, and in
/// the given order among equal priorities.
pub fn rank_order(results: &Vec<MatchResult>) -> (order: Vec<usize>)
    ensures
        is_ranking(results@, order@.map_values(|k: usize| k as int)),
{
    let mut out: Vec<usize> = Vec::new();
    let mut k: usize = 0;
    while k < results.len()
        invariant
            k <= results.len(),
            out.len() == k,
            forall|i: int| 0 <= i < out.len() ==> #[trigger] out@[i] < k,
            forall|i: int, j: int|
                0 <= i < j < out.len() ==> precedes(
                    results@,
                    #[trigger] out@[i] as int,
                    #[trigger] out@[j] as int,
                ),
        decreases results.len() - k,
    {
        let pk = results[k].priority();
        let mut p: usize = 0;
        while p < out.len() && results[out[p]].priority() >= pk
            invariant
                k < results.len(),
                p <= out.len() == k,
                forall|i: int| 0 <= i < out.len() ==> #[trigger] out@[i] < k,
                pk == results@[k as int].priority_spec(),
                forall|i: int| 0 <= i < p ==> precedes(results@, #[trigger] out@[i] as int, k as int),
            decreases out.len() - p,
        {
            p = p + 1;
        }
        let ghost before = out@;
        out.insert(p, k);
        assert forall|i: int, j: int| 0 <= i < j < out.len() implies precedes(
            results@,
            #[trigger] out@[i] as int,
            #[trigger] out@[j] as int,
        ) by {
            if j == p {
                assert(out@[i] == before[i]);
            } else if i == p {
                assert(out@[j] == before[j - 1]);
                assert(precedes(results@, k as int, before[p as int] as int));
                if j - 1 > p {
                    assert(precedes(results@, before[p as int] as int, before[j - 1] as int));
                }
            } else {
                let bi = if i < p { i } else { i - 1 };
                let bj = if j < p { j } else { j - 1 };
                assert(out@[i] == before[bi] && out@[j] == before[bj]);
            }
        }
        k = k + 1;
    }
    assert(out@.map_values(|k: usize| k as int).len() == out.len());
    out
}

/// `results` in ranked order: by descending priority, and in the given order
/// among equal priorities.
pub fn ranked(results: &Vec<MatchResult>) -> (r: Vec<MatchResult>)
    ensures
        exists|order: Seq<int>|
            is_ranking(results@, order) && r@ == order.map_values(|k: int| results@[k]),
{
    let order = rank_order(results);
    let ghost ord = order@.map_values(|k: usize| k as int);
    let mut out: Vec<MatchResult> = Vec::new();
    let mut i: usize = 0;
    while i < order.len()
        invariant
            i <= order.len(),
            is_ranking(results@, ord),
            ord == order@.map_values(|k: usize| k as int),
            out@ == ord.take(i as int).map_values(|k: int| results@[k]),
        decreases order.len() - i,
    {
        assert(ord[i as int] == order@[i as int] as int);
        out.push(results[order[i]].duplicate());
        assert(out@ =~= ord.take(i + 1).map_values(|k: int| results@[k]));
        i = i + 1;
    }
    assert(ord.take(order.len() as int) =~= ord);
    out
}

} // verus!
