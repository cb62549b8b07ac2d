//! Ranking the candidate plays, best first, and picking the played one out of
//! them.
//!
//! Each candidate comes with an integer key that orders it as its equity does
//! (from the mover's side): a larger key is a better play. Candidates of equal
//! key keep the order in which the move generator produced them.

use vstd::prelude::*;

use crate::board::Play;
use crate::notation::{is_writable, moves_text, notation, played_moves};

verus! {

/// `order` lists each of the indices `0..n` exactly once.
pub open spec fn is_order_of(n: nat, order: Seq<usize>) -> bool {
    &&& order.len() == n
    &&& forall|i: int| 0 <= i < n ==> order[i] < n
    &&& order.no_duplicates()
    &&& forall|j: usize| j < n ==> #[trigger] order.contains(j)
}

/// `order` puts larger keys first and, among equal keys, the earlier index
/// first: the order of a stable sort, best first.
pub open spec fn is_best_first(keys: Seq<i64>, order: Seq<usize>) -> bool {
    &&& forall|i: int, j: int|
        0 <= i < j < order.len() ==> keys[order[i] as int] >= keys[order[j] as int]
    &&& forall|i: int, j: int|
        0 <= i < j < order.len() && keys[order[i] as int] == keys[order[j] as int] ==> order[i]
            < order[j]
}

/// After candidate `k` is inserted at `p` into a best-first order of the
/// candidates before it (those at least as good as `k` ahead of `p`, the
/// others from `p` on), any two positions are distinct, in key order, and in
/// index order among equal keys.
proof fn lemma_pair_after_insert(
    keys: Seq<i64>,
    before: Seq<usize>,
    after: Seq<usize>,
    p: int,
    k: usize,
    i: int,
    j: int,
)
    requires
        0 <= p <= before.len(),
        after == before.insert(p, k),
        forall|x: int| 0 <= x < before.len() ==> before[x] < k,
        before.no_duplicates(),
        is_best_first(keys, before),
        k < keys.len(),
        forall|x: int| 0 <= x < before.len() ==> before[x] < keys.len(),
        forall|x: int| 0 <= x < p ==> keys[before[x] as int] >= keys[k as int],
        forall|x: int| p <= x < before.len() ==> keys[before[x] as int] < keys[k as int],
        0 <= i < j < after.len(),
    ensures
        after[i] != after[j],
        keys[after[i] as int] >= keys[after[j] as int],
        keys[after[i] as int] == keys[after[j] as int] ==> after[i] < after[j],
{
    if i < p && j < p {
        assert(after[i] == before[i] && after[j] == before[j]);
    } else if i < p && j == p {
        assert(after[i] == before[i]);
    } else if i < p && j > p {
        assert(after[i] == before[i] && after[j] == before[j - 1]);
    } else if i == p {
        assert(after[j] == before[j - 1]);
    } else {
        assert(after[i] == before[i - 1] && after[j] == before[j - 1]);
    }
}

/// The candidates' indices, best first: larger keys first, ties in the order
/// the candidates came in.
pub fn best_first(keys: &Vec<i64>) -> (order: Vec<usize>)
    ensures
        is_order_of(keys.len() as nat, order@),
        is_best_first(keys@, order@),
        order.len() == keys.len(),
        forall|i: int, j: int|
            0 <= i < j < order.len() ==> keys[order[i] as int] >= keys[order[j] as int],
        forall|i: int, j: int|
            0 <= i < j < order.len() && keys[order[i] as int] == keys[order[j] as int] ==> order[i]
                < order[j],
        forall|c: usize| c < keys.len() ==> #[trigger] order@.contains(c),
{
    let n = keys.len();
    let mut order: Vec<usize> = Vec::new();
    let mut k: usize = 0;
    while k < n
        invariant
            k <= n,
            n == keys.len(),
            is_order_of(k as nat, order@),
            is_best_first(keys@, order@),
        decreases n - k,
    {
        let key = keys[k];
        // Those at least as good as candidate `k` form a prefix.
        let mut p: usize = 0;
        while p < order.len() && keys[order[p]] >= key
            invariant
                p <= order.len(),
                order.len() == k,
                n == keys.len(),
                k < n,
                key == keys@[k as int],
                is_order_of(k as nat, order@),
                forall|i: int| 0 <= i < p ==> keys@[order@[i] as int] >= key,
            decreases order.len() - p,
        {
            p += 1;
        }
        let ghost before = order@;
        proof {
            if p < before.len() {
                assert forall|i: int| p <= i < before.len() implies keys@[before[i] as int]
                    < key by {
                    if i > p {
                        assert(keys@[before[p as int] as int] >= keys@[before[i] as int]);
                    }
                }
            }
        }
        order.insert(p, k);
        proof {
            let after = order@;
            assert(after =~= before.take(p as int).push(k) + before.skip(p as int));
            assert forall|i: int| 0 <= i < k + 1 implies after[i] < k + 1 by {
                if i < p {
                    assert(after[i] == before[i]);
                } else if i > p {
                    assert(after[i] == before[i - 1]);
                }
            }
            assert forall|i: int, j: int| 0 <= i < j < after.len() implies after[i] != after[j]
                && keys@[after[i] as int] >= keys@[after[j] as int] && (keys@[after[i] as int]
                == keys@[after[j] as int] ==> after[i] < after[j]) by {
                lemma_pair_after_insert(keys@, before, after, p as int, k, i, j);
            }
            assert forall|j: usize| j < k + 1 implies #[trigger] after.contains(j) by {
                if j == k {
                    assert(after[p as int] == k);
                } else {
                    assert(before.contains(j));
                    let w = choose|w: int| 0 <= w < before.len() && before[w] == j;
                    if w < p {
                        assert(after[w] == before[w]);
                    } else {
                        assert(after[w + 1] == before[w]);
                    }
                }
            }
        }
        k += 1;
    }
    order
}

/// The best-ranked candidate is at least as good as every candidate, so no
/// play's shortfall against the best is negative.
pub proof fn lemma_first_is_best(keys: Seq<i64>, order: Seq<usize>, j: usize)
    requires
        is_order_of(keys.len(), order),
        is_best_first(keys, order),
        j < keys.len(),
    ensures
        keys[order[0] as int] >= keys[j as int],
{
    assert(order.contains(j));
    let w = choose|w: int| 0 <= w < order.len() && order[w] == j;
    if w > 0 {
        assert(keys[order[0] as int] >= keys[order[w] as int]);
    }
}

proof fn lemma_best_first_unique(keys: Seq<i64>, o1: Seq<usize>, o2: Seq<usize>)
    requires
        o1.no_duplicates(),
        o2.no_duplicates(),
        forall|x: usize| o1.contains(x) <==> o2.contains(x),
        is_best_first(keys, o1),
        is_best_first(keys, o2),
    ensures
        o1 == o2,
    decreases o1.len(),
{
    if o1.len() == 0 {
        if o2.len() > 0 {
            assert(o2.contains(o2[0]));
        }
        assert(o1 =~= o2);
    } else {
        assert(o1.contains(o1[0]));
        assert(o2.len() > 0);
        assert(o2.contains(o2[0]));
        if o1[0] != o2[0] {
            let w = choose|w: int| 0 <= w < o2.len() && o2[w] == o1[0];
            let v = choose|v: int| 0 <= v < o1.len() && o1[v] == o2[0];
            assert(w > 0 && v > 0);
            assert(keys[o2[0] as int] >= keys[o1[0] as int]);
            assert(keys[o1[0] as int] >= keys[o2[0] as int]);
            assert(o2[0] < o1[0]);
            assert(o1[0] < o2[0]);
        }
        let t1 = o1.drop_first();
        let t2 = o2.drop_first();
        assert forall|x: usize| t1.contains(x) <==> t2.contains(x) by {
            if t1.contains(x) {
                let a = choose|a: int| 0 <= a < t1.len() && t1[a] == x;
                assert(o1[a + 1] == x);
                assert(o2.contains(x));
                let b = choose|b: int| 0 <= b < o2.len() && o2[b] == x;
                assert(b != 0);
                assert(t2[b - 1] == x);
            }
            if t2.contains(x) {
                let a = choose|a: int| 0 <= a < t2.len() && t2[a] == x;
                assert(o2[a + 1] == x);
                assert(o1.contains(x));
                let b = choose|b: int| 0 <= b < o1.len() && o1[b] == x;
                assert(b != 0);
                assert(t1[b - 1] == x);
            }
        }
        assert(t1.no_duplicates());
        assert(t2.no_duplicates());
        assert(is_best_first(keys, t1)) by {
            assert forall|i: int, j: int| 0 <= i < j < t1.len() implies keys[t1[i] as int]
                >= keys[t1[j] as int] by {
                assert(t1[i] == o1[i + 1] && t1[j] == o1[j + 1]);
            }
            assert forall|i: int, j: int|
                0 <= i < j < t1.len() && keys[t1[i] as int] == keys[t1[j] as int] implies t1[i]
                < t1[j] by {
                assert(t1[i] == o1[i + 1] && t1[j] == o1[j + 1]);
            }
        }
        assert(is_best_first(keys, t2)) by {
            assert forall|i: int, j: int| 0 <= i < j < t2.len() implies keys[t2[i] as int]
                >= keys[t2[j] as int] by {
                assert(t2[i] == o2[i + 1] && t2[j] == o2[j + 1]);
            }
            assert forall|i: int, j: int|
                0 <= i < j < t2.len() && keys[t2[i] as int] == keys[t2[j] as int] implies t2[i]
                < t2[j] by {
                assert(t2[i] == o2[i + 1] && t2[j] == o2[j + 1]);
            }
        }
        lemma_best_first_unique(keys, t1, t2);
        assert(o1 =~= seq![o1[0]] + t1);
        assert(o2 =~= seq![o2[0]] + t2);
    }
}

/// The keys decide the ranking: there is exactly one best-first order of the
/// candidates, ties included, so the same candidates are always ranked alike.
pub proof fn lemma_ranking_determined(keys: Seq<i64>, o1: Seq<usize>, o2: Seq<usize>)
    requires
        is_order_of(keys.len(), o1),
        is_best_first(keys, o1),
        is_order_of(keys.len(), o2),
        is_best_first(keys, o2),
    ensures
        o1 == o2,
{
    assert forall|x: usize| o1.contains(x) <==> o2.contains(x) by {
        if o1.contains(x) {
            let a = choose|a: int| 0 <= a < o1.len() && o1[a] == x;
            assert(x < keys.len());
        }
        if o2.contains(x) {
            let a = choose|a: int| 0 <= a < o2.len() && o2[a] == x;
            assert(x < keys.len());
        }
    }
    lemma_best_first_unique(keys, o1, o2);
}

/// A candidate play at its place in the ranking.
pub struct RankedPlay {
    /// The candidate's index in the order the move generator produced them.
    pub index: usize,
    /// 1 for the best play.
    pub rank: i32,
    /// The play in standard notation.
    pub move_notation: String,
}

/// The candidates' indices in the order of a ranking.
pub open spec fn ranked_indices(ranked: Seq<RankedPlay>) -> Seq<usize> {
    ranked.map_values(|r: RankedPlay| r.index)
}

/// `ranked` ranks the first `keys.len()` of `plays` best first, numbers them
/// from 1 and writes each one's notation.
pub open spec fn is_ranking_of(plays: Seq<Play>, keys: Seq<i64>, ranked: Seq<RankedPlay>) -> bool {
    &&& is_order_of(keys.len(), ranked_indices(ranked))
    &&& is_best_first(keys, ranked_indices(ranked))
    &&& forall|i: int|
        #![trigger ranked[i]]
        0 <= i < ranked.len() ==> {
            &&& ranked[i].rank == i + 1
            &&& ranked[i].move_notation@ == moves_text(played_moves(plays[ranked[i].index as int]))
        }
}

/// Ranks the candidates: `keys[i]` orders `plays[i]` (larger is better), and
/// the result lists them best first with their rank and notation.
pub fn rank_plays(plays: &Vec<Play>, keys: &Vec<i64>) -> (ranked: Vec<RankedPlay>)
    requires
        keys.len() <= plays.len(),
        keys.len() < i32::MAX,
        forall|i: int| 0 <= i < keys.len() ==> is_writable(#[trigger] plays@[i]),
    ensures
        is_ranking_of(plays@, keys@, ranked@),
        ranked.len() == keys.len(),
        forall|i: int| 0 <= i < ranked.len() ==> (#[trigger] ranked@[i]).rank == i + 1,
        forall|i: int, j: int|
            0 <= i < j < ranked.len() ==> keys[ranked@[i].index as int] >= keys[ranked@[
                j
            ].index as int],
{
    let order = best_first(keys);
    let mut ranked: Vec<RankedPlay> = Vec::new();
    let mut i: usize = 0;
    while i < order.len()
        invariant
            i <= order.len(),
            order.len() == keys.len(),
            keys.len() <= plays.len(),
            keys.len() < i32::MAX,
            forall|j: int| 0 <= j < keys.len() ==> is_writable(#[trigger] plays@[j]),
            is_order_of(keys.len() as nat, order@),
            ranked.len() == i,
            forall|j: int| 0 <= j < i ==> (#[trigger] ranked@[j]).index == order@[j],
            forall|j: int|
                #![trigger ranked@[j]]
                0 <= j < i ==> {
                    &&& ranked@[j].rank == j + 1
                    &&& ranked@[j].move_notation@ == moves_text(
                        played_moves(plays@[ranked@[j].index as int]),
                    )
                },
        decreases order.len() - i,
    {
        let index = order[i];
        let text = notation(&plays[index]);
        ranked.push(RankedPlay { index, rank: (i + 1) as i32, move_notation: text });
        i += 1;
    }
    assert(ranked_indices(ranked@) =~= order@);
    ranked
}

/// Which of the ranked alternatives is the played one and which the best,
/// as positions in the ranking.
pub struct Analysis {
    pub played: usize,
    pub best: usize,
}

/// Position `i` is the first alternative written `text`.
pub open spec fn is_first_written(ranked: Seq<RankedPlay>, text: Seq<char>, i: int) -> bool {
    &&& 0 <= i < ranked.len()
    &&& ranked[i].move_notation@ == text
    &&& forall|j: int| 0 <= j < i ==> (#[trigger] ranked[j]).move_notation@ != text
}

/// Some alternative is written `text`.
pub open spec fn is_listed(ranked: Seq<RankedPlay>, text: Seq<char>) -> bool {
    exists|j: int| 0 <= j < ranked.len() && (#[trigger] ranked[j]).move_notation@ == text
}

/// Picks out the played alternative, falling back to the best when the host
/// did not name one (or named one this engine did not generate). `None` when
/// there is no alternative at all.
pub fn analysis_for(alternatives: &Vec<RankedPlay>, played: Option<&str>) -> (analysis: Option<
    Analysis,
>)
    ensures
        analysis is None <==> alternatives.len() == 0,
        analysis matches Some(a) ==> {
            &&& a.best == 0
            &&& match played {
                Some(text) => if is_listed(alternatives@, text@) {
                    is_first_written(alternatives@, text@, a.played as int)
                } else {
                    a.played == 0
                },
                None => a.played == 0,
            }
        },
        analysis matches Some(a) ==> a.played < alternatives.len() && a.best == 0,
        analysis matches Some(a) ==> (played matches Some(text) ==> (forall|j: int|
            0 <= j < a.played ==> (#[trigger] alternatives@[j]).move_notation@ != text@)),
        analysis matches Some(a) ==> (played matches Some(text) ==> ((exists|j: int|
            0 <= j < alternatives.len() && (#[trigger] alternatives@[j]).move_notation@ == text@)
            ==> alternatives@[a.played as int].move_notation@ == text@)),
        analysis matches Some(a) ==> (played matches Some(text) ==> (!(exists|j: int|
            0 <= j < alternatives.len() && (#[trigger] alternatives@[j]).move_notation@ == text@)
            ==> a.played == 0)),
        analysis matches Some(a) ==> (played is None ==> a.played == 0),
        analysis matches Some(a) ==> (played matches Some(text) ==> (a.played > 0
            ==> alternatives@[a.played as int].move_notation@ == text@)),
{
    if alternatives.len() == 0 {
        return None;
    }
    let played_index = match played {
        None => 0,
        Some(text) => {
            let wanted = text.to_owned();
            let mut i: usize = 0;
            let mut found: Option<usize> = None;
            while found.is_none() && i < alternatives.len()
                invariant
                    i <= alternatives.len(),
                    wanted@ == text@,
                    found matches Some(f) ==> is_first_written(alternatives@, text@, f as int),
                    found is None ==> forall|j: int|
                        0 <= j < i ==> (#[trigger] alternatives@[j]).move_notation@ != text@,
                decreases alternatives.len() - i + if found is None { 1int } else { 0int },
            {
                if alternatives[i].move_notation == wanted {
                    found = Some(i);
                } else {
                    i += 1;
                }
            }
            match found {
                Some(f) => f,
                None => 0,
            }
        },
    };
    Some(Analysis { played: played_index, best: 0 })
}

} // verus!
