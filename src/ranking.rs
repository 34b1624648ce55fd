use vstd::prelude::*;
use vstd::set_lib::*;

verus! {

/// Row `a` ranks ahead of row `b`: a higher score, or an equal score and a lower index.
/// This is a strict total order on row indices, so a ranking is deterministic and stable.
pub open spec fn ranks_ahead(scores: Seq<i64>, a: int, b: int) -> bool {
    scores[a] > scores[b] || (scores[a] == scores[b] && a < b)
}

/// Row `c` may be returned as a neighbour of row `i`: it exists, it is eligible, and it is not `i`.
pub open spec fn is_candidate(eligible: Seq<bool>, i: int, c: int) -> bool {
    0 <= c < eligible.len() && eligible[c] && c != i
}

/// Every row that may be returned as a neighbour of row `i`.
pub open spec fn candidates(eligible: Seq<bool>, i: int) -> Set<usize> {
    Set::new(|c: usize| is_candidate(eligible, i, c as int))
}

pub open spec fn min_int(a: int, b: int) -> int {
    if a <= b {
        a
    } else {
        b
    }
}

/// `r` is the list of the `k` best candidates for row `i`, best first: as many as there are
/// candidates up to `k`, ordered by rank, and every candidate left out ranks behind each one kept.
pub open spec fn is_top_k(scores: Seq<i64>, eligible: Seq<bool>, i: int, k: int, r: Seq<usize>) -> bool {
    &&& r.len() == min_int(k, candidates(eligible, i).len() as int)
    &&& forall|p: int| 0 <= p < r.len() ==> is_candidate(eligible, i, #[trigger] r[p] as int)
    &&& forall|p: int, q: int|
        0 <= p < q < r.len() ==> ranks_ahead(scores, #[trigger] r[p] as int, #[trigger] r[q] as int)
    &&& forall|c: usize, p: int|
        #![trigger is_candidate(eligible, i, c as int), r[p]]
        is_candidate(eligible, i, c as int) && !r.contains(c) && 0 <= p < r.len() ==> ranks_ahead(
            scores,
            r[p] as int,
            c as int,
        )
}

fn ahead(scores: &Vec<i64>, a: usize, b: usize) -> (r: bool)
    requires
        a < scores@.len(),
        b < scores@.len(),
    ensures
        r == ranks_ahead(scores@, a as int, b as int),
{
    scores[a] > scores[b] || (scores[a] == scores[b] && a < b)
}

proof fn lemma_candidates_finite(eligible: Seq<bool>, i: int)
    ensures
        candidates(eligible, i).finite(),
{
    let all = Seq::new(eligible.len(), |c: int| c as usize);
    assert forall|c: usize| candidates(eligible, i).contains(c) implies all.to_set().contains(c) by {
        assert(all[c as int] == c);
    }
    lemma_len_subset(candidates(eligible, i), all.to_set());
}

/// The `k` rows that rank best by `scores` among those marked in `eligible`, leaving out row
/// `i` itself, best first; fewer when fewer rows qualify.
pub fn top_k(scores: &Vec<i64>, eligible: &Vec<bool>, i: usize, k: usize) -> (r: Vec<usize>)
    requires
        scores@.len() == eligible@.len(),
    ensures
        is_top_k(scores@, eligible@, i as int, k as int, r@),
{
    let n = scores.len();
    let mut out: Vec<usize> = Vec::new();
    let mut done = false;
    while out.len() < k && !done
        invariant
            n == scores@.len() == eligible@.len(),
            out@.len() <= k,
            forall|p: int| 0 <= p < out@.len() ==> is_candidate(eligible@, i as int, #[trigger] out@[p] as int),
            forall|p: int, q: int|
                0 <= p < q < out@.len() ==> ranks_ahead(scores@, #[trigger] out@[p] as int, #[trigger] out@[q] as int),
            forall|c: usize, p: int|
                #![trigger is_candidate(eligible@, i as int, c as int), out@[p]]
                is_candidate(eligible@, i as int, c as int) && !out@.contains(c) && 0 <= p < out@.len()
                    ==> ranks_ahead(scores@, out@[p] as int, c as int),
            done ==> forall|c: usize| #[trigger] is_candidate(eligible@, i as int, c as int) ==> out@.contains(c),
        decreases k - out@.len() + (if done { 0int } else { 1int }),
    {
        let ghost prev = out@;
        let mut best: Option<usize> = None;
        let mut c: usize = 0;
        while c < n
            invariant
                n == scores@.len() == eligible@.len(),
                out@ == prev,
                c <= n,
                forall|p: int| 0 <= p < out@.len() ==> is_candidate(eligible@, i as int, #[trigger] out@[p] as int),
                forall|p: int, q: int|
                    0 <= p < q < out@.len() ==> ranks_ahead(scores@, #[trigger] out@[p] as int, #[trigger] out@[q] as int),
                forall|d: usize, p: int|
                    #![trigger is_candidate(eligible@, i as int, d as int), out@[p]]
                    is_candidate(eligible@, i as int, d as int) && !out@.contains(d) && 0 <= p < out@.len()
                        ==> ranks_ahead(scores@, out@[p] as int, d as int),
                match best {
                    Some(b) => {
                        &&& b < c
                        &&& is_candidate(eligible@, i as int, b as int)
                        &&& !out@.contains(b)
                        &&& forall|d: usize|
                            d < c && #[trigger] is_candidate(eligible@, i as int, d as int) && !out@.contains(d) && d != b
                                ==> ranks_ahead(scores@, b as int, d as int)
                    },
                    None => forall|d: usize|
                        d < c && #[trigger] is_candidate(eligible@, i as int, d as int) ==> out@.contains(d),
                },
            decreases n - c,
        {
            let fresh = out.len() == 0 || ahead(scores, out[out.len() - 1], c);
            proof {
                if is_candidate(eligible@, i as int, c as int) {
                    if out@.len() > 0 {
                        let last = out@.len() - 1;
                        if fresh {
                            if out@.contains(c) {
                                let p = choose|p: int| 0 <= p < out@.len() && out@[p] == c;
                                if p < last {
                                    assert(ranks_ahead(scores@, out@[p] as int, out@[last] as int));
                                }
                            }
                        } else {
                            if !out@.contains(c) {
                                assert(ranks_ahead(scores@, out@[last] as int, c as int));
                            }
                        }
                    }
                    assert(fresh == !out@.contains(c));
                }
            }
            if eligible[c] && c != i && fresh {
                match best {
                    None => {
                        best = Some(c);
                    },
                    Some(b) => {
                        if ahead(scores, c, b) {
                            best = Some(c);
                        }
                    },
                }
            }
            c = c + 1;
        }
        match best {
            None => {
                done = true;
            },
            Some(b) => {
                out.push(b);
                proof {
                    assert(out@[out@.len() - 1] == b);
                    assert forall|d: usize, p: int|
                        #![trigger is_candidate(eligible@, i as int, d as int), out@[p]]
                        is_candidate(eligible@, i as int, d as int) && !out@.contains(d) && 0 <= p < out@.len()
                            implies ranks_ahead(scores@, out@[p] as int, d as int) by {
                        assert(!prev.contains(d)) by {
                            if prev.contains(d) {
                                let q = choose|q: int| 0 <= q < prev.len() && prev[q] == d;
                                assert(out@[q] == d);
                            }
                        }
                        if p < prev.len() {
                            assert(out@[p] == prev[p]);
                        }
                    }
                    assert forall|p: int, q: int|
                        0 <= p < q < out@.len() implies ranks_ahead(scores@, #[trigger] out@[p] as int, #[trigger] out@[q] as int) by {
                        if q < prev.len() {
                            assert(out@[p] == prev[p]);
                            assert(out@[q] == prev[q]);
                        } else {
                            assert(out@[p] == prev[p]);
                        }
                    }
                }
            },
        }
    }
    proof {
        let cand = candidates(eligible@, i as int);
        lemma_candidates_finite(eligible@, i as int);
        assert(out@.no_duplicates()) by {
            assert forall|p: int, q: int| 0 <= p < out@.len() && 0 <= q < out@.len() && p != q implies out@[p] != out@[q] by {
                if p < q {
                    assert(ranks_ahead(scores@, out@[p] as int, out@[q] as int));
                } else {
                    assert(ranks_ahead(scores@, out@[q] as int, out@[p] as int));
                }
            }
        }
        out@.unique_seq_to_set();
        assert(out@.to_set().subset_of(cand)) by {
            assert forall|c: usize| out@.to_set().contains(c) implies cand.contains(c) by {
                let p = choose|p: int| 0 <= p < out@.len() && out@[p] == c;
                assert(is_candidate(eligible@, i as int, out@[p] as int));
            }
        }
        lemma_len_subset(out@.to_set(), cand);
        if done {
            assert(cand =~= out@.to_set());
        }
    }
    out
}

} // verus!
