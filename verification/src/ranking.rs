//! Internal ranking of the workspace: evidence grade picks the band; fit,
//! corroborating seeds, negative evidence and total order rows inside it;
//! the TMDB id breaks the last ties.
use vstd::prelude::*;
use std::cmp::Ordering;
use crate::score::{loved_rec_seeds, unique_loved_rec_seeds, ScoredCandidate};

verus! {

/// The TMDB id used for ordering; rows without one sort last.
pub open spec fn order_id(c: &ScoredCandidate) -> int {
    match c.candidate.tmdb_id {
        Some(id) => id as int,
        None => i64::MAX as int,
    }
}

/// Sign of the ranking comparison: -1 when `a` ranks before `b`, 1 when
/// after, 0 when they tie on every component. Higher grade, fit, seed count,
/// negative-evidence component and total come first; then the lower TMDB id.
pub open spec fn rank_sign(a: &ScoredCandidate, b: &ScoredCandidate) -> int {
    let ga = a.eligibility.evidence_grade.rank_spec();
    let gb = b.eligibility.evidence_grade.rank_spec();
    let fa = a.eligibility.candidate_fit;
    let fb = b.eligibility.candidate_fit;
    let sa = loved_rec_seeds(a);
    let sb = loved_rec_seeds(b);
    let na = a.score.negative_evidence;
    let nb = b.score.negative_evidence;
    let ta = a.score.total;
    let tb = b.score.total;
    if ga != gb {
        if gb < ga {
            -1
        } else {
            1
        }
    } else if fa != fb {
        if fb < fa {
            -1
        } else {
            1
        }
    } else if sa != sb {
        if sb < sa {
            -1
        } else {
            1
        }
    } else if na != nb {
        if nb < na {
            -1
        } else {
            1
        }
    } else if ta != tb {
        if tb < ta {
            -1
        } else {
            1
        }
    } else if order_id(a) != order_id(b) {
        if order_id(a) < order_id(b) {
            -1
        } else {
            1
        }
    } else {
        0
    }
}

/// The ranking comparison as -1 / 0 / 1.
pub fn rank_sign_of(a: &ScoredCandidate, b: &ScoredCandidate) -> (r: i8)
    ensures
        r as int == rank_sign(a, b),
{
    let ga = a.eligibility.evidence_grade.rank();
    let gb = b.eligibility.evidence_grade.rank();
    if ga != gb {
        return if gb < ga {
            -1
        } else {
            1
        };
    }
    let fa = a.eligibility.candidate_fit;
    let fb = b.eligibility.candidate_fit;
    if fa != fb {
        return if fb < fa {
            -1
        } else {
            1
        };
    }
    let sa = unique_loved_rec_seeds(a);
    let sb = unique_loved_rec_seeds(b);
    if sa != sb {
        return if sb < sa {
            -1
        } else {
            1
        };
    }
    let na = a.score.negative_evidence;
    let nb = b.score.negative_evidence;
    if na != nb {
        return if nb < na {
            -1
        } else {
            1
        };
    }
    let ta = a.score.total;
    let tb = b.score.total;
    if ta != tb {
        return if tb < ta {
            -1
        } else {
            1
        };
    }
    let ia = match a.candidate.tmdb_id {
        Some(id) => id,
        None => i64::MAX,
    };
    let ib = match b.candidate.tmdb_id {
        Some(id) => id,
        None => i64::MAX,
    };
    if ia < ib {
        -1
    } else if ia > ib {
        1
    } else {
        0
    }
}

/// The ranking comparison of two rows.
pub fn rank_order(a: &ScoredCandidate, b: &ScoredCandidate) -> (o: Ordering)
    ensures
        (o == Ordering::Less) == (rank_sign(a, b) == -1),
        (o == Ordering::Equal) == (rank_sign(a, b) == 0),
        (o == Ordering::Greater) == (rank_sign(a, b) == 1),
{
    let r = rank_sign_of(a, b);
    if r < 0 {
        Ordering::Less
    } else if r > 0 {
        Ordering::Greater
    } else {
        Ordering::Equal
    }
}

/// Swapping the rows flips the comparison.
pub proof fn lemma_rank_antisymmetric(a: &ScoredCandidate, b: &ScoredCandidate)
    ensures
        rank_sign(a, b) == -rank_sign(b, a),
{
}

/// "Ranks no later than" is transitive.
pub proof fn lemma_rank_transitive(a: &ScoredCandidate, b: &ScoredCandidate, c: &ScoredCandidate)
    requires
        rank_sign(a, b) <= 0,
        rank_sign(b, c) <= 0,
    ensures
        rank_sign(a, c) <= 0,
{
}

/// Every row ties with itself.
pub proof fn lemma_rank_reflexive(a: &ScoredCandidate)
    ensures
        rank_sign(a, a) == 0,
{
}

/// The rows are in ranking order.
pub open spec fn ranked(s: Seq<ScoredCandidate>) -> bool {
    forall|i: int, j: int| 0 <= i < j < s.len() ==> rank_sign(&s[i], &s[j]) <= 0
}

/// `perm` places the rows of `old` in `new`: row `k` of `new` is row
/// `perm[k]` of `old`, each row used once, and rows that rank equal keep
/// their old relative order.
pub open spec fn stable_placement(old: Seq<ScoredCandidate>, new: Seq<ScoredCandidate>, perm: Seq<int>) -> bool {
    &&& perm.len() == new.len() == old.len()
    &&& forall|k: int| 0 <= k < perm.len() ==> 0 <= #[trigger] perm[k] < old.len() && new[k] == old[perm[k]]
    &&& forall|i: int, j: int| 0 <= i < j < perm.len() ==> perm[i] != perm[j]
    &&& forall|i: int, j: int|
        0 <= i < j < perm.len() && rank_sign(&new[i], &new[j]) == 0 ==> perm[i] < perm[j]
}

/// Sorts the workspace into ranking order, keeping every row; rows that
/// rank equal keep their old relative order (a stable sort).
pub fn sort_workspace(rows: &mut Vec<ScoredCandidate>)
    ensures
        final(rows)@.to_multiset() == old(rows)@.to_multiset(),
        ranked(final(rows)@),
        exists|perm: Seq<int>| stable_placement(old(rows)@, final(rows)@, perm),
        forall|i: int, j: int| 0 <= i < j < final(rows)@.len() ==> final(rows)@[i].eligibility.evidence_grade.rank_spec()
            >= final(rows)@[j].eligibility.evidence_grade.rank_spec(),
{
    broadcast use vstd::seq_lib::group_to_multiset_ensures, vstd::multiset::group_multiset_axioms;

    let mut src: Vec<ScoredCandidate> = Vec::new();
    std::mem::swap(&mut src, rows);
    let ghost orig = src@;
    let ghost n = orig.len();
    let ghost mut idx: Seq<int> = Seq::empty();
    assert(rows@ =~= Seq::<ScoredCandidate>::empty());
    assert(rows@.to_multiset() =~= vstd::multiset::Multiset::empty());
    assert(src@.to_multiset().add(rows@.to_multiset()) =~= orig.to_multiset());
    assert(src@ =~= orig.take(n as int));
    while src.len() > 0
        invariant
            src@.to_multiset().add(rows@.to_multiset()) == orig.to_multiset(),
            ranked(rows@),
            n == orig.len(),
            src@ == orig.take(src@.len() as int),
            src@.len() <= n,
            idx.len() == rows@.len(),
            rows@.len() + src@.len() == n,
            forall|k: int| 0 <= k < idx.len() ==> src@.len() <= #[trigger] idx[k] < n && rows@[k] == orig[idx[k]],
            forall|i: int, j: int| 0 <= i < j < idx.len() ==> idx[i] != idx[j],
            forall|i: int, j: int|
                0 <= i < j < idx.len() && rank_sign(&rows@[i], &rows@[j]) == 0 ==> idx[i] < idx[j],
        decreases src.len(),
    {
        let ghost before_src = src@;
        let ghost m = (src@.len() - 1) as int;
        let x = src.pop().unwrap();
        assert(before_src =~= src@.push(x));
        assert(x == orig[m]);
        assert(src@ =~= orig.take(src@.len() as int));
        let mut p: usize = 0;
        while p < rows.len() && rank_sign_of(&x, &rows[p]) > 0
            invariant
                p <= rows.len(),
                forall|k: int| 0 <= k < p ==> rank_sign(&x, &rows@[k]) == 1,
            decreases rows.len() - p,
        {
            p += 1;
        }
        let ghost before = rows@;
        let ghost bidx = idx;
        rows.insert(p, x);
        assert(rows@ =~= before.insert(p as int, x));
        proof {
            idx = bidx.insert(p as int, m);
            vstd::seq_lib::to_multiset_build(src@, x);
            vstd::seq_lib::to_multiset_insert(before, p as int, x);
        }
        assert(before_src.to_multiset() =~= src@.to_multiset().insert(x));
        assert(rows@.to_multiset() =~= before.to_multiset().insert(x));
        assert(src@.to_multiset().add(rows@.to_multiset()) =~= before_src.to_multiset().add(
            before.to_multiset(),
        ));
        assert forall|k: int| 0 <= k < idx.len() implies src@.len() <= #[trigger] idx[k] < n && rows@[k] == orig[idx[k]] by {
            if k < p {
                assert(idx[k] == bidx[k] && rows@[k] == before[k]);
            } else if k > p {
                assert(idx[k] == bidx[k - 1] && rows@[k] == before[k - 1]);
            }
        }
        assert forall|i: int, j: int| 0 <= i < j < idx.len() implies idx[i] != idx[j] by {
            if i < p && j < p {
                assert(idx[i] == bidx[i] && idx[j] == bidx[j]);
            } else if i < p && j > p {
                assert(idx[i] == bidx[i] && idx[j] == bidx[j - 1]);
            } else if i > p {
                assert(idx[i] == bidx[i - 1] && idx[j] == bidx[j - 1]);
            } else if i == p {
                assert(idx[j] == bidx[j - 1]);
            } else {
                assert(idx[i] == bidx[i]);
            }
        }
        assert forall|i: int, j: int|
            0 <= i < j < idx.len() && rank_sign(&rows@[i], &rows@[j]) == 0 implies idx[i] < idx[j] by {
            if j < p {
                assert(idx[i] == bidx[i] && idx[j] == bidx[j]);
                assert(rows@[i] == before[i] && rows@[j] == before[j]);
            } else if j == p {
                assert(rows@[i] == before[i]);
                lemma_rank_antisymmetric(&x, &before[i]);
            } else if i == p {
                assert(idx[j] == bidx[j - 1]);
            } else if i < p {
                assert(idx[i] == bidx[i] && idx[j] == bidx[j - 1]);
                assert(rows@[i] == before[i] && rows@[j] == before[j - 1]);
            } else {
                assert(idx[i] == bidx[i - 1] && idx[j] == bidx[j - 1]);
                assert(rows@[i] == before[i - 1] && rows@[j] == before[j - 1]);
            }
        }
        assert forall|i: int, j: int| 0 <= i < j < rows@.len() implies rank_sign(
            &rows@[i],
            &rows@[j],
        ) <= 0 by {
            if j < p {
                assert(rows@[i] == before[i] && rows@[j] == before[j]);
            } else if j == p {
                assert(rows@[i] == before[i]);
                lemma_rank_antisymmetric(&x, &before[i]);
            } else if i == p {
                assert(rows@[j] == before[j - 1]);
                assert(rank_sign(&x, &before[p as int]) <= 0);
                if j - 1 > p {
                    lemma_rank_transitive(&x, &before[p as int], &before[j - 1]);
                }
            } else if i < p {
                assert(rows@[i] == before[i] && rows@[j] == before[j - 1]);
            } else {
                assert(rows@[i] == before[i - 1] && rows@[j] == before[j - 1]);
            }
        }
    }
    assert(src@ =~= Seq::<ScoredCandidate>::empty());
    assert(src@.to_multiset() =~= vstd::multiset::Multiset::empty());
    assert(rows@.to_multiset() =~= orig.to_multiset());
    assert(stable_placement(orig, rows@, idx));
    proof {
        lemma_ranked_grades_fall(rows@);
    }
}


/// The higher evidence grade ranks first, whatever the other components.
pub proof fn lemma_grade_ranks_first(a: &ScoredCandidate, b: &ScoredCandidate)
    requires
        a.eligibility.evidence_grade.rank_spec() > b.eligibility.evidence_grade.rank_spec(),
    ensures
        rank_sign(a, b) == -1,
        rank_sign(b, a) == 1,
{
}

/// Within one grade, the higher candidate fit ranks first.
pub proof fn lemma_fit_ranks_first(a: &ScoredCandidate, b: &ScoredCandidate)
    requires
        a.eligibility.evidence_grade.rank_spec() == b.eligibility.evidence_grade.rank_spec(),
        a.eligibility.candidate_fit > b.eligibility.candidate_fit,
    ensures
        rank_sign(a, b) == -1,
        rank_sign(b, a) == 1,
{
}

/// Within one grade and fit, more loved seeds rank first.
pub proof fn lemma_seeds_rank_first(a: &ScoredCandidate, b: &ScoredCandidate)
    requires
        a.eligibility.evidence_grade.rank_spec() == b.eligibility.evidence_grade.rank_spec(),
        a.eligibility.candidate_fit == b.eligibility.candidate_fit,
        loved_rec_seeds(a) > loved_rec_seeds(b),
    ensures
        rank_sign(a, b) == -1,
        rank_sign(b, a) == 1,
{
}

/// Then the higher negative-evidence component, then the higher total.
pub proof fn lemma_negative_then_total_rank_first(a: &ScoredCandidate, b: &ScoredCandidate)
    requires
        a.eligibility.evidence_grade.rank_spec() == b.eligibility.evidence_grade.rank_spec(),
        a.eligibility.candidate_fit == b.eligibility.candidate_fit,
        loved_rec_seeds(a) == loved_rec_seeds(b),
        a.score.negative_evidence > b.score.negative_evidence || (a.score.negative_evidence
            == b.score.negative_evidence && a.score.total > b.score.total),
    ensures
        rank_sign(a, b) == -1,
        rank_sign(b, a) == 1,
{
}

/// Rows equal in every ranked component are ordered by TMDB id, lower
/// first; a row without an id sorts as the largest id.
pub proof fn lemma_id_breaks_ties(a: &ScoredCandidate, b: &ScoredCandidate)
    requires
        a.eligibility.evidence_grade.rank_spec() == b.eligibility.evidence_grade.rank_spec(),
        a.eligibility.candidate_fit == b.eligibility.candidate_fit,
        loved_rec_seeds(a) == loved_rec_seeds(b),
        a.score.negative_evidence == b.score.negative_evidence,
        a.score.total == b.score.total,
        a.candidate.tmdb_id is Some,
        match b.candidate.tmdb_id {
            Some(y) => a.candidate.tmdb_id->0 < y,
            None => a.candidate.tmdb_id->0 < i64::MAX,
        },
    ensures
        rank_sign(a, b) == -1,
        rank_sign(b, a) == 1,
{
}

/// In ranking order, evidence grades never rise, and within a grade the
/// candidate fit never rises.
pub proof fn lemma_ranked_grades_fall(s: Seq<ScoredCandidate>)
    requires
        ranked(s),
    ensures
        forall|i: int, j: int| 0 <= i < j < s.len() ==> s[i].eligibility.evidence_grade.rank_spec() >= s[j].eligibility.evidence_grade.rank_spec(),
        forall|i: int, j: int| 0 <= i < j < s.len() && s[i].eligibility.evidence_grade.rank_spec() == s[j].eligibility.evidence_grade.rank_spec()
            ==> s[i].eligibility.candidate_fit >= s[j].eligibility.candidate_fit,
{
    assert forall|i: int, j: int| 0 <= i < j < s.len() implies s[i].eligibility.evidence_grade.rank_spec() >= s[j].eligibility.evidence_grade.rank_spec() by {
        assert(rank_sign(&s[i], &s[j]) <= 0);
    }
    assert forall|i: int, j: int| 0 <= i < j < s.len() && s[i].eligibility.evidence_grade.rank_spec() == s[j].eligibility.evidence_grade.rank_spec()
        implies s[i].eligibility.candidate_fit >= s[j].eligibility.candidate_fit by {
        assert(rank_sign(&s[i], &s[j]) <= 0);
    }
}

} // verus!
