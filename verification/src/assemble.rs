//! Assembling a taste profile from its affinities: the evidence films each
//! affinity cites, the order of the affinities, the polarizing features
//! and the recent shifts.
//!
//! Means, weights, confidences and deltas are in thousandths.
use vstd::prelude::*;
use crate::explain::{opt_lt, seq_less, seq_lt};
use crate::dimensions::{SHIFT_LONG_N, SHIFT_RECENT_N};
use crate::features::{
    storage_key_of, EvidenceFilm, FeatureAffinity, FeatureKey, FeatureProfile, PolarizingFeature,
    RecentShift, RECENT_YEARS,
};
use crate::text::seq_eq;
use crate::text::chars_of;
use crate::profile::{
    char_views, copy_evidence_film, holds_chars, obs_id, observation_id, same_evidence,
    FeatureObservation,
};

verus! {

/// Evidence films an affinity keeps on each side.
pub const EVIDENCE_CAP: usize = 6;

/// The liked (`positive`) or disliked side of an observation.
pub open spec fn side(o: FeatureObservation, positive: bool) -> int {
    if positive {
        o.positive as int
    } else {
        o.negative as int
    }
}

/// Whether an earlier observation on that side cites the film `id`.
pub open spec fn seen_before(g: Seq<FeatureObservation>, positive: bool, id: Seq<char>) -> bool {
    exists|j: int| 0 <= j < g.len() && side(g[j], positive) > 0 && obs_id(g[j]) == id
}

/// The observations whose films an affinity cites on one side: in order,
/// each the first on that side to cite its film, at most six.
pub open spec fn cited_evidence(g: Seq<FeatureObservation>, positive: bool) -> Seq<int>
    decreases g.len(),
{
    if g.len() == 0 {
        Seq::empty()
    } else {
        let r = cited_evidence(g.drop_last(), positive);
        let o = g.last();
        if side(o, positive) > 0 && !seen_before(g.drop_last(), positive, obs_id(o)) && r.len()
            < EVIDENCE_CAP {
            r.push(g.len() - 1)
        } else {
            r
        }
    }
}

/// `out` holds the evidence films of the observations `idx` of `g`.
pub open spec fn evidence_at(out: Seq<EvidenceFilm>, g: Seq<FeatureObservation>, idx: Seq<int>) -> bool {
    &&& out.len() == idx.len()
    &&& forall|k: int| 0 <= k < idx.len() ==> same_evidence(#[trigger] out[k], g[idx[k]].evidence)
}

proof fn lemma_cited_in_range(g: Seq<FeatureObservation>, positive: bool)
    ensures
        cited_evidence(g, positive).len() <= EVIDENCE_CAP,
        forall|k: int| 0 <= k < cited_evidence(g, positive).len() ==> 0 <= #[trigger] cited_evidence(g, positive)[k] < g.len(),
    decreases g.len(),
{
    if g.len() > 0 {
        lemma_cited_in_range(g.drop_last(), positive);
    }
}

fn cited_side(group: &[FeatureObservation], positive: bool) -> (out: Vec<EvidenceFilm>)
    ensures
        evidence_at(out@, group@, cited_evidence(group@, positive)),
{
    let mut seen: Vec<Vec<char>> = Vec::new();
    let mut out: Vec<EvidenceFilm> = Vec::new();
    let mut i: usize = 0;
    while i < group.len()
        invariant
            i <= group.len(),
            forall|id: Seq<char>| #[trigger] char_views(seen@).contains(id) == seen_before(group@.take(i as int), positive, id),
            evidence_at(out@, group@, cited_evidence(group@.take(i as int), positive)),
        decreases group.len() - i,
    {
        let o = &group[i];
        let ghost pre = group@.take(i as int);
        let ghost nxt = group@.take(i + 1);
        assert(nxt.drop_last() =~= pre);
        assert(nxt.last() == group@[i as int]);
        proof {
            lemma_cited_in_range(pre, positive);
        }
        let ghost before_seen = char_views(seen@);
        let ghost before_out = out@;
        let s: i32 = if positive { o.positive } else { o.negative };
        if s > 0 {
            let id = observation_id(o);
            let fresh = !holds_chars(&seen, &id);
            if fresh && out.len() < EVIDENCE_CAP {
                out.push(copy_evidence_film(&o.evidence));
                assert forall|k: int| 0 <= k < cited_evidence(nxt, positive).len() implies same_evidence(
                    #[trigger] out@[k],
                    group@[cited_evidence(nxt, positive)[k]].evidence,
                ) by {
                    if k < before_out.len() {
                        assert(out@[k] == before_out[k]);
                    }
                }
            }
            seen.push(id);
            assert(char_views(seen@) =~= before_seen.push(obs_id(*o)));
            assert forall|x: Seq<char>| #[trigger] char_views(seen@).contains(x) == seen_before(nxt, positive, x) by {
                if x == obs_id(*o) {
                    assert(char_views(seen@)[before_seen.len() as int] == x);
                    assert(nxt[i as int] == *o);
                } else {
                    if char_views(seen@).contains(x) {
                        let j = choose|j: int| 0 <= j < char_views(seen@).len() && char_views(seen@)[j] == x;
                        assert(before_seen[j] == x);
                        assert(before_seen.contains(x));
                        let w = choose|w: int| 0 <= w < pre.len() && side(pre[w], positive) > 0 && obs_id(pre[w]) == x;
                        assert(nxt[w] == pre[w]);
                    }
                    if seen_before(nxt, positive, x) {
                        let w = choose|w: int| 0 <= w < nxt.len() && side(nxt[w], positive) > 0 && obs_id(nxt[w]) == x;
                        assert(w < pre.len());
                        assert(pre[w] == nxt[w]);
                        assert(seen_before(pre, positive, x));
                        assert(before_seen.contains(x));
                        let j = choose|j: int| 0 <= j < before_seen.len() && before_seen[j] == x;
                        assert(char_views(seen@)[j] == x);
                    }
                }
            }
        } else {
            assert forall|x: Seq<char>| #[trigger] char_views(seen@).contains(x) == seen_before(nxt, positive, x) by {
                if seen_before(nxt, positive, x) {
                    let w = choose|w: int| 0 <= w < nxt.len() && side(nxt[w], positive) > 0 && obs_id(nxt[w]) == x;
                    assert(w < pre.len());
                    assert(pre[w] == nxt[w]);
                }
                if seen_before(pre, positive, x) {
                    let w = choose|w: int| 0 <= w < pre.len() && side(pre[w], positive) > 0 && obs_id(pre[w]) == x;
                    assert(nxt[w] == pre[w]);
                }
            }
        }
        i += 1;
    }
    assert(group@.take(group.len() as int) =~= group@);
    out
}

/// The liked and disliked evidence films of one feature's observations:
/// on each side, the films of the observations on that side, each film
/// once (its first observation), at most six.
pub fn evidence_lists(group: &[FeatureObservation]) -> (r: (Vec<EvidenceFilm>, Vec<EvidenceFilm>))
    ensures
        evidence_at(r.0@, group@, cited_evidence(group@, true)),
        evidence_at(r.1@, group@, cited_evidence(group@, false)),
{
    (cited_side(group, true), cited_side(group, false))
}


/// Polarizing features a profile lists.
pub const POLARIZING_CAP: usize = 12;

/// The two evidence lists hold the same films, in order.
pub open spec fn same_films(a: Seq<EvidenceFilm>, b: Seq<EvidenceFilm>) -> bool {
    &&& a.len() == b.len()
    &&& forall|k: int| 0 <= k < a.len() ==> same_evidence(#[trigger] a[k], b[k])
}

fn copy_films(v: &Vec<EvidenceFilm>) -> (out: Vec<EvidenceFilm>)
    ensures
        same_films(out@, v@),
{
    let mut out: Vec<EvidenceFilm> = Vec::new();
    let mut i: usize = 0;
    while i < v.len()
        invariant
            i <= v.len(),
            same_films(out@, v@.take(i as int)),
        decreases v.len() - i,
    {
        out.push(copy_evidence_film(&v[i]));
        i += 1;
    }
    assert(v@.take(v.len() as int) =~= v@);
    out
}

/// The affinities a profile lists as polarizing: the first twelve that are.
pub open spec fn polarizing_picks(s: Seq<FeatureAffinity>) -> Seq<int>
    decreases s.len(),
{
    if s.len() == 0 {
        Seq::empty()
    } else {
        let r = polarizing_picks(s.drop_last());
        if s.last().polarizing_spec() && r.len() < POLARIZING_CAP {
            r.push(s.len() - 1)
        } else {
            r
        }
    }
}

/// `p` lists the affinity `a` as a polarizing feature.
pub open spec fn polarizing_of(p: PolarizingFeature, a: FeatureAffinity) -> bool {
    &&& p.feature@ == a.key.name@
    &&& p.family == a.key.family
    &&& p.id == a.key.id
    &&& p.confidence == a.confidence
    &&& p.affinity == a.weighted_mean
    &&& p.variance == a.weighted_variance
    &&& same_films(p.positive_evidence@, a.positive_evidence@)
    &&& same_films(p.negative_evidence@, a.negative_evidence@)
}

proof fn lemma_picks_in_range(s: Seq<FeatureAffinity>)
    ensures
        polarizing_picks(s).len() <= POLARIZING_CAP,
        forall|k: int| 0 <= k < polarizing_picks(s).len() ==> 0 <= #[trigger] polarizing_picks(s)[k] < s.len(),
    decreases s.len(),
{
    if s.len() > 0 {
        lemma_picks_in_range(s.drop_last());
    }
}

/// The polarizing features of the (ordered) affinities: the first twelve
/// affinities with high variance and evidence on both sides.
pub fn polarizing_features(affinities: &[FeatureAffinity]) -> (out: Vec<PolarizingFeature>)
    ensures
        out@.len() == polarizing_picks(affinities@).len(),
        forall|k: int| 0 <= k < out@.len() ==> polarizing_of(#[trigger] out@[k], affinities@[polarizing_picks(affinities@)[k]]),
{
    let mut out: Vec<PolarizingFeature> = Vec::new();
    let mut i: usize = 0;
    while i < affinities.len()
        invariant
            i <= affinities.len(),
            out@.len() == polarizing_picks(affinities@.take(i as int)).len(),
            forall|k: int| 0 <= k < out@.len() ==> polarizing_of(#[trigger] out@[k], affinities@[polarizing_picks(affinities@.take(i as int))[k]]),
        decreases affinities.len() - i,
    {
        let ghost pre = affinities@.take(i as int);
        let ghost nxt = affinities@.take(i + 1);
        assert(nxt.drop_last() =~= pre);
        proof {
            lemma_picks_in_range(pre);
        }
        let a = &affinities[i];
        if a.polarizing() && out.len() < POLARIZING_CAP {
            let ghost before = out@;
            out.push(PolarizingFeature {
                feature: a.key.name.clone(),
                family: a.key.family,
                id: a.key.id,
                confidence: a.confidence,
                affinity: a.weighted_mean,
                variance: a.weighted_variance,
                positive_evidence: copy_films(&a.positive_evidence),
                negative_evidence: copy_films(&a.negative_evidence),
            });
            assert forall|k: int| 0 <= k < out@.len() implies polarizing_of(#[trigger] out@[k], affinities@[polarizing_picks(nxt)[k]]) by {
                if k < before.len() {
                    assert(out@[k] == before[k]);
                }
            }
        }
        i += 1;
    }
    assert(affinities@.take(affinities.len() as int) =~= affinities@);
    out
}


// ---------------------------------------------------------------------------
// Ordering
// ---------------------------------------------------------------------------

/// No text sorts before itself.
pub proof fn lemma_seq_lt_irreflexive(a: Seq<char>)
    ensures
        !seq_lt(a, a),
    decreases a.len(),
{
    if a.len() > 0 {
        lemma_seq_lt_irreflexive(a.drop_first());
    }
}

/// Two texts never sort before each other.
pub proof fn lemma_seq_lt_asymmetric(a: Seq<char>, b: Seq<char>)
    ensures
        !(seq_lt(a, b) && seq_lt(b, a)),
    decreases a.len(),
{
    if a.len() > 0 && b.len() > 0 && a[0] == b[0] {
        lemma_seq_lt_asymmetric(a.drop_first(), b.drop_first());
    }
}

/// Of two different texts, one sorts before the other.
pub proof fn lemma_seq_lt_total(a: Seq<char>, b: Seq<char>)
    ensures
        a != b ==> seq_lt(a, b) || seq_lt(b, a),
    decreases a.len(),
{
    if a.len() == 0 && b.len() == 0 {
        assert(a =~= b);
    } else if a.len() > 0 && b.len() > 0 && a[0] == b[0] {
        lemma_seq_lt_total(a.drop_first(), b.drop_first());
        if a.drop_first() == b.drop_first() {
            assert(a.len() == a.drop_first().len() + 1 && b.len() == b.drop_first().len() + 1);
            assert forall|k: int| 0 <= k < a.len() implies a[k] == b[k] by {
                if k > 0 {
                    assert(a[k] == a.drop_first()[k - 1]);
                    assert(b[k] == b.drop_first()[k - 1]);
                }
            }
            assert(a =~= b);
        }
    }
}

/// Sorting before is transitive.
pub proof fn lemma_seq_lt_transitive(a: Seq<char>, b: Seq<char>, c: Seq<char>)
    requires
        seq_lt(a, b),
        seq_lt(b, c),
    ensures
        seq_lt(a, c),
    decreases a.len(),
{
    if a.len() > 0 && b.len() > 0 && c.len() > 0 && a[0] == b[0] && b[0] == c[0] {
        lemma_seq_lt_transitive(a.drop_first(), b.drop_first(), c.drop_first());
    }
}

/// A sort key: a primary rank (lower first), the family's position, the
/// name and the id.
pub type SortKey = (int, int, Seq<char>, Option<i64>);

/// Comparison of two sort keys as -1 / 0 / 1: by rank, then family, then
/// name, then id (`None` first).
pub open spec fn key_sign(x: SortKey, y: SortKey) -> int {
    if x.0 != y.0 {
        if x.0 < y.0 {
            -1
        } else {
            1
        }
    } else if x.1 != y.1 {
        if x.1 < y.1 {
            -1
        } else {
            1
        }
    } else if seq_lt(x.2, y.2) {
        -1
    } else if seq_lt(y.2, x.2) {
        1
    } else if opt_lt(x.3, y.3) {
        -1
    } else if opt_lt(y.3, x.3) {
        1
    } else {
        0
    }
}

/// Swapping two keys flips their comparison.
pub proof fn lemma_key_antisymmetric(x: SortKey, y: SortKey)
    ensures
        key_sign(x, y) == -key_sign(y, x),
{
    lemma_seq_lt_asymmetric(x.2, y.2);
}

/// "Sorts no later than" is transitive.
pub proof fn lemma_key_transitive(x: SortKey, y: SortKey, z: SortKey)
    requires
        key_sign(x, y) <= 0,
        key_sign(y, z) <= 0,
    ensures
        key_sign(x, z) <= 0,
{
    lemma_seq_lt_total(x.2, y.2);
    lemma_seq_lt_total(y.2, z.2);
    lemma_seq_lt_total(x.2, z.2);
    lemma_seq_lt_asymmetric(x.2, y.2);
    lemma_seq_lt_asymmetric(y.2, z.2);
    lemma_seq_lt_asymmetric(x.2, z.2);
    lemma_seq_lt_irreflexive(x.2);
    if seq_lt(x.2, y.2) && seq_lt(y.2, z.2) {
        lemma_seq_lt_transitive(x.2, y.2, z.2);
    }
    if seq_lt(z.2, x.2) && seq_lt(x.2, y.2) {
        lemma_seq_lt_transitive(z.2, x.2, y.2);
    }
    if seq_lt(y.2, z.2) && seq_lt(z.2, x.2) {
        lemma_seq_lt_transitive(y.2, z.2, x.2);
    }
}

fn name_sign(a: &String, b: &String) -> (r: i8)
    ensures
        r == (if seq_lt(a@, b@) {
            -1int
        } else if seq_lt(b@, a@) {
            1int
        } else {
            0int
        }),
{
    let ca = chars_of(a.as_str());
    let cb = chars_of(b.as_str());
    if seq_less(&ca, &cb) {
        -1
    } else if seq_less(&cb, &ca) {
        1
    } else {
        0
    }
}

fn id_sign(a: Option<i64>, b: Option<i64>) -> (r: i8)
    ensures
        r == (if opt_lt(a, b) {
            -1int
        } else if opt_lt(b, a) {
            1int
        } else {
            0int
        }),
{
    match (a, b) {
        (None, Some(_)) => -1,
        (Some(_), None) => 1,
        (Some(x), Some(y)) => if x < y {
            -1
        } else if y < x {
            1
        } else {
            0
        },
        (None, None) => 0,
    }
}

/// An affinity's sort key: higher scoring affinity first, then family
/// order, then name, then id.
pub open spec fn affinity_key(a: FeatureAffinity) -> SortKey {
    (-a.scoring_affinity_spec(), a.key.family.sort_key_spec() as int, a.key.name@, a.key.id)
}

/// A shift's sort key: larger change first, then family order, then name.
pub open spec fn shift_key(s: RecentShift) -> SortKey {
    (-abs_milli(s.delta as int), s.family.sort_key_spec() as int, s.feature@, None)
}

pub open spec fn abs_milli(x: int) -> int {
    if x < 0 {
        -x
    } else {
        x
    }
}

fn affinity_sign(a: &FeatureAffinity, b: &FeatureAffinity) -> (r: i8)
    ensures
        r as int == key_sign(affinity_key(*a), affinity_key(*b)),
{
    let sa = a.scoring_affinity();
    let sb = b.scoring_affinity();
    if sa != sb {
        return if sa > sb {
            -1
        } else {
            1
        };
    }
    let fa = a.key.family.sort_key();
    let fb = b.key.family.sort_key();
    if fa != fb {
        return if fa < fb {
            -1
        } else {
            1
        };
    }
    let n = name_sign(&a.key.name, &b.key.name);
    if n != 0 {
        return n;
    }
    id_sign(a.key.id, b.key.id)
}

fn shift_sign(a: &RecentShift, b: &RecentShift) -> (r: i8)
    ensures
        r as int == key_sign(shift_key(*a), shift_key(*b)),
{
    let da: i64 = if a.delta < 0 { -(a.delta as i64) } else { a.delta as i64 };
    let db: i64 = if b.delta < 0 { -(b.delta as i64) } else { b.delta as i64 };
    if da != db {
        return if da > db {
            -1
        } else {
            1
        };
    }
    let fa = a.family.sort_key();
    let fb = b.family.sort_key();
    if fa != fb {
        return if fa < fb {
            -1
        } else {
            1
        };
    }
    name_sign(&a.feature, &b.feature)
}

/// The FeatureAffinitys are in sort order.
pub open spec fn affinity_sorted(s: Seq<FeatureAffinity>) -> bool {
    forall|i: int, j: int| 0 <= i < j < s.len() ==> key_sign(affinity_key(s[i]), affinity_key(s[j])) <= 0
}

/// `perm` places the FeatureAffinitys of `old` in `new`: entry `k` of `new` is entry
/// `perm[k]` of `old`, each used once, and entries with equal keys keep
/// their old relative order.
pub open spec fn affinity_placement(old: Seq<FeatureAffinity>, new: Seq<FeatureAffinity>, perm: Seq<int>) -> bool {
    &&& perm.len() == new.len() == old.len()
    &&& forall|k: int| 0 <= k < perm.len() ==> 0 <= #[trigger] perm[k] < old.len() && new[k] == old[perm[k]]
    &&& forall|i: int, j: int| 0 <= i < j < perm.len() ==> perm[i] != perm[j]
    &&& forall|i: int, j: int|
        0 <= i < j < perm.len() && key_sign(affinity_key(new[i]), affinity_key(new[j])) == 0 ==> perm[i] < perm[j]
}

/// Sorts the FeatureAffinitys by their keys, keeping every entry; entries with equal
/// keys keep their old relative order (a stable sort).
pub fn sort_affinities(rows: &mut Vec<FeatureAffinity>)
    ensures
        final(rows)@.to_multiset() == old(rows)@.to_multiset(),
        affinity_sorted(final(rows)@),
        exists|perm: Seq<int>| affinity_placement(old(rows)@, final(rows)@, perm),
        forall|i: int, j: int| 0 <= i < j < final(rows)@.len() ==> (#[trigger] final(rows)@[i]).scoring_affinity_spec()
            >= (#[trigger] final(rows)@[j]).scoring_affinity_spec(),
{
    broadcast use vstd::seq_lib::group_to_multiset_ensures, vstd::multiset::group_multiset_axioms;

    let mut src: Vec<FeatureAffinity> = Vec::new();
    std::mem::swap(&mut src, rows);
    let ghost orig = src@;
    let ghost n = orig.len();
    let ghost mut idx: Seq<int> = Seq::empty();
    assert(rows@ =~= Seq::<FeatureAffinity>::empty());
    assert(rows@.to_multiset() =~= vstd::multiset::Multiset::empty());
    assert(src@.to_multiset().add(rows@.to_multiset()) =~= orig.to_multiset());
    assert(src@ =~= orig.take(n as int));
    while src.len() > 0
        invariant
            src@.to_multiset().add(rows@.to_multiset()) == orig.to_multiset(),
            affinity_sorted(rows@),
            n == orig.len(),
            src@ == orig.take(src@.len() as int),
            src@.len() <= n,
            idx.len() == rows@.len(),
            rows@.len() + src@.len() == n,
            forall|k: int| 0 <= k < idx.len() ==> src@.len() <= #[trigger] idx[k] < n && rows@[k] == orig[idx[k]],
            forall|i: int, j: int| 0 <= i < j < idx.len() ==> idx[i] != idx[j],
            forall|i: int, j: int|
                0 <= i < j < idx.len() && key_sign(affinity_key(rows@[i]), affinity_key(rows@[j])) == 0 ==> idx[i] < idx[j],
        decreases src.len(),
    {
        let ghost before_src = src@;
        let ghost m = (src@.len() - 1) as int;
        let x = src.pop().unwrap();
        assert(before_src =~= src@.push(x));
        assert(x == orig[m]);
        assert(src@ =~= orig.take(src@.len() as int));
        let mut p: usize = 0;
        while p < rows.len() && affinity_sign(&x, &rows[p]) > 0
            invariant
                p <= rows.len(),
                forall|k: int| 0 <= k < p ==> key_sign(affinity_key(x), affinity_key(rows@[k])) == 1,
            decreases rows.len() - p,
        {
            p += 1;
        }
        let ghost before = rows@;
        let ghost bidx = idx;
        rows.insert(p, x);
        assert(rows@ =~= before.insert(p as int, x));
        proof {
            idx = bidx.insert(p as int, m);
            vstd::seq_lib::to_multiset_build(src@, x);
            vstd::seq_lib::to_multiset_insert(before, p as int, x);
        }
        assert(before_src.to_multiset() =~= src@.to_multiset().insert(x));
        assert(rows@.to_multiset() =~= before.to_multiset().insert(x));
        assert(src@.to_multiset().add(rows@.to_multiset()) =~= before_src.to_multiset().add(
            before.to_multiset(),
        ));
        assert forall|k: int| 0 <= k < idx.len() implies src@.len() <= #[trigger] idx[k] < n && rows@[k] == orig[idx[k]] by {
            if k < p {
                assert(idx[k] == bidx[k] && rows@[k] == before[k]);
            } else if k > p {
                assert(idx[k] == bidx[k - 1] && rows@[k] == before[k - 1]);
            }
        }
        assert forall|i: int, j: int| 0 <= i < j < idx.len() implies idx[i] != idx[j] by {
            if i < p && j < p {
                assert(idx[i] == bidx[i] && idx[j] == bidx[j]);
            } else if i < p && j > p {
                assert(idx[i] == bidx[i] && idx[j] == bidx[j - 1]);
            } else if i > p {
                assert(idx[i] == bidx[i - 1] && idx[j] == bidx[j - 1]);
            } else if i == p {
                assert(idx[j] == bidx[j - 1]);
            } else {
                assert(idx[i] == bidx[i]);
            }
        }
        assert forall|i: int, j: int|
            0 <= i < j < idx.len() && key_sign(affinity_key(rows@[i]), affinity_key(rows@[j])) == 0 implies idx[i] < idx[j] by {
            if j < p {
                assert(idx[i] == bidx[i] && idx[j] == bidx[j]);
                assert(rows@[i] == before[i] && rows@[j] == before[j]);
            } else if j == p {
                assert(rows@[i] == before[i]);
                lemma_key_antisymmetric(affinity_key(x), affinity_key(before[i]));
            } else if i == p {
                assert(idx[j] == bidx[j - 1]);
            } else if i < p {
                assert(idx[i] == bidx[i] && idx[j] == bidx[j - 1]);
                assert(rows@[i] == before[i] && rows@[j] == before[j - 1]);
            } else {
                assert(idx[i] == bidx[i - 1] && idx[j] == bidx[j - 1]);
                assert(rows@[i] == before[i - 1] && rows@[j] == before[j - 1]);
            }
        }
        assert forall|i: int, j: int| 0 <= i < j < rows@.len() implies key_sign(
            affinity_key(rows@[i]),
            affinity_key(rows@[j]),
        ) <= 0 by {
            if j < p {
                assert(rows@[i] == before[i] && rows@[j] == before[j]);
            } else if j == p {
                assert(rows@[i] == before[i]);
                lemma_key_antisymmetric(affinity_key(x), affinity_key(before[i]));
            } else if i == p {
                assert(rows@[j] == before[j - 1]);
                assert(key_sign(affinity_key(x), affinity_key(before[p as int])) <= 0);
                if j - 1 > p {
                    lemma_key_transitive(affinity_key(x), affinity_key(before[p as int]), affinity_key(before[j - 1]));
                }
            } else if i < p {
                assert(rows@[i] == before[i] && rows@[j] == before[j - 1]);
            } else {
                assert(rows@[i] == before[i - 1] && rows@[j] == before[j - 1]);
            }
        }
    }
    assert(src@ =~= Seq::<FeatureAffinity>::empty());
    assert(src@.to_multiset() =~= vstd::multiset::Multiset::empty());
    assert(rows@.to_multiset() =~= orig.to_multiset());
    assert(affinity_placement(orig, rows@, idx));
    proof {
        lemma_sorted_affinities_by_score(rows@);
    }
}

/// The RecentShifts are in sort order.
pub open spec fn shift_sorted(s: Seq<RecentShift>) -> bool {
    forall|i: int, j: int| 0 <= i < j < s.len() ==> key_sign(shift_key(s[i]), shift_key(s[j])) <= 0
}

/// `perm` places the RecentShifts of `old` in `new`: entry `k` of `new` is entry
/// `perm[k]` of `old`, each used once, and entries with equal keys keep
/// their old relative order.
pub open spec fn shift_placement(old: Seq<RecentShift>, new: Seq<RecentShift>, perm: Seq<int>) -> bool {
    &&& perm.len() == new.len() == old.len()
    &&& forall|k: int| 0 <= k < perm.len() ==> 0 <= #[trigger] perm[k] < old.len() && new[k] == old[perm[k]]
    &&& forall|i: int, j: int| 0 <= i < j < perm.len() ==> perm[i] != perm[j]
    &&& forall|i: int, j: int|
        0 <= i < j < perm.len() && key_sign(shift_key(new[i]), shift_key(new[j])) == 0 ==> perm[i] < perm[j]
}

/// Sorts the RecentShifts by their keys, keeping every entry; entries with equal
/// keys keep their old relative order (a stable sort).
pub fn sort_shifts(rows: &mut Vec<RecentShift>)
    ensures
        final(rows)@.to_multiset() == old(rows)@.to_multiset(),
        shift_sorted(final(rows)@),
        exists|perm: Seq<int>| shift_placement(old(rows)@, final(rows)@, perm),
        forall|i: int, j: int| 0 <= i < j < final(rows)@.len() ==> change_size(#[trigger] final(rows)@[i])
            >= change_size(#[trigger] final(rows)@[j]),
{
    broadcast use vstd::seq_lib::group_to_multiset_ensures, vstd::multiset::group_multiset_axioms;

    let mut src: Vec<RecentShift> = Vec::new();
    std::mem::swap(&mut src, rows);
    let ghost orig = src@;
    let ghost n = orig.len();
    let ghost mut idx: Seq<int> = Seq::empty();
    assert(rows@ =~= Seq::<RecentShift>::empty());
    assert(rows@.to_multiset() =~= vstd::multiset::Multiset::empty());
    assert(src@.to_multiset().add(rows@.to_multiset()) =~= orig.to_multiset());
    assert(src@ =~= orig.take(n as int));
    while src.len() > 0
        invariant
            src@.to_multiset().add(rows@.to_multiset()) == orig.to_multiset(),
            shift_sorted(rows@),
            n == orig.len(),
            src@ == orig.take(src@.len() as int),
            src@.len() <= n,
            idx.len() == rows@.len(),
            rows@.len() + src@.len() == n,
            forall|k: int| 0 <= k < idx.len() ==> src@.len() <= #[trigger] idx[k] < n && rows@[k] == orig[idx[k]],
            forall|i: int, j: int| 0 <= i < j < idx.len() ==> idx[i] != idx[j],
            forall|i: int, j: int|
                0 <= i < j < idx.len() && key_sign(shift_key(rows@[i]), shift_key(rows@[j])) == 0 ==> idx[i] < idx[j],
        decreases src.len(),
    {
        let ghost before_src = src@;
        let ghost m = (src@.len() - 1) as int;
        let x = src.pop().unwrap();
        assert(before_src =~= src@.push(x));
        assert(x == orig[m]);
        assert(src@ =~= orig.take(src@.len() as int));
        let mut p: usize = 0;
        while p < rows.len() && shift_sign(&x, &rows[p]) > 0
            invariant
                p <= rows.len(),
                forall|k: int| 0 <= k < p ==> key_sign(shift_key(x), shift_key(rows@[k])) == 1,
            decreases rows.len() - p,
        {
            p += 1;
        }
        let ghost before = rows@;
        let ghost bidx = idx;
        rows.insert(p, x);
        assert(rows@ =~= before.insert(p as int, x));
        proof {
            idx = bidx.insert(p as int, m);
            vstd::seq_lib::to_multiset_build(src@, x);
            vstd::seq_lib::to_multiset_insert(before, p as int, x);
        }
        assert(before_src.to_multiset() =~= src@.to_multiset().insert(x));
        assert(rows@.to_multiset() =~= before.to_multiset().insert(x));
        assert(src@.to_multiset().add(rows@.to_multiset()) =~= before_src.to_multiset().add(
            before.to_multiset(),
        ));
        assert forall|k: int| 0 <= k < idx.len() implies src@.len() <= #[trigger] idx[k] < n && rows@[k] == orig[idx[k]] by {
            if k < p {
                assert(idx[k] == bidx[k] && rows@[k] == before[k]);
            } else if k > p {
                assert(idx[k] == bidx[k - 1] && rows@[k] == before[k - 1]);
            }
        }
        assert forall|i: int, j: int| 0 <= i < j < idx.len() implies idx[i] != idx[j] by {
            if i < p && j < p {
                assert(idx[i] == bidx[i] && idx[j] == bidx[j]);
            } else if i < p && j > p {
                assert(idx[i] == bidx[i] && idx[j] == bidx[j - 1]);
            } else if i > p {
                assert(idx[i] == bidx[i - 1] && idx[j] == bidx[j - 1]);
            } else if i == p {
                assert(idx[j] == bidx[j - 1]);
            } else {
                assert(idx[i] == bidx[i]);
            }
        }
        assert forall|i: int, j: int|
            0 <= i < j < idx.len() && key_sign(shift_key(rows@[i]), shift_key(rows@[j])) == 0 implies idx[i] < idx[j] by {
            if j < p {
                assert(idx[i] == bidx[i] && idx[j] == bidx[j]);
                assert(rows@[i] == before[i] && rows@[j] == before[j]);
            } else if j == p {
                assert(rows@[i] == before[i]);
                lemma_key_antisymmetric(shift_key(x), shift_key(before[i]));
            } else if i == p {
                assert(idx[j] == bidx[j - 1]);
            } else if i < p {
                assert(idx[i] == bidx[i] && idx[j] == bidx[j - 1]);
                assert(rows@[i] == before[i] && rows@[j] == before[j - 1]);
            } else {
                assert(idx[i] == bidx[i - 1] && idx[j] == bidx[j - 1]);
                assert(rows@[i] == before[i - 1] && rows@[j] == before[j - 1]);
            }
        }
        assert forall|i: int, j: int| 0 <= i < j < rows@.len() implies key_sign(
            shift_key(rows@[i]),
            shift_key(rows@[j]),
        ) <= 0 by {
            if j < p {
                assert(rows@[i] == before[i] && rows@[j] == before[j]);
            } else if j == p {
                assert(rows@[i] == before[i]);
                lemma_key_antisymmetric(shift_key(x), shift_key(before[i]));
            } else if i == p {
                assert(rows@[j] == before[j - 1]);
                assert(key_sign(shift_key(x), shift_key(before[p as int])) <= 0);
                if j - 1 > p {
                    lemma_key_transitive(shift_key(x), shift_key(before[p as int]), shift_key(before[j - 1]));
                }
            } else if i < p {
                assert(rows@[i] == before[i] && rows@[j] == before[j - 1]);
            } else {
                assert(rows@[i] == before[i - 1] && rows@[j] == before[j - 1]);
            }
        }
    }
    assert(src@ =~= Seq::<RecentShift>::empty());
    assert(src@.to_multiset() =~= vstd::multiset::Multiset::empty());
    assert(rows@.to_multiset() =~= orig.to_multiset());
    assert(shift_placement(orig, rows@, idx));
    proof {
        lemma_sorted_shifts_by_change(rows@);
    }
}


// ---------------------------------------------------------------------------
// Recent shifts
// ---------------------------------------------------------------------------

/// Confidence a feature needs before a shift is reported.
pub const SHIFT_CONF: i32 = 400;

/// Smallest change between recent and long-term affinity that counts.
pub const SHIFT_DELTA: i64 = 350;

/// Recent films a shift needs behind it.
pub const SHIFT_MIN_EVIDENCE: usize = 3;

/// Shifts a profile lists.
pub const SHIFT_CAP: usize = 8;

/// The observation was made within the recent window.
pub open spec fn recent_obs(o: FeatureObservation) -> bool {
    match o.age_years {
        Some(y) => y <= RECENT_YEARS,
        None => false,
    }
}

/// How many observations are recent.
pub open spec fn recent_count(obs: Seq<FeatureObservation>) -> int
    decreases obs.len(),
{
    if obs.len() == 0 {
        0
    } else {
        recent_count(obs.drop_last()) + if recent_obs(obs.last()) {
            1int
        } else {
            0int
        }
    }
}

/// The key observations of one feature are grouped under.
pub open spec fn key_of(k: FeatureKey) -> Seq<char> {
    storage_key_of(k.family, k.id, k.name@)
}

/// The recent observations of the feature `key`: the first six, in order.
pub open spec fn recent_evidence(obs: Seq<FeatureObservation>, key: Seq<char>) -> Seq<int>
    decreases obs.len(),
{
    if obs.len() == 0 {
        Seq::empty()
    } else {
        let r = recent_evidence(obs.drop_last(), key);
        let o = obs.last();
        if key_of(o.key) == key && recent_obs(o) && r.len() < EVIDENCE_CAP {
            r.push(obs.len() - 1)
        } else {
            r
        }
    }
}

/// `x` held within `i32`.
pub open spec fn clamp_i32(x: int) -> int {
    if x < i32::MIN {
        i32::MIN as int
    } else if x > i32::MAX {
        i32::MAX as int
    } else {
        x
    }
}

/// Recent minus long-term affinity.
pub open spec fn shift_delta(a: FeatureAffinity) -> int {
    clamp_i32(a.recent_weight - a.long_term_weight)
}

/// The affinity has shifted: confident, changed by at least 0.35, and
/// seen in at least three recent films.
pub open spec fn shifting(a: FeatureAffinity, obs: Seq<FeatureObservation>) -> bool {
    &&& a.confidence >= SHIFT_CONF
    &&& abs_milli(shift_delta(a)) >= SHIFT_DELTA
    &&& recent_evidence(obs, key_of(a.key)).len() >= SHIFT_MIN_EVIDENCE
}

/// Enough recent and enough older observations to speak of a shift.
pub open spec fn shift_window(obs: Seq<FeatureObservation>) -> bool {
    recent_count(obs) >= SHIFT_RECENT_N && obs.len() - recent_count(obs) >= SHIFT_LONG_N
}

/// The affinities that have shifted, in order (none outside the window).
pub open spec fn shifting_picks(affs: Seq<FeatureAffinity>, obs: Seq<FeatureObservation>) -> Seq<int>
    decreases affs.len(),
{
    if !shift_window(obs) || affs.len() == 0 {
        Seq::empty()
    } else {
        let r = shifting_picks(affs.drop_last(), obs);
        if shifting(affs.last(), obs) {
            r.push(affs.len() - 1)
        } else {
            r
        }
    }
}

/// The long-term evidence of a shift: the first six of the affinity's
/// liked then disliked evidence films.
pub open spec fn long_term_films(a: FeatureAffinity) -> Seq<EvidenceFilm> {
    let all = a.positive_evidence@ + a.negative_evidence@;
    if all.len() <= EVIDENCE_CAP {
        all
    } else {
        all.take(EVIDENCE_CAP as int)
    }
}

/// `s` reports the shift of the affinity `a`.
pub open spec fn shift_of(s: RecentShift, a: FeatureAffinity, obs: Seq<FeatureObservation>) -> bool {
    &&& s.feature@ == a.key.name@
    &&& s.family == a.key.family
    &&& s.long_term == a.long_term_weight
    &&& s.recent == a.recent_weight
    &&& s.delta == shift_delta(a)
    &&& same_films(s.long_term_evidence@, long_term_films(a))
    &&& evidence_at(s.recent_evidence@, obs, recent_evidence(obs, key_of(a.key)))
}

/// `v` reports the shifts of the affinities, in their order.
pub open spec fn shifts_built(v: Seq<RecentShift>, affs: Seq<FeatureAffinity>, obs: Seq<FeatureObservation>) -> bool {
    &&& v.len() == shifting_picks(affs, obs).len()
    &&& forall|k: int| 0 <= k < v.len() ==> shift_of(#[trigger] v[k], affs[shifting_picks(affs, obs)[k]], obs)
}

proof fn lemma_recent_evidence_in_range(obs: Seq<FeatureObservation>, key: Seq<char>)
    ensures
        recent_evidence(obs, key).len() <= EVIDENCE_CAP,
        forall|k: int| 0 <= k < recent_evidence(obs, key).len() ==> 0 <= #[trigger] recent_evidence(obs, key)[k] < obs.len(),
    decreases obs.len(),
{
    if obs.len() > 0 {
        lemma_recent_evidence_in_range(obs.drop_last(), key);
    }
}

proof fn lemma_shifting_in_range(affs: Seq<FeatureAffinity>, obs: Seq<FeatureObservation>)
    ensures
        shifting_picks(affs, obs).len() <= affs.len(),
        forall|k: int| 0 <= k < shifting_picks(affs, obs).len() ==> 0 <= #[trigger] shifting_picks(affs, obs)[k] < affs.len(),
    decreases affs.len(),
{
    if affs.len() > 0 {
        lemma_shifting_in_range(affs.drop_last(), obs);
    }
}

fn is_recent(o: &FeatureObservation) -> (b: bool)
    ensures
        b == recent_obs(*o),
{
    match o.age_years {
        Some(y) => y <= RECENT_YEARS,
        None => false,
    }
}

fn count_recent(obs: &[FeatureObservation]) -> (n: usize)
    ensures
        n == recent_count(obs@),
        n <= obs@.len(),
{
    let mut n: usize = 0;
    let mut i: usize = 0;
    while i < obs.len()
        invariant
            i <= obs.len(),
            n <= i,
            n == recent_count(obs@.take(i as int)),
        decreases obs.len() - i,
    {
        assert(obs@.take(i + 1).drop_last() =~= obs@.take(i as int));
        if is_recent(&obs[i]) {
            n += 1;
        }
        i += 1;
    }
    assert(obs@.take(obs.len() as int) =~= obs@);
    n
}

fn key_chars(k: &FeatureKey) -> (v: Vec<char>)
    ensures
        v@ == key_of(*k),
{
    let s = k.storage_key();
    chars_of(s.as_str())
}

fn recent_films(obs: &[FeatureObservation], key: &Vec<char>) -> (out: Vec<EvidenceFilm>)
    ensures
        evidence_at(out@, obs@, recent_evidence(obs@, key@)),
{
    let mut out: Vec<EvidenceFilm> = Vec::new();
    let mut i: usize = 0;
    while i < obs.len()
        invariant
            i <= obs.len(),
            evidence_at(out@, obs@, recent_evidence(obs@.take(i as int), key@)),
        decreases obs.len() - i,
    {
        let ghost pre = obs@.take(i as int);
        let ghost nxt = obs@.take(i + 1);
        assert(nxt.drop_last() =~= pre);
        proof {
            lemma_recent_evidence_in_range(pre, key@);
        }
        let o = &obs[i];
        if out.len() < EVIDENCE_CAP && is_recent(o) && seq_eq(&key_chars(&o.key), key) {
            let ghost before = out@;
            out.push(copy_evidence_film(&o.evidence));
            assert forall|k: int| 0 <= k < recent_evidence(nxt, key@).len() implies same_evidence(
                #[trigger] out@[k],
                obs@[recent_evidence(nxt, key@)[k]].evidence,
            ) by {
                if k < before.len() {
                    assert(out@[k] == before[k]);
                }
            }
        }
        i += 1;
    }
    assert(obs@.take(obs.len() as int) =~= obs@);
    out
}

fn first_films(a: &Vec<EvidenceFilm>, b: &Vec<EvidenceFilm>) -> (out: Vec<EvidenceFilm>)
    ensures
        same_films(
            out@,
            if a@.len() + b@.len() <= EVIDENCE_CAP {
                a@ + b@
            } else {
                (a@ + b@).take(EVIDENCE_CAP as int)
            },
        ),
{
    let ghost all = a@ + b@;
    let mut out: Vec<EvidenceFilm> = Vec::new();
    let mut i: usize = 0;
    while i < EVIDENCE_CAP && (i < a.len() || i - a.len() < b.len())
        invariant
            i <= a.len() + b.len(),
            i <= EVIDENCE_CAP,
            all == a@ + b@,
            same_films(out@, all.take(i as int)),
        decreases EVIDENCE_CAP - i,
    {
        let ghost before = out@;
        if i < a.len() {
            out.push(copy_evidence_film(&a[i]));
            assert(all[i as int] == a@[i as int]);
        } else {
            out.push(copy_evidence_film(&b[i - a.len()]));
            assert(all[i as int] == b@[i - a.len()]);
        }
        assert forall|k: int| 0 <= k < out@.len() implies same_evidence(#[trigger] out@[k], all.take(i + 1)[k]) by {
            if k < before.len() {
                assert(out@[k] == before[k]);
            }
        }
        i += 1;
    }
    proof {
        if a@.len() + b@.len() <= EVIDENCE_CAP {
            assert(all.take(i as int) =~= all);
        }
    }
    out
}

fn shift_for(a: &FeatureAffinity, obs: &[FeatureObservation]) -> (r: Option<RecentShift>)
    ensures
        match r {
            Some(s) => shifting(*a, obs@) && shift_of(s, *a, obs@),
            None => !shifting(*a, obs@),
        },
{
    if a.confidence < SHIFT_CONF {
        return None;
    }
    let d: i64 = a.recent_weight as i64 - a.long_term_weight as i64;
    let delta: i32 = if d < i32::MIN as i64 {
        i32::MIN
    } else if d > i32::MAX as i64 {
        i32::MAX
    } else {
        d as i32
    };
    let ad: i64 = if delta < 0 { -(delta as i64) } else { delta as i64 };
    if ad < SHIFT_DELTA {
        return None;
    }
    let key = key_chars(&a.key);
    let recent = recent_films(obs, &key);
    if recent.len() < SHIFT_MIN_EVIDENCE {
        return None;
    }
    Some(RecentShift {
        feature: a.key.name.clone(),
        family: a.key.family,
        long_term: a.long_term_weight,
        recent: a.recent_weight,
        delta,
        long_term_evidence: first_films(&a.positive_evidence, &a.negative_evidence),
        recent_evidence: recent,
    })
}

fn shifts_in_order(affinities: &[FeatureAffinity], obs: &[FeatureObservation]) -> (out: Vec<RecentShift>)
    ensures
        shifts_built(out@, affinities@, obs@),
{
    let mut out: Vec<RecentShift> = Vec::new();
    let recent_n = count_recent(obs);
    if !(recent_n >= SHIFT_RECENT_N && obs.len() - recent_n >= SHIFT_LONG_N) {
        assert(shifting_picks(affinities@, obs@) =~= Seq::<int>::empty());
        return out;
    }
    let mut i: usize = 0;
    while i < affinities.len()
        invariant
            i <= affinities.len(),
            shift_window(obs@),
            shifts_built(out@, affinities@.take(i as int), obs@),
            forall|k: int| 0 <= k < shifting_picks(affinities@.take(i as int), obs@).len() ==>
                #[trigger] shifting_picks(affinities@.take(i as int), obs@)[k] < i,
        decreases affinities.len() - i,
    {
        let ghost pre = affinities@.take(i as int);
        let ghost nxt = affinities@.take(i + 1);
        assert(nxt.drop_last() =~= pre);
        assert(nxt.last() == affinities@[i as int]);
        proof {
            lemma_shifting_in_range(pre, obs@);
        }
        match shift_for(&affinities[i], obs) {
            Some(s) => {
                let ghost before = out@;
                out.push(s);
                assert forall|k: int| 0 <= k < out@.len() implies shift_of(
                    #[trigger] out@[k],
                    nxt[shifting_picks(nxt, obs@)[k]],
                    obs@,
                ) by {
                    if k < before.len() {
                        assert(out@[k] == before[k]);
                        assert(pre[shifting_picks(pre, obs@)[k]] == nxt[shifting_picks(nxt, obs@)[k]]);
                    }
                }
            },
            None => {
                assert forall|k: int| 0 <= k < out@.len() implies shift_of(
                    #[trigger] out@[k],
                    nxt[shifting_picks(nxt, obs@)[k]],
                    obs@,
                ) by {
                    assert(pre[shifting_picks(pre, obs@)[k]] == nxt[shifting_picks(nxt, obs@)[k]]);
                }
            },
        }
        i += 1;
    }
    assert(affinities@.take(affinities.len() as int) =~= affinities@);
    out
}


/// Sorted shifts run from the largest change to the smallest.
pub proof fn lemma_sorted_shifts_by_change(s: Seq<RecentShift>)
    requires
        shift_sorted(s),
    ensures
        forall|i: int, j: int| 0 <= i < j < s.len() ==> (if s[i].delta < 0 {
            -(s[i].delta as int)
        } else {
            s[i].delta as int
        }) >= (if s[j].delta < 0 {
            -(s[j].delta as int)
        } else {
            s[j].delta as int
        }),
{
    assert forall|i: int, j: int| 0 <= i < j < s.len() implies (if s[i].delta < 0 {
        -(s[i].delta as int)
    } else {
        s[i].delta as int
    }) >= (if s[j].delta < 0 {
        -(s[j].delta as int)
    } else {
        s[j].delta as int
    }) by {
        assert(key_sign(shift_key(s[i]), shift_key(s[j])) <= 0);
    }
}

/// Sorted affinities run from the highest scoring affinity to the lowest.
pub proof fn lemma_sorted_affinities_by_score(s: Seq<FeatureAffinity>)
    requires
        affinity_sorted(s),
    ensures
        forall|i: int, j: int| 0 <= i < j < s.len() ==> s[i].scoring_affinity_spec() >= s[j].scoring_affinity_spec(),
{
    assert forall|i: int, j: int| 0 <= i < j < s.len() implies s[i].scoring_affinity_spec() >= s[j].scoring_affinity_spec() by {
        assert(key_sign(affinity_key(s[i]), affinity_key(s[j])) <= 0);
    }
}

/// The size of a shift's change.
pub open spec fn change_size(s: RecentShift) -> int {
    if s.delta < 0 {
        -(s.delta as int)
    } else {
        s.delta as int
    }
}

/// The recent shifts of the (ordered) affinities: when there are at least
/// eight recent and twenty older observations, each confident affinity whose
/// recent and long-term values differ by at least 0.35 and that three
/// recent films show; sorted by the size of the change and kept to eight.
pub fn recent_shifts(affinities: &[FeatureAffinity], obs: &[FeatureObservation]) -> (out: Vec<RecentShift>)
    ensures
        exists|built: Seq<RecentShift>, sorted: Seq<RecentShift>, perm: Seq<int>|
            shifts_built(built, affinities@, obs@) && shift_placement(built, sorted, perm)
                && shift_sorted(sorted) && out@ == (if sorted.len() <= SHIFT_CAP {
                sorted
            } else {
                sorted.take(SHIFT_CAP as int)
            }) && (forall|k: int, m: int|
                0 <= k < out@.len() && out@.len() <= m < sorted.len() ==> change_size(#[trigger] sorted[m])
                    <= change_size(#[trigger] out@[k])),
        out@.len() <= SHIFT_CAP,
        forall|i: int, j: int| 0 <= i < j < out@.len() ==> change_size(#[trigger] out@[i]) >= change_size(#[trigger] out@[j]),
{
    let mut v = shifts_in_order(affinities, obs);
    let ghost built = v@;
    sort_shifts(&mut v);
    let ghost sorted = v@;
    v.truncate(SHIFT_CAP);
    proof {
        if sorted.len() > SHIFT_CAP {
            assert(v@ =~= sorted.take(SHIFT_CAP as int));
        }
        lemma_sorted_shifts_by_change(sorted);
        assert forall|i: int, j: int| 0 <= i < j < v@.len() implies change_size(#[trigger] v@[i]) >= change_size(#[trigger] v@[j]) by {
            assert(v@[i] == sorted[i] && v@[j] == sorted[j]);
        }
        assert forall|k: int, m: int|
            0 <= k < v@.len() && v@.len() <= m < sorted.len() implies change_size(#[trigger] sorted[m])
                <= change_size(#[trigger] v@[k]) by {
            assert(v@[k] == sorted[k]);
        }
    }
    v
}

// ---------------------------------------------------------------------------
// The profile
// ---------------------------------------------------------------------------

/// The profile of the affinities and the observations behind them: the
/// affinities sorted (higher scoring affinity first, then family, name
/// and id), the first twelve polarizing ones, and the recent shifts; the
/// dimensions and modes come later and are empty here.
pub fn assemble_profile(affinities: Vec<FeatureAffinity>, obs: &[FeatureObservation]) -> (p: FeatureProfile)
    ensures
        p.affinities@.to_multiset() == affinities@.to_multiset(),
        affinity_sorted(p.affinities@),
        exists|perm: Seq<int>| affinity_placement(affinities@, p.affinities@, perm),
        p.polarizing@.len() == polarizing_picks(p.affinities@).len(),
        forall|k: int| 0 <= k < p.polarizing@.len() ==> polarizing_of(#[trigger] p.polarizing@[k], p.affinities@[polarizing_picks(p.affinities@)[k]]),
        exists|built: Seq<RecentShift>, sorted: Seq<RecentShift>, perm: Seq<int>|
            shifts_built(built, p.affinities@, obs@) && shift_placement(built, sorted, perm)
                && shift_sorted(sorted) && p.shifts@ == (if sorted.len() <= SHIFT_CAP {
                sorted
            } else {
                sorted.take(SHIFT_CAP as int)
            }) && (forall|k: int, m: int|
                0 <= k < p.shifts@.len() && p.shifts@.len() <= m < sorted.len() ==> change_size(#[trigger] sorted[m])
                    <= change_size(#[trigger] p.shifts@[k])),
        p.shifts@.len() <= SHIFT_CAP,
        forall|i: int, j: int| 0 <= i < j < p.shifts@.len() ==> change_size(#[trigger] p.shifts@[i]) >= change_size(#[trigger] p.shifts@[j]),
        forall|i: int, j: int| 0 <= i < j < p.affinities@.len() ==> (#[trigger] p.affinities@[i]).scoring_affinity_spec()
            >= (#[trigger] p.affinities@[j]).scoring_affinity_spec(),
        p.dimensions@.len() == 0,
        p.modes@.len() == 0,
        p.mode_shifts@.len() == 0,
{
    let mut sorted = affinities;
    sort_affinities(&mut sorted);
    let polarizing = polarizing_features(&sorted);
    let shifts = recent_shifts(&sorted, obs);
    proof {
        lemma_sorted_affinities_by_score(sorted@);
    }
    FeatureProfile {
        affinities: sorted,
        polarizing,
        shifts,
        dimensions: Vec::new(),
        modes: Vec::new(),
        mode_shifts: Vec::new(),
    }
}


// ---------------------------------------------------------------------------
// Grouping
// ---------------------------------------------------------------------------

/// The grouping key of each observation.
pub open spec fn obs_keys(obs: Seq<FeatureObservation>) -> Seq<Seq<char>> {
    obs.map_values(|o: FeatureObservation| key_of(o.key))
}

/// Position of the first `k` in `names`, or -1.
pub open spec fn first_index(names: Seq<Seq<char>>, k: Seq<char>) -> int
    decreases names.len(),
{
    if names.len() == 0 {
        -1
    } else {
        let r = first_index(names.drop_last(), k);
        if r >= 0 {
            r
        } else if names.last() == k {
            names.len() - 1
        } else {
            -1
        }
    }
}

/// The observations grouped by key: the keys in order of first
/// appearance, and for each the positions of its observations, in order.
pub open spec fn groups_by_key(ks: Seq<Seq<char>>) -> (Seq<Seq<char>>, Seq<Seq<int>>)
    decreases ks.len(),
{
    if ks.len() == 0 {
        (Seq::empty(), Seq::empty())
    } else {
        let (names, gs) = groups_by_key(ks.drop_last());
        let n = ks.len() - 1;
        let a = first_index(names, ks.last());
        if a < 0 {
            (names.push(ks.last()), gs.push(seq![n]))
        } else {
            (names, gs.update(a, gs[a].push(n)))
        }
    }
}

pub open spec fn index_views(g: Seq<Vec<usize>>) -> Seq<Seq<int>> {
    g.map_values(|v: Vec<usize>| v@.map_values(|x: usize| x as int))
}

proof fn lemma_groups_shape(ks: Seq<Seq<char>>)
    ensures
        groups_by_key(ks).0.len() == groups_by_key(ks).1.len(),
        forall|a: int, b: int| 0 <= a < groups_by_key(ks).1.len() && 0 <= b < groups_by_key(ks).1[a].len()
            ==> 0 <= #[trigger] groups_by_key(ks).1[a][b] < ks.len(),
    decreases ks.len(),
{
    if ks.len() > 0 {
        lemma_groups_shape(ks.drop_last());
        let (names, gs) = groups_by_key(ks.drop_last());
        let a = first_index(names, ks.last());
        lemma_first_index(names, ks.last());
        let r = groups_by_key(ks).1;
        assert forall|x: int, y: int| 0 <= x < r.len() && 0 <= y < r[x].len() implies 0 <= #[trigger] r[x][y] < ks.len() by {
            if a < 0 {
                if x < gs.len() {
                    assert(r[x] == gs[x]);
                }
            } else if x == a {
                if y < gs[a].len() {
                    assert(r[x][y] == gs[a][y]);
                }
            } else {
                assert(r[x] == gs[x]);
            }
        }
    }
}

proof fn lemma_first_index(names: Seq<Seq<char>>, k: Seq<char>)
    ensures
        -1 <= first_index(names, k) < names.len(),
        first_index(names, k) >= 0 ==> names[first_index(names, k)] == k,
        first_index(names, k) >= 0 ==> forall|j: int| 0 <= j < first_index(names, k) ==> names[j] != k,
        first_index(names, k) < 0 ==> forall|j: int| 0 <= j < names.len() ==> names[j] != k,
    decreases names.len(),
{
    if names.len() > 0 {
        lemma_first_index(names.drop_last(), k);
        assert forall|j: int| 0 <= j < names.len() - 1 implies names.drop_last()[j] == names[j] by {}
    }
}

fn find_key(names: &Vec<Vec<char>>, k: &Vec<char>) -> (r: Option<usize>)
    ensures
        match r {
            Some(a) => a < names@.len() && a as int == first_index(char_views(names@), k@),
            None => first_index(char_views(names@), k@) < 0,
        },
{
    let ghost cv = char_views(names@);
    proof {
        lemma_first_index(cv, k@);
    }
    let mut i: usize = 0;
    while i < names.len()
        invariant
            i <= names.len(),
            cv == char_views(names@),
            forall|j: int| 0 <= j < i ==> cv[j] != k@,
            -1 <= first_index(cv, k@) < cv.len(),
            first_index(cv, k@) >= 0 ==> cv[first_index(cv, k@)] == k@,
            first_index(cv, k@) >= 0 ==> forall|j: int| 0 <= j < first_index(cv, k@) ==> cv[j] != k@,
            first_index(cv, k@) < 0 ==> forall|j: int| 0 <= j < cv.len() ==> cv[j] != k@,
        decreases names.len() - i,
    {
        if seq_eq(&names[i], k) {
            assert(cv[i as int] == k@);
            return Some(i);
        }
        assert(cv[i as int] != k@);
        i += 1;
    }
    None
}

/// The observations grouped by feature: each group the positions of one
/// feature's observations, in order; the groups in order of the feature's
/// first observation.
pub fn group_indices(obs: &[FeatureObservation]) -> (g: Vec<Vec<usize>>)
    ensures
        index_views(g@) == groups_by_key(obs_keys(obs@)).1,
{
    let ghost ks = obs_keys(obs@);
    let mut names: Vec<Vec<char>> = Vec::new();
    let mut groups: Vec<Vec<usize>> = Vec::new();
    let mut i: usize = 0;
    assert(ks.take(0) =~= Seq::<Seq<char>>::empty());
    assert(char_views(names@) =~= Seq::<Seq<char>>::empty());
    assert(index_views(groups@) =~= Seq::<Seq<int>>::empty());
    while i < obs.len()
        invariant
            i <= obs.len(),
            ks == obs_keys(obs@),
            char_views(names@) == groups_by_key(ks.take(i as int)).0,
            index_views(groups@) == groups_by_key(ks.take(i as int)).1,
        decreases obs.len() - i,
    {
        let ghost pre = ks.take(i as int);
        let ghost nxt = ks.take(i + 1);
        assert(nxt.drop_last() =~= pre);
        assert(nxt.last() == ks[i as int]);
        proof {
            lemma_groups_shape(pre);
        }
        let k = key_chars(&obs[i].key);
        assert(k@ == ks[i as int]);
        let ghost bn = char_views(names@);
        let ghost bg = index_views(groups@);
        match find_key(&names, &k) {
            Some(a) => {
                let mut g = groups.remove(a);
                let ghost gv = g@.map_values(|x: usize| x as int);
                assert(gv == bg[a as int]);
                g.push(i);
                assert(g@.map_values(|x: usize| x as int) =~= gv.push(i as int));
                groups.insert(a, g);
                assert(index_views(groups@) =~= bg.update(a as int, bg[a as int].push(i as int)));
            },
            None => {
                names.push(k);
                assert(char_views(names@) =~= bn.push(ks[i as int]));
                let mut g: Vec<usize> = Vec::new();
                g.push(i);
                assert(g@.map_values(|x: usize| x as int) =~= seq![i as int]);
                let ghost bgs = groups@;
                groups.push(g);
                assert(groups@ == bgs.push(g));
                assert(index_views(groups@) =~= bg.push(seq![i as int]));
            },
        }
        i += 1;
    }
    assert(ks.take(obs.len() as int) =~= ks);
    groups
}


/// A profile lists at most twelve polarizing features, each of them
/// polarizing, in the order of the affinities.
pub proof fn lemma_polarizing_picks(s: Seq<FeatureAffinity>)
    ensures
        polarizing_picks(s).len() <= POLARIZING_CAP,
        forall|k: int| 0 <= k < polarizing_picks(s).len() ==> #[trigger] s[polarizing_picks(s)[k]].polarizing_spec(),
        forall|i: int, j: int| 0 <= i < j < polarizing_picks(s).len() ==> polarizing_picks(s)[i] < polarizing_picks(s)[j],
    decreases s.len(),
{
    lemma_picks_in_range(s);
    if s.len() > 0 {
        lemma_polarizing_picks(s.drop_last());
        lemma_picks_in_range(s.drop_last());
        let r = polarizing_picks(s.drop_last());
        assert forall|k: int| 0 <= k < polarizing_picks(s).len() implies #[trigger] s[polarizing_picks(s)[k]].polarizing_spec() by {
            if k < r.len() {
                assert(polarizing_picks(s)[k] == r[k]);
                assert(s[r[k]] == s.drop_last()[r[k]]);
            }
        }
        assert forall|i: int, j: int| 0 <= i < j < polarizing_picks(s).len() implies polarizing_picks(s)[i] < polarizing_picks(s)[j] by {
            if j < r.len() {
                assert(polarizing_picks(s)[i] == r[i] && polarizing_picks(s)[j] == r[j]);
            } else {
                assert(polarizing_picks(s)[i] == r[i]);
            }
        }
    }
}

/// Every affinity a profile reports as shifted has shifted; outside the
/// window none is reported.
pub proof fn lemma_shifting_picks(affs: Seq<FeatureAffinity>, obs: Seq<FeatureObservation>)
    ensures
        !shift_window(obs) ==> shifting_picks(affs, obs).len() == 0,
        forall|k: int| 0 <= k < shifting_picks(affs, obs).len() ==> shifting(#[trigger] affs[shifting_picks(affs, obs)[k]], obs),
    decreases affs.len(),
{
    lemma_shifting_in_range(affs, obs);
    if affs.len() > 0 && shift_window(obs) {
        lemma_shifting_picks(affs.drop_last(), obs);
        lemma_shifting_in_range(affs.drop_last(), obs);
        let r = shifting_picks(affs.drop_last(), obs);
        assert forall|k: int| 0 <= k < shifting_picks(affs, obs).len() implies shifting(#[trigger] affs[shifting_picks(affs, obs)[k]], obs) by {
            if k < r.len() {
                assert(shifting_picks(affs, obs)[k] == r[k]);
                assert(affs[r[k]] == affs.drop_last()[r[k]]);
            }
        }
    }
}


/// Position `i` is a member of one of the groups.
pub open spec fn in_some_group(gs: Seq<Seq<int>>, i: int) -> bool {
    exists|a: int, b: int| 0 <= a < gs.len() && 0 <= b < gs[a].len() && #[trigger] gs[a][b] == i
}

/// The grouping is a partition by key: there is one group per key, every
/// member of a group has the group's key, members are in order, and every
/// observation is a member of some group.
pub proof fn lemma_groups_partition(ks: Seq<Seq<char>>)
    ensures
        groups_by_key(ks).0.len() == groups_by_key(ks).1.len(),
        groups_by_key(ks).0.no_duplicates(),
        forall|a: int, b: int| 0 <= a < groups_by_key(ks).1.len() && 0 <= b < groups_by_key(ks).1[a].len()
            ==> 0 <= #[trigger] groups_by_key(ks).1[a][b] < ks.len()
                && ks[groups_by_key(ks).1[a][b]] == groups_by_key(ks).0[a],
        forall|a: int, b: int, c: int| 0 <= a < groups_by_key(ks).1.len() && 0 <= b < c < groups_by_key(ks).1[a].len()
            ==> #[trigger] groups_by_key(ks).1[a][b] < #[trigger] groups_by_key(ks).1[a][c],
        forall|i: int| 0 <= i < ks.len() ==> #[trigger] in_some_group(groups_by_key(ks).1, i),
    decreases ks.len(),
{
    if ks.len() > 0 {
        let pre = ks.drop_last();
        lemma_groups_partition(pre);
        let (names, gs) = groups_by_key(pre);
        let n = ks.len() - 1;
        let k = ks.last();
        let a0 = first_index(names, k);
        lemma_first_index(names, k);
        let (names2, gs2) = groups_by_key(ks);
        assert forall|i: int| 0 <= i < pre.len() implies pre[i] == ks[i] by {}
        if a0 < 0 {
            assert(names2 == names.push(k));
            assert(gs2 == gs.push(seq![n]));
            assert forall|x: int, y: int| 0 <= x < y < names2.len() implies names2[x] != names2[y] by {
                if y < names.len() {
                    assert(names2[x] == names[x] && names2[y] == names[y]);
                } else {
                    assert(names2[x] == names[x]);
                }
            }
            assert forall|a: int, b: int| 0 <= a < gs2.len() && 0 <= b < gs2[a].len()
                implies 0 <= #[trigger] gs2[a][b] < ks.len() && ks[gs2[a][b]] == names2[a] by {
                if a < gs.len() {
                    assert(gs2[a] == gs[a]);
                    assert(names2[a] == names[a]);
                }
            }
            assert forall|a: int, b: int, c: int| 0 <= a < gs2.len() && 0 <= b < c < gs2[a].len()
                implies #[trigger] gs2[a][b] < #[trigger] gs2[a][c] by {
                if a < gs.len() {
                    assert(gs2[a] == gs[a]);
                }
            }
            assert forall|i: int| 0 <= i < ks.len() implies #[trigger] in_some_group(gs2, i) by {
                if i < n {
                    assert(in_some_group(gs, i));
                    let (a, b) = choose|a: int, b: int| 0 <= a < gs.len() && 0 <= b < gs[a].len() && #[trigger] gs[a][b] == i;
                    assert(gs2[a] == gs[a]);
                    assert(gs2[a][b] == i);
                } else {
                    assert(gs2[gs.len() as int][0] == i);
                }
            }
        } else {
            let g = gs[a0].push(n);
            assert(names2 == names);
            assert(gs2 == gs.update(a0, g));
            assert forall|a: int, b: int| 0 <= a < gs2.len() && 0 <= b < gs2[a].len()
                implies 0 <= #[trigger] gs2[a][b] < ks.len() && ks[gs2[a][b]] == names2[a] by {
                if a != a0 {
                    assert(gs2[a] == gs[a]);
                } else if b < gs[a0].len() {
                    assert(gs2[a][b] == gs[a0][b]);
                }
            }
            assert forall|a: int, b: int, c: int| 0 <= a < gs2.len() && 0 <= b < c < gs2[a].len()
                implies #[trigger] gs2[a][b] < #[trigger] gs2[a][c] by {
                if a != a0 {
                    assert(gs2[a] == gs[a]);
                } else if c < gs[a0].len() {
                    assert(gs2[a][b] == gs[a0][b] && gs2[a][c] == gs[a0][c]);
                } else {
                    assert(gs2[a][b] == gs[a0][b]);
                }
            }
            assert forall|i: int| 0 <= i < ks.len() implies #[trigger] in_some_group(gs2, i) by {
                if i < n {
                    assert(in_some_group(gs, i));
                    let (a, b) = choose|a: int, b: int| 0 <= a < gs.len() && 0 <= b < gs[a].len() && #[trigger] gs[a][b] == i;
                    if a != a0 {
                        assert(gs2[a] == gs[a]);
                    } else {
                        assert(gs2[a][b] == gs[a0][b]);
                    }
                    assert(gs2[a][b] == i);
                } else {
                    assert(gs2[a0][gs[a0].len() as int] == i);
                }
            }
        }
    }
}


/// Affinities with equal scoring affinity sort by family order, then by
/// name, then by id (`None` first).
pub proof fn lemma_affinity_ties(a: FeatureAffinity, b: FeatureAffinity)
    requires
        a.scoring_affinity_spec() == b.scoring_affinity_spec(),
    ensures
        a.key.family.sort_key_spec() < b.key.family.sort_key_spec() ==> key_sign(affinity_key(a), affinity_key(b)) == -1,
        a.key.family == b.key.family && seq_lt(a.key.name@, b.key.name@) ==> key_sign(affinity_key(a), affinity_key(b)) == -1,
        a.key.family == b.key.family && a.key.name@ == b.key.name@ && a.key.id is None && b.key.id is Some
            ==> key_sign(affinity_key(a), affinity_key(b)) == -1,
{
    lemma_seq_lt_asymmetric(a.key.name@, b.key.name@);
    lemma_seq_lt_irreflexive(a.key.name@);
}

/// Shifts of equal size sort by family order, then by name.
pub proof fn lemma_shift_ties(a: RecentShift, b: RecentShift)
    requires
        change_size(a) == change_size(b),
    ensures
        a.family.sort_key_spec() < b.family.sort_key_spec() ==> key_sign(shift_key(a), shift_key(b)) == -1,
        a.family == b.family && seq_lt(a.feature@, b.feature@) ==> key_sign(shift_key(a), shift_key(b)) == -1,
{
    lemma_seq_lt_asymmetric(a.feature@, b.feature@);
}

/// A larger change sorts first.
pub proof fn lemma_larger_shift_first(a: RecentShift, b: RecentShift)
    requires
        change_size(a) > change_size(b),
    ensures
        key_sign(shift_key(a), shift_key(b)) == -1,
{
}

/// A higher scoring affinity sorts first.
pub proof fn lemma_stronger_affinity_first(a: FeatureAffinity, b: FeatureAffinity)
    requires
        a.scoring_affinity_spec() > b.scoring_affinity_spec(),
    ensures
        key_sign(affinity_key(a), affinity_key(b)) == -1,
{
}

} // verus!
