//! Read-only taste diagnostics: films the viewer rated against what the rest
//! of the library predicts, and pairs of cited features that keep turning
//! up together in the viewer's best-liked films. Nothing here feeds scoring.
use vstd::prelude::*;
use crate::explain::{seq_less, seq_lt};
use crate::features::{
    div_trunc, storage_key_of, strs, EvidenceFilm, FeatureAffinity, FeatureFamily, FeatureKey,
    FeatureProfile,
};
use crate::profile::{film_feature_keys, key_views, primary_keys};
use crate::retrieve::FilmRecord;
use crate::text::{chars_of, seq_eq, string_of};

verus! {

/// Films a pair of features must share to be reported.
pub const COMBINATION_MIN_FILMS: usize = 3;
/// Features of one film considered for pairing.
pub const COMBINATION_KEYS_PER_FILM: usize = 12;
/// Pairs reported.
pub const MAX_COMBINATIONS: usize = 24;
/// Rating (thousandths of a star) from which a film supports a pair.
pub const COMBINATION_RATING_FLOOR: i32 = 4000;

/// Two cited features and the liked films they share.
#[derive(Clone, Debug)]
pub struct EvidenceCombination {
    pub first_feature: String,
    pub second_feature: String,
    pub first_family: String,
    pub second_family: String,
    pub supporting_films: Vec<String>,
}

pub open spec fn domain_name(family: FeatureFamily) -> Seq<char> {
    match family {
        FeatureFamily::Director | FeatureFamily::Writer => "authorial"@,
        FeatureFamily::Cinematographer => "visual"@,
        FeatureFamily::Composer => "sound"@,
        FeatureFamily::Actor => "performance"@,
        FeatureFamily::Genre | FeatureFamily::Keyword => "narrative"@,
        FeatureFamily::Decade | FeatureFamily::Runtime => "contextual"@,
    }
}

/// The kind of evidence a feature family gives.
pub fn evidence_domain(family: FeatureFamily) -> (s: &'static str)
    ensures
        s@ == domain_name(family),
{
    match family {
        FeatureFamily::Director | FeatureFamily::Writer => "authorial",
        FeatureFamily::Cinematographer => "visual",
        FeatureFamily::Composer => "sound",
        FeatureFamily::Actor => "performance",
        FeatureFamily::Genre | FeatureFamily::Keyword => "narrative",
        FeatureFamily::Decade | FeatureFamily::Runtime => "contextual",
    }
}

/// `target` followed by the values of `source` it does not hold yet.
pub open spec fn unique_union(target: Seq<Seq<char>>, source: Seq<Seq<char>>) -> Seq<Seq<char>>
    decreases source.len(),
{
    if source.len() == 0 {
        target
    } else {
        let r = unique_union(target, source.drop_last());
        if r.contains(source.last()) {
            r
        } else {
            r.push(source.last())
        }
    }
}

fn holds_text(v: &Vec<String>, x: &String) -> (b: bool)
    ensures
        b == strs(v@).contains(x@),
{
    let xc = chars_of(x.as_str());
    let mut i: usize = 0;
    while i < v.len()
        invariant
            i <= v.len(),
            xc@ == x@,
            forall|k: int| 0 <= k < i ==> strs(v@)[k] != x@,
        decreases v.len() - i,
    {
        if seq_eq(&chars_of(v[i].as_str()), &xc) {
            assert(strs(v@)[i as int] == x@);
            return true;
        }
        i += 1;
    }
    false
}

/// Appends the values of `source` that `target` does not hold yet.
pub fn append_unique(target: &mut Vec<String>, source: Vec<String>)
    ensures
        strs(final(target)@) == unique_union(strs(old(target)@), strs(source@)),
{
    let ghost t0 = strs(target@);
    let ghost all = strs(source@);
    let mut rest = source;
    let n = rest.len();
    let mut t: usize = 0;
    assert(all.take(0) =~= Seq::<Seq<char>>::empty());
    while t < n
        invariant
            t <= n,
            all.len() == n,
            rest@.len() + t == n,
            strs(rest@) == all.skip(t as int),
            strs(target@) == unique_union(t0, all.take(t as int)),
        decreases n - t,
    {
        let ghost before = rest@;
        let value = rest.remove(0);
        assert(value@ == all[t as int]) by {
            assert(strs(before)[0] == before[0]@);
        }
        assert(all.take(t + 1).drop_last() =~= all.take(t as int));
        if !holds_text(target, &value) {
            let ghost tv = target@;
            target.push(value);
            assert(strs(target@) =~= strs(tv).push(all[t as int]));
        }
        t += 1;
        assert(strs(rest@) =~= all.skip(t as int)) by {
            assert forall|k: int| 0 <= k < rest@.len() implies strs(rest@)[k] == all.skip(t as int)[k] by {
                assert(rest@[k] == before[k + 1]);
                assert(strs(before)[k + 1] == all.skip(t - 1)[k + 1]);
            }
        }
    }
    assert(all.take(n as int) =~= all);
}


// ---------------------------------------------------------------------------
// The features of one film that may pair
// ---------------------------------------------------------------------------

pub open spec fn skey(k: FeatureKey) -> Seq<char> {
    storage_key_of(k.family, k.id, k.name@)
}

/// A feature as plain values: family, id and name.
pub open spec fn kview(k: FeatureKey) -> (FeatureFamily, Option<i64>, Seq<char>) {
    (k.family, k.id, k.name@)
}

/// A cited, positively recommended affinity of the profile has this storage
/// key.
pub open spec fn eligible_key(affs: Seq<FeatureAffinity>, s: Seq<char>) -> bool {
    exists|i: int|
        0 <= i < affs.len() && (#[trigger] affs[i]).citeable_spec() && affs[i].recommendation_mean
            > 0 && skey(affs[i].key) == s
}

/// A film that supports pairs: rated at least four stars and liked.
pub open spec fn supports_pairs(f: FilmRecord) -> bool {
    (match f.rating {
        Some(r) => r,
        None => 0,
    }) >= COMBINATION_RATING_FLOOR && match f.signal {
        Some(s) => s.affinity_preference > 0,
        None => false,
    }
}

pub open spec fn eligible_keys(ks: Seq<FeatureKey>, affs: Seq<FeatureAffinity>) -> Seq<FeatureKey>
    decreases ks.len(),
{
    if ks.len() == 0 {
        Seq::empty()
    } else {
        let r = eligible_keys(ks.drop_last(), affs);
        if eligible_key(affs, skey(ks.last())) {
            r.push(ks.last())
        } else {
            r
        }
    }
}

pub open spec fn key_slot(s: Seq<FeatureKey>, x: FeatureKey, i: int) -> int
    decreases s.len() - i,
{
    if i >= s.len() || seq_lt(skey(x), skey(s[i])) {
        i
    } else {
        key_slot(s, x, i + 1)
    }
}

/// Stable sort by storage key.
pub open spec fn sort_keys(s: Seq<FeatureKey>) -> Seq<FeatureKey>
    decreases s.len(),
{
    if s.len() == 0 {
        Seq::empty()
    } else {
        let r = sort_keys(s.drop_last());
        r.insert(key_slot(r, s.last(), 0), s.last())
    }
}

/// Keeps the first of each run of equal storage keys.
pub open spec fn dedup_keys(s: Seq<FeatureKey>) -> Seq<FeatureKey>
    decreases s.len(),
{
    if s.len() == 0 {
        Seq::empty()
    } else {
        let r = dedup_keys(s.drop_last());
        if r.len() > 0 && skey(r.last()) == skey(s.last()) {
            r
        } else {
            r.push(s.last())
        }
    }
}

pub open spec fn first_keys(s: Seq<FeatureKey>) -> Seq<FeatureKey> {
    if s.len() > COMBINATION_KEYS_PER_FILM {
        s.take(COMBINATION_KEYS_PER_FILM as int)
    } else {
        s
    }
}

/// The features of a film that pair: the eligible ones, by storage key,
/// without repeats, at most twelve.
pub open spec fn pairing_keys(ks: Seq<FeatureKey>, affs: Seq<FeatureAffinity>) -> Seq<FeatureKey> {
    first_keys(dedup_keys(sort_keys(eligible_keys(ks, affs))))
}

pub open spec fn kviews(s: Seq<FeatureKey>) -> Seq<(FeatureFamily, Option<i64>, Seq<char>)> {
    s.map_values(|k: FeatureKey| kview(k))
}

fn copy_key(k: &FeatureKey) -> (c: FeatureKey)
    ensures
        kview(c) == kview(*k),
{
    FeatureKey { family: k.family, id: k.id, name: k.name.clone() }
}

fn is_eligible(affs: &Vec<FeatureAffinity>, s: &Vec<char>) -> (b: bool)
    ensures
        b == eligible_key(affs@, s@),
{
    let mut i: usize = 0;
    while i < affs.len()
        invariant
            i <= affs.len(),
            forall|q: int|
                0 <= q < i ==> !((#[trigger] affs@[q]).citeable_spec() && affs@[q].recommendation_mean
                    > 0 && skey(affs@[q].key) == s@),
        decreases affs.len() - i,
    {
        let a = &affs[i];
        if a.citeable() && a.recommendation_mean > 0 {
            let sk = a.key.storage_key();
            if seq_eq(&chars_of(sk.as_str()), s) {
                return true;
            }
        }
        i += 1;
    }
    false
}

proof fn lemma_kviews_push(s: Seq<FeatureKey>, k: FeatureKey, c: FeatureKey)
    requires
        kview(c) == kview(k),
    ensures
        kviews(s.push(c)) == kviews(s).push(kview(k)),
{
    assert(kviews(s.push(c)) =~= kviews(s).push(kview(k)));
}

/// The pairing features of one film, with their storage keys.
fn film_pairing_keys(ks: &Vec<FeatureKey>, affs: &Vec<FeatureAffinity>) -> (r: (Vec<FeatureKey>, Vec<Vec<char>>))
    ensures
        kviews(r.0@) == kviews(pairing_keys(ks@, affs@)),
        r.1@.len() == r.0@.len(),
        forall|q: int| 0 <= q < r.0@.len() ==> #[trigger] r.1@[q]@ == skey(r.0@[q]),
{
    // eligible, sorted by storage key (stable insertion)
    let mut sorted: Vec<FeatureKey> = Vec::new();
    let mut sks: Vec<Vec<char>> = Vec::new();
    let ghost mut gs: Seq<FeatureKey> = Seq::empty();
    let mut i: usize = 0;
    while i < ks.len()
        invariant
            i <= ks.len(),
            gs == sort_keys(eligible_keys(ks@.take(i as int), affs@)),
            kviews(sorted@) == kviews(gs),
            gs.len() == sorted@.len(),
            sks@.len() == sorted@.len(),
            forall|q: int| 0 <= q < sorted@.len() ==> #[trigger] sks@[q]@ == skey(gs[q]),
        decreases ks.len() - i,
    {
        assert(ks@.take(i + 1).drop_last() =~= ks@.take(i as int));
        let k = &ks[i];
        let sk = chars_of(k.storage_key().as_str());
        let ghost prev = eligible_keys(ks@.take(i as int), affs@);
        if is_eligible(affs, &sk) {
            assert(eligible_keys(ks@.take(i + 1), affs@) == prev.push(*k));
            assert(prev.push(*k).drop_last() =~= prev);
            let mut p: usize = 0;
            while p < sorted.len() && !seq_less(&sk, &sks[p])
                invariant
                    p <= sorted.len(),
                    sks@.len() == sorted@.len(),
                    gs.len() == sorted@.len(),
                    sk@ == skey(*k),
                    forall|q: int| 0 <= q < sorted@.len() ==> #[trigger] sks@[q]@ == skey(gs[q]),
                    key_slot(gs, *k, 0) == key_slot(gs, *k, p as int),
                decreases sorted.len() - p,
            {
                assert(sks@[p as int]@ == skey(gs[p as int]));
                p += 1;
            }
            proof {
                if p < sorted.len() {
                    assert(sks@[p as int]@ == skey(gs[p as int]));
                }
            }
            let ghost old_sorted = sorted@;
            let ghost old_sks = sks@;
            let c = copy_key(k);
            sorted.insert(p, c);
            sks.insert(p, sk);
            proof {
                let ng = gs.insert(p as int, *k);
                assert(kviews(sorted@) =~= kviews(ng)) by {
                    assert forall|q: int| 0 <= q < sorted@.len() implies kviews(sorted@)[q] == kviews(ng)[q] by {
                        if q < p {
                            assert(sorted@[q] == old_sorted[q]);
                            assert(kviews(old_sorted)[q] == kviews(gs)[q]);
                        } else if q > p {
                            assert(sorted@[q] == old_sorted[q - 1]);
                            assert(kviews(old_sorted)[q - 1] == kviews(gs)[q - 1]);
                        }
                    }
                }
                assert forall|q: int| 0 <= q < sorted@.len() implies #[trigger] sks@[q]@ == skey(ng[q]) by {
                    if q < p {
                        assert(sks@[q] == old_sks[q]);
                    } else if q > p {
                        assert(sks@[q] == old_sks[q - 1]);
                    }
                }
                gs = ng;
            }
        } else {
            assert(eligible_keys(ks@.take(i + 1), affs@) == prev);
        }
        i += 1;
    }
    assert(ks@.take(ks.len() as int) =~= ks@);
    // dedup, then truncate
    let mut out: Vec<FeatureKey> = Vec::new();
    let mut out_sks: Vec<Vec<char>> = Vec::new();
    let ghost mut go: Seq<FeatureKey> = Seq::empty();
    let mut j: usize = 0;
    while j < sorted.len()
        invariant
            j <= sorted.len(),
            sks@.len() == sorted@.len(),
            gs.len() == sorted@.len(),
            kviews(sorted@) == kviews(gs),
            forall|q: int| 0 <= q < sorted@.len() ==> #[trigger] sks@[q]@ == skey(gs[q]),
            go == dedup_keys(gs.take(j as int)),
            kviews(out@) == kviews(go),
            out_sks@.len() == out@.len(),
            forall|q: int| 0 <= q < out@.len() ==> #[trigger] out_sks@[q]@ == skey(go[q]),
        decreases sorted.len() - j,
    {
        assert(gs.take(j + 1).drop_last() =~= gs.take(j as int));
        assert(sks@[j as int]@ == skey(gs[j as int]));
        let dup = out.len() > 0 && seq_eq(&out_sks[out.len() - 1], &sks[j]);
        if !dup {
            assert(kviews(sorted@)[j as int] == kviews(gs)[j as int]);
            let c = copy_key(&sorted[j]);
            let ghost oo = out@;
            let ghost os = out_sks@;
            out.push(c);
            out_sks.push(sks[j].clone());
            proof {
                lemma_kviews_push(oo, sorted@[j as int], c);
                assert(kviews(out@) =~= kviews(go.push(gs[j as int])));
                assert forall|q: int| 0 <= q < out@.len() implies #[trigger] out_sks@[q]@ == skey(go.push(gs[j as int])[q]) by {
                    if q < oo.len() {
                        assert(out_sks@[q] == os[q]);
                    }
                }
                go = go.push(gs[j as int]);
            }
        }
        j += 1;
    }
    assert(gs.take(sorted.len() as int) =~= gs);
    if out.len() > COMBINATION_KEYS_PER_FILM {
        let ghost before = out@;
        let ghost before_sks = out_sks@;
        out.truncate(COMBINATION_KEYS_PER_FILM);
        out_sks.truncate(COMBINATION_KEYS_PER_FILM);
        proof {
            assert forall|q: int| 0 <= q < out@.len() implies kviews(out@)[q] == kviews(
                go.take(COMBINATION_KEYS_PER_FILM as int),
            )[q] by {
                assert(out@[q] == before[q]);
                assert(kviews(before)[q] == kviews(go)[q]);
            }
            assert(kviews(out@) =~= kviews(go.take(COMBINATION_KEYS_PER_FILM as int)));
            assert forall|q: int| 0 <= q < out@.len() implies #[trigger] out_sks@[q]@ == skey(go[q]) by {
                assert(out_sks@[q] == before_sks[q]);
            }
        }
    }
    proof {
        assert forall|q: int| 0 <= q < out@.len() implies #[trigger] out_sks@[q]@ == skey(out@[q]) by {
            assert(kviews(out@)[q] == kviews(go)[q]);
        }
    }
    (out, out_sks)
}


// ---------------------------------------------------------------------------
// Pairs across films
// ---------------------------------------------------------------------------

/// A pair of features (by family, id and name) and the titles of the films
/// that share it, in the order they were met.
pub struct PairEntry {
    pub first: (FeatureFamily, Option<i64>, Seq<char>),
    pub second: (FeatureFamily, Option<i64>, Seq<char>),
    pub films: Seq<Seq<char>>,
}

pub open spec fn skv(v: (FeatureFamily, Option<i64>, Seq<char>)) -> Seq<char> {
    storage_key_of(v.0, v.1, v.2)
}

/// The first entry for the pair of storage keys `a`, `b` (-1 if none).
pub open spec fn entry_at(es: Seq<PairEntry>, a: Seq<char>, b: Seq<char>, i: int) -> int
    decreases es.len() - i,
{
    if i >= es.len() {
        -1
    } else if skv(es[i].first) == a && skv(es[i].second) == b {
        i
    } else {
        entry_at(es, a, b, i + 1)
    }
}

/// Records that film `title` has the pair (`l`, `r`).
pub open spec fn add_pair(
    es: Seq<PairEntry>,
    l: (FeatureFamily, Option<i64>, Seq<char>),
    r: (FeatureFamily, Option<i64>, Seq<char>),
    title: Seq<char>,
) -> Seq<PairEntry> {
    let e = entry_at(es, skv(l), skv(r), 0);
    if e >= 0 {
        if es[e].films.contains(title) {
            es
        } else {
            es.update(e, PairEntry { first: es[e].first, second: es[e].second, films: es[e].films.push(title) })
        }
    } else {
        es.push(PairEntry { first: l, second: r, films: seq![title] })
    }
}

pub open spec fn row_pairs(ks: Seq<(FeatureFamily, Option<i64>, Seq<char>)>, l: int) -> Seq<
    ((FeatureFamily, Option<i64>, Seq<char>), (FeatureFamily, Option<i64>, Seq<char>)),
> {
    ks.skip(l + 1).map_values(|k: (FeatureFamily, Option<i64>, Seq<char>)| (ks[l], k))
}

/// The pairs (`ks[l]`, `ks[r]`) with `l < r`, `l` below `n`, in loop order.
pub open spec fn all_pairs(ks: Seq<(FeatureFamily, Option<i64>, Seq<char>)>, n: int) -> Seq<
    ((FeatureFamily, Option<i64>, Seq<char>), (FeatureFamily, Option<i64>, Seq<char>)),
>
    decreases n,
{
    if n <= 0 {
        Seq::empty()
    } else {
        all_pairs(ks, n - 1) + row_pairs(ks, n - 1)
    }
}

pub open spec fn add_all(
    es: Seq<PairEntry>,
    ps: Seq<((FeatureFamily, Option<i64>, Seq<char>), (FeatureFamily, Option<i64>, Seq<char>))>,
    title: Seq<char>,
) -> Seq<PairEntry>
    decreases ps.len(),
{
    if ps.len() == 0 {
        es
    } else {
        add_pair(add_all(es, ps.drop_last(), title), ps.last().0, ps.last().1, title)
    }
}

pub open spec fn keys_for(fkeys: Seq<Vec<FeatureKey>>, i: int) -> Seq<FeatureKey> {
    if i < fkeys.len() {
        fkeys[i]@
    } else {
        Seq::empty()
    }
}

/// The pairs met in the first `n` films.
pub open spec fn entries_upto(
    films: Seq<FilmRecord>,
    fkeys: Seq<Vec<FeatureKey>>,
    affs: Seq<FeatureAffinity>,
    n: int,
) -> Seq<PairEntry>
    decreases n,
{
    if n <= 0 {
        Seq::empty()
    } else {
        let r = entries_upto(films, fkeys, affs, n - 1);
        let f = films[n - 1];
        if supports_pairs(f) {
            let ks = kviews(pairing_keys(keys_for(fkeys, n - 1), affs));
            add_all(r, all_pairs(ks, ks.len() as int), f.title@)
        } else {
            r
        }
    }
}

pub open spec fn entry_view(
    x: (FeatureKey, FeatureKey, Vec<String>),
    e: PairEntry,
) -> bool {
    kview(x.0) == e.first && kview(x.1) == e.second && strs(x.2@) == e.films
}

pub open spec fn entries_match(xs: Seq<(FeatureKey, FeatureKey, Vec<String>)>, es: Seq<PairEntry>) -> bool {
    xs.len() == es.len() && forall|q: int| 0 <= q < es.len() ==> entry_view(#[trigger] xs[q], es[q])
}

proof fn lemma_entry_at_bounds(es: Seq<PairEntry>, a: Seq<char>, b: Seq<char>, i: int)
    requires
        0 <= i,
    ensures
        -1 <= entry_at(es, a, b, i) < es.len(),
        entry_at(es, a, b, i) >= 0 ==> entry_at(es, a, b, i) >= i,
    decreases es.len() - i,
{
    if i < es.len() && !(skv(es[i].first) == a && skv(es[i].second) == b) {
        lemma_entry_at_bounds(es, a, b, i + 1);
    }
}

/// Records that film `title` has the pair `l`, `r` (whose storage keys are
/// `lsk`, `rsk`).
fn add_pair_exec(
    xs: &mut Vec<(FeatureKey, FeatureKey, Vec<String>)>,
    sks: &mut Vec<(Vec<char>, Vec<char>)>,
    l: &FeatureKey,
    lsk: &Vec<char>,
    r: &FeatureKey,
    rsk: &Vec<char>,
    title: &String,
    Ghost(es): Ghost<Seq<PairEntry>>,
)
    requires
        entries_match(old(xs)@, es),
        old(sks)@.len() == es.len(),
        forall|q: int| 0 <= q < es.len() ==> (#[trigger] old(sks)@[q]).0@ == skv(es[q].first) && old(sks)@[q].1@ == skv(es[q].second),
        lsk@ == skey(*l),
        rsk@ == skey(*r),
    ensures
        entries_match(final(xs)@, add_pair(es, kview(*l), kview(*r), title@)),
        final(sks)@.len() == add_pair(es, kview(*l), kview(*r), title@).len(),
        forall|q: int| 0 <= q < final(sks)@.len() ==> (#[trigger] final(sks)@[q]).0@ == skv(add_pair(es, kview(*l), kview(*r), title@)[q].first) && final(sks)@[q].1@ == skv(add_pair(es, kview(*l), kview(*r), title@)[q].second),
{
    let mut i: usize = 0;
    proof {
        lemma_entry_at_bounds(es, lsk@, rsk@, 0);
    }
    while i < xs.len()
        invariant
            i <= xs.len(),
            entries_match(xs@, es),
            sks@.len() == es.len(),
            forall|q: int| 0 <= q < es.len() ==> (#[trigger] sks@[q]).0@ == skv(es[q].first) && sks@[q].1@ == skv(es[q].second),
            lsk@ == skey(*l),
            rsk@ == skey(*r),
            entry_at(es, lsk@, rsk@, 0) == entry_at(es, lsk@, rsk@, i as int),
        decreases xs.len() - i,
    {
        assert(sks@[i as int].0@ == skv(es[i as int].first));
        if seq_eq(&sks[i].0, lsk) && seq_eq(&sks[i].1, rsk) {
            assert(entry_at(es, lsk@, rsk@, i as int) == i as int);
            assert(entry_view(xs@[i as int], es[i as int]));
            if holds_text(&xs[i].2, title) {
                return ;
            }
            let ghost old_xs = xs@;
            let mut entry = xs.remove(i);
            entry.2.push(title.clone());
            xs.insert(i, entry);
            proof {
                let ne = add_pair(es, kview(*l), kview(*r), title@);
                assert(strs(xs@[i as int].2@) =~= es[i as int].films.push(title@));
                assert forall|q: int| 0 <= q < ne.len() implies entry_view(#[trigger] xs@[q], ne[q]) by {
                    if q != i {
                        assert(xs@[q] == old_xs[q]);
                    }
                }
            }
            return ;
        }
        assert(!(skv(es[i as int].first) == lsk@ && skv(es[i as int].second) == rsk@));
        i += 1;
    }
    assert(entry_at(es, lsk@, rsk@, i as int) == -1);
    let mut films: Vec<String> = Vec::new();
    films.push(title.clone());
    let ghost old_xs = xs@;
    let ghost old_sks = sks@;
    xs.push((copy_key(l), copy_key(r), films));
    sks.push((lsk.clone(), rsk.clone()));
    proof {
        let ne = add_pair(es, kview(*l), kview(*r), title@);
        assert(strs(xs@[es.len() as int].2@) =~= seq![title@]);
        assert forall|q: int| 0 <= q < ne.len() implies entry_view(#[trigger] xs@[q], ne[q]) by {
            if q < es.len() {
                assert(xs@[q] == old_xs[q]);
            }
        }
        assert forall|q: int| 0 <= q < ne.len() implies (#[trigger] sks@[q]).0@ == skv(ne[q].first) && sks@[q].1@ == skv(ne[q].second) by {
            if q < es.len() {
                assert(sks@[q] == old_sks[q]);
            }
        }
    }
}


/// Records the pairs of one film's pairing features.
fn add_film_pairs(
    xs: &mut Vec<(FeatureKey, FeatureKey, Vec<String>)>,
    sks: &mut Vec<(Vec<char>, Vec<char>)>,
    keys: &Vec<FeatureKey>,
    key_sks: &Vec<Vec<char>>,
    title: &String,
    Ghost(es): Ghost<Seq<PairEntry>>,
) -> (after: Ghost<Seq<PairEntry>>)
    requires
        entries_match(old(xs)@, es),
        old(sks)@.len() == es.len(),
        forall|q: int| 0 <= q < es.len() ==> (#[trigger] old(sks)@[q]).0@ == skv(es[q].first) && old(sks)@[q].1@ == skv(es[q].second),
        key_sks@.len() == keys@.len(),
        forall|q: int| 0 <= q < keys@.len() ==> #[trigger] key_sks@[q]@ == skey(keys@[q]),
    ensures
        after@ == add_all(es, all_pairs(kviews(keys@), keys@.len() as int), title@),
        entries_match(final(xs)@, after@),
        final(sks)@.len() == after@.len(),
        forall|q: int| 0 <= q < after@.len() ==> (#[trigger] final(sks)@[q]).0@ == skv(after@[q].first) && final(sks)@[q].1@ == skv(after@[q].second),
{
    let ghost ks = kviews(keys@);
    let ghost mut cur = es;
    let n = keys.len();
    let mut l: usize = 0;
    while l < n
        invariant
            l <= n,
            n == keys@.len(),
            ks == kviews(keys@),
            key_sks@.len() == n,
            forall|q: int| 0 <= q < keys@.len() ==> #[trigger] key_sks@[q]@ == skey(keys@[q]),
            cur == add_all(es, all_pairs(ks, l as int), title@),
            entries_match(xs@, cur),
            sks@.len() == cur.len(),
            forall|q: int| 0 <= q < cur.len() ==> (#[trigger] sks@[q]).0@ == skv(cur[q].first) && sks@[q].1@ == skv(cur[q].second),
        decreases n - l,
    {
        let ghost base = all_pairs(ks, l as int);
        let ghost row = row_pairs(ks, l as int);
        assert(row.len() == n - l - 1);
        let mut r: usize = l + 1;
        assert(base + row.take(0) =~= base);
        while r < n
            invariant
                l < r <= n,
                n == keys@.len(),
                ks == kviews(keys@),
                key_sks@.len() == n,
                forall|q: int| 0 <= q < keys@.len() ==> #[trigger] key_sks@[q]@ == skey(keys@[q]),
                base == all_pairs(ks, l as int),
                row == row_pairs(ks, l as int),
                row.len() == n - l - 1,
                cur == add_all(es, base + row.take(r - l - 1), title@),
                entries_match(xs@, cur),
                sks@.len() == cur.len(),
                forall|q: int| 0 <= q < cur.len() ==> (#[trigger] sks@[q]).0@ == skv(cur[q].first) && sks@[q].1@ == skv(cur[q].second),
            decreases n - r,
        {
            assert(key_sks@[l as int]@ == skey(keys@[l as int]));
            assert(key_sks@[r as int]@ == skey(keys@[r as int]));
            assert(ks[l as int] == kview(keys@[l as int]));
            assert(ks[r as int] == kview(keys@[r as int]));
            assert(row[r - l - 1] == (ks[l as int], ks[r as int]));
            let ghost prev = base + row.take(r - l - 1);
            assert((base + row.take(r - l)).drop_last() =~= prev);
            assert((base + row.take(r - l)).last() == (ks[l as int], ks[r as int]));
            add_pair_exec(xs, sks, &keys[l], &key_sks[l], &keys[r], &key_sks[r], title, Ghost(cur));
            proof {
                cur = add_pair(cur, kview(keys@[l as int]), kview(keys@[r as int]), title@);
            }
            r += 1;
        }
        assert(row.take(n - l - 1) =~= row);
        l += 1;
    }
    Ghost(cur)
}

/// The pairs recorded over all the films.
fn all_entries(
    films: &[FilmRecord],
    film_keys: &[Vec<FeatureKey>],
    affs: &Vec<FeatureAffinity>,
) -> (r: (Vec<(FeatureKey, FeatureKey, Vec<String>)>, Ghost<Seq<PairEntry>>))
    ensures
        r.1@ == entries_upto(films@, film_keys@, affs@, films@.len() as int),
        entries_match(r.0@, r.1@),
{
    let mut xs: Vec<(FeatureKey, FeatureKey, Vec<String>)> = Vec::new();
    let mut sks: Vec<(Vec<char>, Vec<char>)> = Vec::new();
    let ghost mut es: Seq<PairEntry> = Seq::empty();
    let empty: Vec<FeatureKey> = Vec::new();
    let mut i: usize = 0;
    while i < films.len()
        invariant
            i <= films.len(),
            es == entries_upto(films@, film_keys@, affs@, i as int),
            entries_match(xs@, es),
            sks@.len() == es.len(),
            forall|q: int| 0 <= q < es.len() ==> (#[trigger] sks@[q]).0@ == skv(es[q].first) && sks@[q].1@ == skv(es[q].second),
            empty@ == Seq::<FeatureKey>::empty(),
        decreases films.len() - i,
    {
        let f = &films[i];
        let liked = match f.signal {
            Some(s) => s.affinity_preference > 0,
            None => false,
        };
        let rating: i32 = match f.rating {
            Some(r) => r,
            None => 0,
        };
        if rating >= COMBINATION_RATING_FLOOR && liked {
            let ks = if i < film_keys.len() {
                &film_keys[i]
            } else {
                &empty
            };
            assert(ks@ == keys_for(film_keys@, i as int));
            let (keys, key_sks) = film_pairing_keys(ks, affs);
            let after = add_film_pairs(&mut xs, &mut sks, &keys, &key_sks, &f.title, Ghost(es));
            proof {
                es = after@;
            }
        }
        i += 1;
    }
    (xs, Ghost(es))
}

// ---------------------------------------------------------------------------
// Reporting
// ---------------------------------------------------------------------------

/// The pairs shared by at least three films.
pub open spec fn strong_entries(es: Seq<PairEntry>) -> Seq<PairEntry>
    decreases es.len(),
{
    if es.len() == 0 {
        Seq::empty()
    } else {
        let r = strong_entries(es.drop_last());
        if es.last().films.len() >= COMBINATION_MIN_FILMS {
            r.push(es.last())
        } else {
            r
        }
    }
}

/// Pairs go by how many films share them (most first), then by the first
/// and second feature names.
pub open spec fn entry_before(a: PairEntry, b: PairEntry) -> bool {
    a.films.len() > b.films.len() || (a.films.len() == b.films.len() && (seq_lt(a.first.2, b.first.2)
        || (a.first.2 == b.first.2 && seq_lt(a.second.2, b.second.2))))
}

pub open spec fn entry_slot(s: Seq<PairEntry>, x: PairEntry, i: int) -> int
    decreases s.len() - i,
{
    if i >= s.len() || entry_before(x, s[i]) {
        i
    } else {
        entry_slot(s, x, i + 1)
    }
}

pub open spec fn sort_entries(s: Seq<PairEntry>) -> Seq<PairEntry>
    decreases s.len(),
{
    if s.len() == 0 {
        Seq::empty()
    } else {
        let r = sort_entries(s.drop_last());
        r.insert(entry_slot(r, s.last(), 0), s.last())
    }
}

/// The reported pairs: the strong ones in order, at most twenty-four.
pub open spec fn reported(es: Seq<PairEntry>) -> Seq<PairEntry> {
    let s = sort_entries(strong_entries(es));
    if s.len() > MAX_COMBINATIONS {
        s.take(MAX_COMBINATIONS as int)
    } else {
        s
    }
}

pub open spec fn combination_of(c: EvidenceCombination, e: PairEntry) -> bool {
    &&& c.first_feature@ == e.first.2
    &&& c.second_feature@ == e.second.2
    &&& c.first_family@ == domain_name(e.first.0)
    &&& c.second_family@ == domain_name(e.second.0)
    &&& strs(c.supporting_films@) == e.films
}

pub open spec fn combinations_match(cs: Seq<EvidenceCombination>, es: Seq<PairEntry>) -> bool {
    cs.len() == es.len() && forall|q: int| 0 <= q < es.len() ==> combination_of(#[trigger] cs[q], es[q])
}

fn entry_first(a: &EvidenceCombination, b: &EvidenceCombination) -> (r: bool)
    ensures
        r == (a.supporting_films@.len() > b.supporting_films@.len() || (a.supporting_films@.len()
            == b.supporting_films@.len() && (seq_lt(a.first_feature@, b.first_feature@) || (
        a.first_feature@ == b.first_feature@ && seq_lt(a.second_feature@, b.second_feature@))))),
{
    if a.supporting_films.len() != b.supporting_films.len() {
        return a.supporting_films.len() > b.supporting_films.len();
    }
    let af = chars_of(a.first_feature.as_str());
    let bf = chars_of(b.first_feature.as_str());
    if seq_less(&af, &bf) {
        return true;
    }
    if !seq_eq(&af, &bf) {
        return false;
    }
    seq_less(&chars_of(a.second_feature.as_str()), &chars_of(b.second_feature.as_str()))
}

/// Pairs of cited, positively recommended features that turn up together in
/// at least three of the viewer's liked films (rated four stars or more).
/// `film_keys[i]` holds the features of `films[i]`; of each film at most the
/// first twelve distinct eligible features by storage key are paired. Pairs
/// are reported most shared first, then by feature names, at most
/// twenty-four.
pub fn positive_combinations(
    films: &[FilmRecord],
    film_keys: &[Vec<FeatureKey>],
    profile: &FeatureProfile,
) -> (out: Vec<EvidenceCombination>)
    ensures
        combinations_match(
            out@,
            reported(entries_upto(films@, film_keys@, profile.affinities@, films@.len() as int)),
        ),
{
    let (xs, ges) = all_entries(films, film_keys, &profile.affinities);
    let ghost es = ges@;
    // keep the strong pairs, converted, in stable order of precedence
    let mut sorted: Vec<EvidenceCombination> = Vec::new();
    let ghost mut gs: Seq<PairEntry> = Seq::empty();
    let ghost mut kept: Seq<PairEntry> = Seq::empty();
    let mut rest = xs;
    let n = rest.len();
    let mut t: usize = 0;
    while t < n
        invariant
            t <= n,
            es.len() == n,
            rest@.len() + t == n,
            forall|q: int| 0 <= q < rest@.len() ==> entry_view(#[trigger] rest@[q], es[q + t]),
            kept == strong_entries(es.take(t as int)),
            gs == sort_entries(kept),
            combinations_match(sorted@, gs),
        decreases n - t,
    {
        let ghost before = rest@;
        let (a, b, films_of) = rest.remove(0);
        assert(entry_view(before[0], es[t as int]));
        assert(es.take(t + 1).drop_last() =~= es.take(t as int));
        if films_of.len() >= COMBINATION_MIN_FILMS {
            let ghost e = es[t as int];
            let c = EvidenceCombination {
                first_feature: a.name,
                second_feature: b.name,
                first_family: string_of(&chars_of(evidence_domain(a.family))),
                second_family: string_of(&chars_of(evidence_domain(b.family))),
                supporting_films: films_of,
            };
            assert(combination_of(c, e));
            let mut p: usize = 0;
            while p < sorted.len() && !entry_first(&c, &sorted[p])
                invariant
                    p <= sorted.len(),
                    combinations_match(sorted@, gs),
                    combination_of(c, e),
                    entry_slot(gs, e, 0) == entry_slot(gs, e, p as int),
                decreases sorted.len() - p,
            {
                assert(combination_of(sorted@[p as int], gs[p as int]));
                p += 1;
            }
            proof {
                if p < sorted.len() {
                    assert(combination_of(sorted@[p as int], gs[p as int]));
                }
                assert(kept.push(e).drop_last() =~= kept);
            }
            let ghost old_sorted = sorted@;
            sorted.insert(p, c);
            proof {
                let ng = gs.insert(p as int, e);
                assert forall|q: int| 0 <= q < ng.len() implies combination_of(#[trigger] sorted@[q], ng[q]) by {
                    if q < p {
                        assert(sorted@[q] == old_sorted[q]);
                    } else if q > p {
                        assert(sorted@[q] == old_sorted[q - 1]);
                    }
                }
                kept = kept.push(e);
                gs = ng;
            }
        }
        t += 1;
        assert forall|q: int| 0 <= q < rest@.len() implies entry_view(#[trigger] rest@[q], es[q + t]) by {
            assert(rest@[q] == before[q + 1]);
        }
    }
    assert(es.take(n as int) =~= es);
    if sorted.len() > MAX_COMBINATIONS {
        let ghost before = sorted@;
        sorted.truncate(MAX_COMBINATIONS);
        assert forall|q: int| 0 <= q < sorted@.len() implies combination_of(#[trigger] sorted@[q], gs.take(MAX_COMBINATIONS as int)[q]) by {
            assert(sorted@[q] == before[q]);
        }
    }
    sorted
}

// ---------------------------------------------------------------------------
// Exceptions: films rated against the grain of their features
// ---------------------------------------------------------------------------

/// Observed preference (thousandths) from which a film is checked.
pub const EXCEPTION_OBSERVED_FLOOR: i32 = 350;
/// Distance (thousandths) between observed and expected preference from
/// which a film is an exception.
pub const EXCEPTION_RESIDUAL_FLOOR: i64 = 450;
/// Cited features of the film the profile must hold.
pub const EXCEPTION_MIN_MATCHES: usize = 3;
/// Kinds of evidence those features must span.
pub const EXCEPTION_MIN_DOMAINS: usize = 2;
/// Supporting and opposing films kept.
pub const EXCEPTION_FILMS: usize = 6;
/// Exceptions reported.
pub const MAX_EXCEPTIONS: usize = 8;

/// A film the viewer rated against what the rest of the library predicts.
/// Preferences are in thousandths; `rating` in thousandths of a star.
#[derive(Clone, Debug)]
pub struct TasteException {
    pub title: String,
    pub tmdb_id: Option<i64>,
    pub rating: i32,
    pub observed_preference: i32,
    pub expected_preference: i64,
    pub residual: i64,
    pub matching_features: Vec<String>,
    pub evidence_domains: Vec<String>,
    pub supporting_films: Vec<String>,
    pub opposing_films: Vec<String>,
}

pub open spec fn abs_int(x: int) -> int {
    if x < 0 {
        -x
    } else {
        x
    }
}

/// The cited affinities of the profile whose feature the film has, in
/// profile order.
pub open spec fn matching_affs(affs: Seq<FeatureAffinity>, sks: Seq<Seq<char>>) -> Seq<FeatureAffinity>
    decreases affs.len(),
{
    if affs.len() == 0 {
        Seq::empty()
    } else {
        let r = matching_affs(affs.drop_last(), sks);
        let a = affs.last();
        if a.citeable_spec() && sks.contains(skey(a.key)) {
            r.push(a)
        } else {
            r
        }
    }
}

/// The storage keys of the film's primary features.
pub open spec fn film_skeys(f: FilmRecord) -> Seq<Seq<char>> {
    primary_keys(strs(f.genres@), f.credits@, f.keywords@).map_values(
        |k: (FeatureFamily, Option<i64>, Seq<char>)| skv(k),
    )
}

/// The kinds of evidence, in sorted order.
pub open spec fn domain_order() -> Seq<Seq<char>> {
    seq!["authorial"@, "contextual"@, "narrative"@, "performance"@, "sound"@, "visual"@]
}

pub open spec fn has_domain(ms: Seq<FeatureAffinity>, d: Seq<char>) -> bool {
    exists|i: int| 0 <= i < ms.len() && domain_name((#[trigger] ms[i]).key.family) == d
}

/// The kinds of evidence among `order` that the affinities give.
pub open spec fn present_domains(ms: Seq<FeatureAffinity>, order: Seq<Seq<char>>) -> Seq<Seq<char>>
    decreases order.len(),
{
    if order.len() == 0 {
        Seq::empty()
    } else {
        let r = present_domains(ms, order.drop_last());
        if has_domain(ms, order.last()) {
            r.push(order.last())
        } else {
            r
        }
    }
}

/// Sum of recommendation mean × confidence over the affinities.
pub open spec fn rc_sum(ms: Seq<FeatureAffinity>) -> int
    decreases ms.len(),
{
    if ms.len() == 0 {
        0
    } else {
        rc_sum(ms.drop_last()) + ms.last().recommendation_mean as int * ms.last().confidence as int
    }
}

/// The preference the affinities predict: their mean recommendation mean ×
/// confidence, in thousandths (rounded toward zero).
pub open spec fn expected_of(ms: Seq<FeatureAffinity>) -> int {
    div_trunc(rc_sum(ms), (1000 * ms.len()) as int)
}

pub open spec fn titles(es: Seq<EvidenceFilm>) -> Seq<Seq<char>> {
    es.map_values(|e: EvidenceFilm| e.title@)
}

/// The titles of the films behind the affinities, each once, in order.
pub open spec fn support_titles(ms: Seq<FeatureAffinity>) -> Seq<Seq<char>>
    decreases ms.len(),
{
    if ms.len() == 0 {
        Seq::empty()
    } else {
        unique_union(support_titles(ms.drop_last()), titles(ms.last().positive_evidence@))
    }
}

/// The titles of the films against the affinities, each once, in order.
pub open spec fn oppose_titles(ms: Seq<FeatureAffinity>) -> Seq<Seq<char>>
    decreases ms.len(),
{
    if ms.len() == 0 {
        Seq::empty()
    } else {
        unique_union(oppose_titles(ms.drop_last()), titles(ms.last().negative_evidence@))
    }
}

pub open spec fn first_films(s: Seq<Seq<char>>) -> Seq<Seq<char>> {
    if s.len() > EXCEPTION_FILMS {
        s.take(EXCEPTION_FILMS as int)
    } else {
        s
    }
}

/// The film is an exception to the profile built without it.
pub open spec fn is_exception(f: FilmRecord, affs: Seq<FeatureAffinity>) -> bool {
    let ms = matching_affs(affs, film_skeys(f));
    &&& f.rating.is_some()
    &&& f.signal.is_some()
    &&& abs_int(f.signal->0.affinity_preference as int) >= EXCEPTION_OBSERVED_FLOOR
    &&& ms.len() >= EXCEPTION_MIN_MATCHES
    &&& present_domains(ms, domain_order()).len() >= EXCEPTION_MIN_DOMAINS
    &&& abs_int(f.signal->0.affinity_preference as int - expected_of(ms))
        >= EXCEPTION_RESIDUAL_FLOOR
}

/// `e` reports film `f` as an exception to the profile `affs`.
pub open spec fn exception_of(e: TasteException, f: FilmRecord, affs: Seq<FeatureAffinity>) -> bool {
    let ms = matching_affs(affs, film_skeys(f));
    let observed = f.signal->0.affinity_preference as int;
    &&& e.title@ == f.title@
    &&& e.tmdb_id == f.tmdb_id
    &&& Some(e.rating) == f.rating
    &&& e.observed_preference == observed
    &&& e.expected_preference == expected_of(ms)
    &&& e.residual == observed - expected_of(ms)
    &&& strs(e.matching_features@) == ms.map_values(|a: FeatureAffinity| a.key.name@)
    &&& strs(e.evidence_domains@) == present_domains(ms, domain_order())
    &&& strs(e.supporting_films@) == first_films(support_titles(ms))
    &&& strs(e.opposing_films@) == first_films(oppose_titles(ms))
}

proof fn lemma_domains_distinct()
    ensures
        forall|r: int, d: int| 0 <= r < 6 && 0 <= d < 6 && r != d ==> domain_order()[r] != domain_order()[d],
{
    reveal_strlit("authorial");
    reveal_strlit("contextual");
    reveal_strlit("narrative");
    reveal_strlit("performance");
    reveal_strlit("sound");
    reveal_strlit("visual");
    let o = domain_order();
    assert(o[0][0] == 'a');
    assert(o[1][0] == 'c');
    assert(o[2][0] == 'n');
    assert(o[3][0] == 'p');
    assert(o[4][0] == 's');
    assert(o[5][0] == 'v');
}

/// Whether the film can be an exception at all: it is rated, has a signal,
/// and its preference is at least 0.35 either way. Only then is the
/// profile without it worth building.
pub fn may_be_exception(film: &FilmRecord) -> (b: bool)
    ensures
        b == (film.rating.is_some() && film.signal.is_some() && abs_int(
            film.signal->0.affinity_preference as int,
        ) >= EXCEPTION_OBSERVED_FLOOR),
{
    match (film.rating, film.signal) {
        (Some(_), Some(s)) => {
            let o: i64 = s.affinity_preference as i64;
            o >= EXCEPTION_OBSERVED_FLOOR as i64 || o <= -(EXCEPTION_OBSERVED_FLOOR as i64)
        },
        _ => false,
    }
}

/// What the diagnostics report: the exceptions and the feature pairs.
#[derive(Clone, Debug)]
pub struct TasteDiagnostics {
    pub exceptions: Vec<TasteException>,
    pub evidence_combinations: Vec<EvidenceCombination>,
}

/// The position of a family's kind of evidence in sorted order.
fn domain_rank(f: FeatureFamily) -> (r: usize)
    ensures
        r < 6,
        domain_order()[r as int] == domain_name(f),
{
    match f {
        FeatureFamily::Director | FeatureFamily::Writer => 0,
        FeatureFamily::Decade | FeatureFamily::Runtime => 1,
        FeatureFamily::Genre | FeatureFamily::Keyword => 2,
        FeatureFamily::Actor => 3,
        FeatureFamily::Composer => 4,
        FeatureFamily::Cinematographer => 5,
    }
}

fn domain_text(r: usize) -> (s: String)
    requires
        r < 6,
    ensures
        s@ == domain_order()[r as int],
{
    let lit = if r == 0 {
        "authorial"
    } else if r == 1 {
        "contextual"
    } else if r == 2 {
        "narrative"
    } else if r == 3 {
        "performance"
    } else if r == 4 {
        "sound"
    } else {
        "visual"
    };
    proof {
        reveal_strlit("authorial");
        reveal_strlit("contextual");
        reveal_strlit("narrative");
        reveal_strlit("performance");
        reveal_strlit("sound");
        reveal_strlit("visual");
    }
    string_of(&chars_of(lit))
}

fn evidence_titles(es: &Vec<EvidenceFilm>) -> (out: Vec<String>)
    ensures
        strs(out@) == titles(es@),
{
    let mut out: Vec<String> = Vec::new();
    let mut i: usize = 0;
    while i < es.len()
        invariant
            i <= es.len(),
            strs(out@) == titles(es@.take(i as int)),
        decreases es.len() - i,
    {
        let ghost before = strs(out@);
        out.push(es[i].title.clone());
        assert(strs(out@) =~= before.push(es@[i as int].title@));
        i += 1;
        assert(titles(es@.take(i as int)) =~= titles(es@.take(i - 1)).push(es@[i - 1].title@));
    }
    assert(es@.take(es.len() as int) =~= es@);
    out
}

/// Whether the film is an exception to the profile built from the rest of
/// the library (`profile`), and if so, how: the profile's cited features
/// the film has (at least three, spanning at least two kinds of evidence)
/// predict its preference as their mean recommendation mean × confidence,
/// and the film's own preference (at least 0.35 either way) differs from
/// that by at least 0.45. The report names those features and their kinds
/// of evidence, and the first six films behind and against them.
pub fn exception_for(film: &FilmRecord, profile: &FeatureProfile) -> (r: Option<TasteException>)
    ensures
        r is Some <==> is_exception(*film, profile.affinities@),
        r is Some ==> exception_of(r->0, *film, profile.affinities@),
{
    let ghost affs = profile.affinities@;
    let (rating, observed) = match (film.rating, film.signal) {
        (Some(r), Some(s)) => (r, s.affinity_preference),
        _ => {
            return None;
        },
    };
    let obs: i64 = observed as i64;
    if obs < EXCEPTION_OBSERVED_FLOOR as i64 && obs > -(EXCEPTION_OBSERVED_FLOOR as i64) {
        return None;
    }
    // The storage keys of the film's features.
    let keys = film_feature_keys(film);
    let ghost kv = primary_keys(strs(film.genres@), film.credits@, film.keywords@);
    let mut sks: Vec<String> = Vec::new();
    let mut i: usize = 0;
    while i < keys.len()
        invariant
            i <= keys.len(),
            film.signal.is_some(),
            key_views(keys@) == kv,
            strs(sks@) == kv.take(i as int).map_values(|k: (FeatureFamily, Option<i64>, Seq<char>)| skv(k)),
        decreases keys.len() - i,
    {
        let ghost before = strs(sks@);
        assert(key_views(keys@)[i as int] == kv[i as int]);
        sks.push(keys[i].storage_key());
        assert(strs(sks@) =~= before.push(skv(kv[i as int])));
        i += 1;
        assert(kv.take(i as int).map_values(|k: (FeatureFamily, Option<i64>, Seq<char>)| skv(k))
            =~= kv.take(i - 1).map_values(|k: (FeatureFamily, Option<i64>, Seq<char>)| skv(k)).push(
            skv(kv[i - 1]),
        ));
    }
    assert(kv.take(keys.len() as int) =~= kv);
    let ghost fsk = film_skeys(*film);
    assert(strs(sks@) == fsk);
    // The matching affinities, by index.
    let affinities = &profile.affinities;
    let mut idx: Vec<usize> = Vec::new();
    let mut a: usize = 0;
    while a < affinities.len()
        invariant
            a <= affinities.len(),
            affs == affinities@,
            strs(sks@) == fsk,
            idx@.len() == matching_affs(affs.take(a as int), fsk).len(),
            forall|j: int| 0 <= j < idx@.len() ==> (#[trigger] idx@[j]) < a,
            forall|j: int|
                0 <= j < idx@.len() ==> affs[idx@[j] as int] == matching_affs(affs.take(a as int), fsk)[j],
        decreases affinities.len() - a,
    {
        assert(affs.take(a + 1).drop_last() =~= affs.take(a as int));
        assert(affs.take(a + 1).last() == affs[a as int]);
        let aff = &affinities[a];
        if aff.citeable() {
            let sk = aff.key.storage_key();
            if holds_text(&sks, &sk) {
                idx.push(a);
            }
        }
        a += 1;
    }
    assert(affs.take(affinities.len() as int) =~= affs);
    let ghost ms = matching_affs(affs, fsk);
    let n = idx.len();
    if n < EXCEPTION_MIN_MATCHES {
        return None;
    }
    // Kinds of evidence present, in sorted order.
    let mut present: Vec<bool> = Vec::new();
    let mut d: usize = 0;
    while d < 6
        invariant
            d <= 6,
            present@.len() == d,
            idx@.len() == ms.len(),
            forall|j: int| 0 <= j < idx@.len() ==> (#[trigger] idx@[j]) < affs.len(),
            forall|j: int| 0 <= j < idx@.len() ==> affs[idx@[j] as int] == ms[j],
            affs == affinities@,
            n == idx@.len(),
            forall|e: int| 0 <= e < d ==> present@[e] == has_domain(ms, domain_order()[e]),
        decreases 6 - d,
    {
        let mut found = false;
        let mut j: usize = 0;
        while j < n
            invariant
                j <= n,
                n == idx@.len(),
                d < 6,
                idx@.len() == ms.len(),
                forall|q: int| 0 <= q < idx@.len() ==> (#[trigger] idx@[q]) < affs.len(),
                forall|q: int| 0 <= q < idx@.len() ==> affs[idx@[q] as int] == ms[q],
                affs == affinities@,
                found <==> exists|q: int| 0 <= q < j && domain_name((#[trigger] ms[q]).key.family) == domain_order()[d as int],
            decreases n - j,
        {
            let fam = affinities[idx[j]].key.family;
            let rank = domain_rank(fam);
            assert(affs[idx@[j as int] as int] == ms[j as int]);
            if rank == d {
                found = true;
            } else {
                proof {
                    lemma_domains_distinct();
                }
            }
            j += 1;
        }
        present.push(found);
        d += 1;
    }
    let mut domains: Vec<String> = Vec::new();
    let mut e: usize = 0;
    while e < 6
        invariant
            e <= 6,
            present@.len() == 6,
            forall|q: int| 0 <= q < 6 ==> present@[q] == has_domain(ms, domain_order()[q]),
            strs(domains@) == present_domains(ms, domain_order().take(e as int)),
        decreases 6 - e,
    {
        assert(domain_order().take(e + 1).drop_last() =~= domain_order().take(e as int));
        if present[e] {
            let ghost before = strs(domains@);
            domains.push(domain_text(e));
            assert(strs(domains@) =~= before.push(domain_order()[e as int]));
        }
        e += 1;
    }
    assert(domain_order().take(6) =~= domain_order());
    if domains.len() < EXCEPTION_MIN_DOMAINS {
        return None;
    }
    // The preference the matching features predict.
    let mut sum: i128 = 0;
    let mut j: usize = 0;
    while j < n
        invariant
            j <= n,
            n == idx@.len(),
            idx@.len() == ms.len(),
            forall|q: int| 0 <= q < idx@.len() ==> (#[trigger] idx@[q]) < affs.len(),
            forall|q: int| 0 <= q < idx@.len() ==> affs[idx@[q] as int] == ms[q],
            affs == affinities@,
            sum == rc_sum(ms.take(j as int)),
            -0x4000_0000_0000_0000 * j <= sum <= 0x4000_0000_0000_0000 * j,
        decreases n - j,
    {
        let aff = &affinities[idx[j]];
        assert(affs[idx@[j as int] as int] == ms[j as int]);
        assert(ms.take(j + 1).drop_last() =~= ms.take(j as int));
        let x: i128 = aff.recommendation_mean as i128;
        let y: i128 = aff.confidence as i128;
        assert(-0x4000_0000_0000_0000 <= x * y <= 0x4000_0000_0000_0000) by (nonlinear_arith)
            requires
                -0x8000_0000 <= x <= 0x8000_0000,
                -0x8000_0000 <= y <= 0x8000_0000,
        ;
        sum = sum + x * y;
        j += 1;
    }
    assert(ms.take(n as int) =~= ms);
    let den: i128 = 1000 * (n as i128);
    let q: i128 = if sum >= 0 {
        let t: i128 = sum / den;
        assert(0 <= t <= 0x4000_0000_0000_0000) by (nonlinear_arith)
            requires
                0 <= sum <= 0x4000_0000_0000_0000 * n,
                den == 1000 * n,
                n >= 3,
                t == sum / den,
        ;
        t
    } else {
        let m: i128 = -sum;
        let t: i128 = m / den;
        assert(0 <= t <= 0x4000_0000_0000_0000) by (nonlinear_arith)
            requires
                0 < m <= 0x4000_0000_0000_0000 * n,
                den == 1000 * n,
                n >= 3,
                t == m / den,
        ;
        -t
    };
    let expected: i64 = q as i64;
    let residual: i64 = obs - expected;
    if residual < EXCEPTION_RESIDUAL_FLOOR && residual > -EXCEPTION_RESIDUAL_FLOOR {
        return None;
    }
    // The features, and the films behind and against them.
    let mut names: Vec<String> = Vec::new();
    let mut supporting: Vec<String> = Vec::new();
    let mut opposing: Vec<String> = Vec::new();
    let mut j: usize = 0;
    while j < n
        invariant
            j <= n,
            n == idx@.len(),
            idx@.len() == ms.len(),
            forall|q: int| 0 <= q < idx@.len() ==> (#[trigger] idx@[q]) < affs.len(),
            forall|q: int| 0 <= q < idx@.len() ==> affs[idx@[q] as int] == ms[q],
            affs == affinities@,
            strs(names@) == ms.take(j as int).map_values(|a: FeatureAffinity| a.key.name@),
            strs(supporting@) == support_titles(ms.take(j as int)),
            strs(opposing@) == oppose_titles(ms.take(j as int)),
        decreases n - j,
    {
        let aff = &affinities[idx[j]];
        assert(affs[idx@[j as int] as int] == ms[j as int]);
        assert(ms.take(j + 1).drop_last() =~= ms.take(j as int));
        let ghost before = strs(names@);
        names.push(aff.key.name.clone());
        assert(strs(names@) =~= before.push(ms[j as int].key.name@));
        append_unique(&mut supporting, evidence_titles(&aff.positive_evidence));
        append_unique(&mut opposing, evidence_titles(&aff.negative_evidence));
        j += 1;
        assert(ms.take(j as int).map_values(|a: FeatureAffinity| a.key.name@) =~= ms.take(j - 1).map_values(
            |a: FeatureAffinity| a.key.name@,
        ).push(ms[j - 1].key.name@));
    }
    assert(ms.take(n as int) =~= ms);
    if supporting.len() > EXCEPTION_FILMS {
        let ghost before = supporting@;
        supporting.truncate(EXCEPTION_FILMS);
        assert(strs(supporting@) =~= strs(before).take(EXCEPTION_FILMS as int));
    }
    if opposing.len() > EXCEPTION_FILMS {
        let ghost before = opposing@;
        opposing.truncate(EXCEPTION_FILMS);
        assert(strs(opposing@) =~= strs(before).take(EXCEPTION_FILMS as int));
    }
    Some(
        TasteException {
            title: film.title.clone(),
            tmdb_id: film.tmdb_id,
            rating,
            observed_preference: observed,
            expected_preference: expected,
            residual,
            matching_features: names,
            evidence_domains: domains,
            supporting_films: supporting,
            opposing_films: opposing,
        },
    )
}

/// Where an exception goes among ranked ones: after every one at least as
/// far from its prediction.
pub open spec fn exception_slot(s: Seq<TasteException>, x: TasteException, i: int) -> int
    decreases s.len() - i,
{
    if i >= s.len() || abs_int(x.residual as int) > abs_int(s[i].residual as int) {
        i
    } else {
        exception_slot(s, x, i + 1)
    }
}

/// The exceptions by distance from their prediction, farthest first, ties
/// in their given order.
pub open spec fn rank_exceptions_spec(s: Seq<TasteException>) -> Seq<TasteException>
    decreases s.len(),
{
    if s.len() == 0 {
        Seq::empty()
    } else {
        let r = rank_exceptions_spec(s.drop_last());
        r.insert(exception_slot(r, s.last(), 0), s.last())
    }
}

pub open spec fn top_exceptions(s: Seq<TasteException>) -> Seq<TasteException> {
    let r = rank_exceptions_spec(s);
    if r.len() > MAX_EXCEPTIONS {
        r.take(MAX_EXCEPTIONS as int)
    } else {
        r
    }
}

fn farther(a: &TasteException, b: &TasteException) -> (r: bool)
    ensures
        r == (abs_int(a.residual as int) > abs_int(b.residual as int)),
{
    let x: i128 = a.residual as i128;
    let y: i128 = b.residual as i128;
    let ax: i128 = if x < 0 {
        -x
    } else {
        x
    };
    let ay: i128 = if y < 0 {
        -y
    } else {
        y
    };
    ax > ay
}

/// The exceptions reported: farthest from their prediction first (ties
/// keep their order), at most eight.
pub fn rank_exceptions(found: Vec<TasteException>) -> (out: Vec<TasteException>)
    ensures
        out@ == top_exceptions(found@),
{
    let ghost all = found@;
    let mut rest = found;
    let mut sorted: Vec<TasteException> = Vec::new();
    let n = rest.len();
    let mut t: usize = 0;
    while t < n
        invariant
            t <= n,
            all.len() == n,
            rest@ == all.skip(t as int),
            sorted@ == rank_exceptions_spec(all.take(t as int)),
        decreases n - t,
    {
        let ghost before = rest@;
        let x = rest.remove(0);
        assert(x == all[t as int]);
        assert(all.take(t + 1).drop_last() =~= all.take(t as int));
        let mut p: usize = 0;
        while p < sorted.len() && !farther(&x, &sorted[p])
            invariant
                p <= sorted.len(),
                exception_slot(sorted@, x, 0) == exception_slot(sorted@, x, p as int),
            decreases sorted.len() - p,
        {
            p += 1;
        }
        sorted.insert(p, x);
        t += 1;
        assert(rest@ =~= all.skip(t as int)) by {
            assert forall|k: int| 0 <= k < rest@.len() implies rest@[k] == all.skip(t as int)[k] by {
                assert(rest@[k] == before[k + 1]);
            }
        }
    }
    assert(all.take(n as int) =~= all);
    if sorted.len() > MAX_EXCEPTIONS {
        sorted.truncate(MAX_EXCEPTIONS);
    }
    sorted
}


/// A pair more films share is listed first.
pub proof fn lemma_wider_pair_first(a: PairEntry, b: PairEntry)
    requires
        a.films.len() > b.films.len(),
    ensures
        entry_before(a, b),
        !entry_before(b, a),
{
}

} // verus!
