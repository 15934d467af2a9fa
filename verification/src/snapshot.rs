//! The at-a-glance summary of a library: how many films are rated, loved
//! and hated, the mean rating, and the leading features of each family.
//!
//! Ratings and preferences are in thousandths, rounded to hundredths (to a
//! multiple of ten) the way `f64::round` rounds: half away from zero.
use vstd::prelude::*;
use crate::features::{FeatureAffinity, FeatureFamily, FeatureProfile, PORTABLE_CONTEXTUAL};
use crate::retrieve::FilmRecord;

verus! {

/// Ratings (thousandths of a star) from which a film counts as loved.
pub const LOVED_RATING: i32 = 4500;
/// Ratings up to which a film counts as hated.
pub const HATED_RATING: i32 = 2500;
/// Features listed per family.
pub const STATS_PER_FAMILY: usize = 16;

/// One feature as the summary lists it: its name, how many films it rests
/// on, its mean preference and its scoring affinity (thousandths, rounded
/// to hundredths).
#[derive(Clone, Debug)]
pub struct TasteStat {
    pub label: String,
    pub count: u32,
    pub avg: i64,
    pub affinity: Option<i128>,
}

#[derive(Clone, Debug)]
pub struct TasteSnapshot {
    pub rated_count: u32,
    pub loved_count: u32,
    pub hated_count: u32,
    pub avg_rating: Option<i64>,
    pub genres: Vec<TasteStat>,
    pub decades: Vec<TasteStat>,
    pub directors: Vec<TasteStat>,
    pub actors: Vec<TasteStat>,
    pub cinematographers: Vec<TasteStat>,
}

/// `p / q` rounded to a multiple of ten, half away from zero.
pub open spec fn round_tens(p: int, q: int) -> int
    recommends
        q > 0,
{
    if p >= 0 {
        (p + 5 * q) / (10 * q) * 10
    } else {
        -(((-p) + 5 * q) / (10 * q) * 10)
    }
}

pub open spec fn rated_films(films: Seq<FilmRecord>) -> Seq<FilmRecord>
    decreases films.len(),
{
    if films.len() == 0 {
        Seq::empty()
    } else {
        let r = rated_films(films.drop_last());
        if films.last().rating.is_some() {
            r.push(films.last())
        } else {
            r
        }
    }
}

pub open spec fn count_rated_at_least(films: Seq<FilmRecord>, floor: int) -> nat
    decreases films.len(),
{
    if films.len() == 0 {
        0
    } else {
        count_rated_at_least(films.drop_last(), floor) + match films.last().rating {
            Some(r) => if r >= floor {
                1nat
            } else {
                0nat
            },
            None => 0nat,
        }
    }
}

pub open spec fn count_rated_at_most(films: Seq<FilmRecord>, ceiling: int) -> nat
    decreases films.len(),
{
    if films.len() == 0 {
        0
    } else {
        count_rated_at_most(films.drop_last(), ceiling) + match films.last().rating {
            Some(r) => if r <= ceiling {
                1nat
            } else {
                0nat
            },
            None => 0nat,
        }
    }
}

pub open spec fn rating_sum(films: Seq<FilmRecord>) -> int
    decreases films.len(),
{
    if films.len() == 0 {
        0
    } else {
        rating_sum(films.drop_last()) + match films.last().rating {
            Some(r) => r as int,
            None => 0,
        }
    }
}

/// The features of a family the summary may list: contextual ones only
/// when portable.
pub open spec fn listed(a: FeatureAffinity, family: FeatureFamily) -> bool {
    a.key.family == family && (!family.contextual() || a.portability >= PORTABLE_CONTEXTUAL)
}

pub open spec fn family_affs(affs: Seq<FeatureAffinity>, family: FeatureFamily) -> Seq<FeatureAffinity>
    decreases affs.len(),
{
    if affs.len() == 0 {
        Seq::empty()
    } else {
        let r = family_affs(affs.drop_last(), family);
        if listed(affs.last(), family) {
            r.push(affs.last())
        } else {
            r
        }
    }
}

pub open spec fn first_stats(s: Seq<FeatureAffinity>) -> Seq<FeatureAffinity> {
    if s.len() > STATS_PER_FAMILY {
        s.take(STATS_PER_FAMILY as int)
    } else {
        s
    }
}

pub open spec fn stat_of(s: TasteStat, a: FeatureAffinity) -> bool {
    &&& s.label@ == a.key.name@
    &&& s.count == a.appearances
    &&& s.avg == round_tens(a.preference_mean as int, 1)
    &&& s.affinity == Some(round_tens(a.scoring_affinity_spec(), 1) as i128)
}

/// The listed features of a family, in profile order, at most sixteen.
pub open spec fn stats_match(stats: Seq<TasteStat>, affs: Seq<FeatureAffinity>, family: FeatureFamily) -> bool {
    let fs = first_stats(family_affs(affs, family));
    stats.len() == fs.len() && forall|i: int| 0 <= i < fs.len() ==> stat_of(#[trigger] stats[i], fs[i])
}

fn round_tens_i128(p: i128) -> (r: i128)
    requires
        -0x4000_0000_0000_0000_0000_0000_0000_0000 <= p <= 0x4000_0000_0000_0000_0000_0000_0000_0000,
    ensures
        r == round_tens(p as int, 1),
{
    if p >= 0 {
        (p + 5) / 10 * 10
    } else {
        -(((-p) + 5) / 10 * 10)
    }
}

fn stats_for(profile: Option<&FeatureProfile>, family: FeatureFamily) -> (out: Vec<TasteStat>)
    ensures
        profile.is_none() ==> out@.len() == 0,
        profile.is_some() ==> stats_match(out@, profile->0.affinities@, family),
{
    let mut out: Vec<TasteStat> = Vec::new();
    let p = match profile {
        Some(p) => p,
        None => {
            return out;
        },
    };
    let affs = &p.affinities;
    let ghost all = affs@;
    let mut i: usize = 0;
    while i < affs.len() && out.len() < STATS_PER_FAMILY
        invariant
            i <= affs.len(),
            all == affs@,
            out@.len() <= STATS_PER_FAMILY,
            out@.len() == first_stats(family_affs(all.take(i as int), family)).len(),
            out@.len() < STATS_PER_FAMILY ==> out@.len() == family_affs(all.take(i as int), family).len(),
            forall|k: int| 0 <= k < out@.len() ==> stat_of(#[trigger] out@[k], family_affs(all.take(i as int), family)[k]),
        decreases affs.len() - i,
    {
        let a = &affs[i];
        assert(all.take(i + 1).drop_last() =~= all.take(i as int));
        assert(all.take(i + 1).last() == a);
        let contextual = family.is_contextual();
        if a.key.family == family && (!contextual || a.portability >= PORTABLE_CONTEXTUAL as i32) {
            let ghost before = out@;
            let avg = round_tens_i128(a.preference_mean as i128) as i64;
            let aff = round_tens_i128(a.scoring_affinity());
            out.push(TasteStat { label: a.key.name.clone(), count: a.appearances, avg, affinity: Some(aff) });
            assert forall|k: int| 0 <= k < out@.len() implies stat_of(#[trigger] out@[k], family_affs(all.take(i + 1), family)[k]) by {
                if k < before.len() {
                    assert(out@[k] == before[k]);
                }
            }
        }
        i += 1;
    }
    proof {
        let fa = family_affs(all, family);
        if out@.len() < STATS_PER_FAMILY {
            assert(all.take(affs.len() as int) =~= all);
        } else {
            lemma_family_affs_prefix(all, family, i as int);
        }
        let _ = fa;
    }
    out
}

proof fn lemma_family_affs_prefix(affs: Seq<FeatureAffinity>, family: FeatureFamily, n: int)
    requires
        0 <= n <= affs.len(),
    ensures
        family_affs(affs.take(n), family).len() <= family_affs(affs, family).len(),
        forall|k: int|
            0 <= k < family_affs(affs.take(n), family).len() ==> family_affs(affs, family)[k]
                == family_affs(affs.take(n), family)[k],
    decreases affs.len() - n,
{
    if n < affs.len() {
        lemma_family_affs_prefix(affs, family, n + 1);
        assert(affs.take(n + 1).drop_last() =~= affs.take(n));
    } else {
        assert(affs.take(n) =~= affs);
    }
}

/// The summary of a library and, when there is one, its profile: the
/// rated, loved (4.5 stars up) and hated (2.5 stars down) counts, the mean
/// rating, and the first sixteen listed features of the genre, decade,
/// director, actor and cinematographer families.
pub fn snapshot_of(films: &[FilmRecord], profile: Option<&FeatureProfile>) -> (s: TasteSnapshot)
    requires
        films@.len() <= u32::MAX,
    ensures
        s.rated_count == rated_films(films@).len(),
        s.loved_count == count_rated_at_least(films@, LOVED_RATING as int),
        s.hated_count == count_rated_at_most(films@, HATED_RATING as int),
        rated_films(films@).len() == 0 ==> s.avg_rating.is_none(),
        rated_films(films@).len() > 0 ==> s.avg_rating == Some(
            round_tens(rating_sum(films@), rated_films(films@).len() as int) as i64,
        ),
        profile.is_none() ==> s.genres@.len() == 0 && s.decades@.len() == 0 && s.directors@.len() == 0
            && s.actors@.len() == 0 && s.cinematographers@.len() == 0,
        profile.is_some() ==> {
            let affs = profile->0.affinities@;
            &&& stats_match(s.genres@, affs, FeatureFamily::Genre)
            &&& stats_match(s.decades@, affs, FeatureFamily::Decade)
            &&& stats_match(s.directors@, affs, FeatureFamily::Director)
            &&& stats_match(s.actors@, affs, FeatureFamily::Actor)
            &&& stats_match(s.cinematographers@, affs, FeatureFamily::Cinematographer)
        },
{
    let mut rated: u32 = 0;
    let mut loved: u32 = 0;
    let mut hated: u32 = 0;
    let mut sum: i128 = 0;
    let mut i: usize = 0;
    while i < films.len()
        invariant
            i <= films.len(),
            films@.len() <= u32::MAX,
            rated == rated_films(films@.take(i as int)).len(),
            loved == count_rated_at_least(films@.take(i as int), LOVED_RATING as int),
            hated == count_rated_at_most(films@.take(i as int), HATED_RATING as int),
            sum == rating_sum(films@.take(i as int)),
            rated <= i,
            loved <= i,
            hated <= i,
            -0x8000_0000 * rated <= sum <= 0x8000_0000 * rated,
        decreases films.len() - i,
    {
        assert(films@.take(i + 1).drop_last() =~= films@.take(i as int));
        match films[i].rating {
            Some(r) => {
                rated += 1;
                if r >= LOVED_RATING {
                    loved += 1;
                }
                if r <= HATED_RATING {
                    hated += 1;
                }
                sum = sum + r as i128;
            },
            None => {},
        }
        i += 1;
    }
    assert(films@.take(films.len() as int) =~= films@);
    let avg_rating: Option<i64> = if rated == 0 {
        None
    } else {
        let q: i128 = rated as i128;
        let r: i128 = if sum >= 0 {
            let t: i128 = (sum + 5 * q) / (10 * q);
            assert(0 <= t <= 0x1000_0000) by (nonlinear_arith)
                requires
                    0 <= sum <= 0x8000_0000 * q,
                    q >= 1,
                    t == (sum + 5 * q) / (10 * q),
            ;
            t * 10
        } else {
            let t: i128 = ((-sum) + 5 * q) / (10 * q);
            assert(0 <= t <= 0x1000_0000) by (nonlinear_arith)
                requires
                    0 < -sum <= 0x8000_0000 * q,
                    q >= 1,
                    t == ((-sum) + 5 * q) / (10 * q),
            ;
            -(t * 10)
        };
        Some(r as i64)
    };
    TasteSnapshot {
        rated_count: rated,
        loved_count: loved,
        hated_count: hated,
        avg_rating,
        genres: stats_for(profile, FeatureFamily::Genre),
        decades: stats_for(profile, FeatureFamily::Decade),
        directors: stats_for(profile, FeatureFamily::Director),
        actors: stats_for(profile, FeatureFamily::Actor),
        cinematographers: stats_for(profile, FeatureFamily::Cinematographer),
    }
}

} // verus!
