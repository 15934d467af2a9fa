//! What the narrative model is shown of the library and the profile: a
//! sample of the rating history by band, the cited affinities and
//! aversions, and the contextual signals. Selections are positions in the
//! given lists; writing them out is left to the caller.
use vstd::prelude::*;
use crate::explain::{opt_lt, seq_less, seq_lt};
use crate::features::{FeatureAffinity, FeatureProfile};
use crate::picks::{ref_chars, tmdb_ref};
use crate::reason::{CandidateAssessment, CriticReport};
use crate::retrieve::FilmRecord;
use crate::score::{CandidateView, ScoredCandidate};
use crate::text::{chars_of, contains, contains_str, eq_ignore_ascii_case, eq_ignore_case, seq_eq, string_of};

verus! {

/// Ratings (thousandths of a star) of the history bands.
pub const FAVORITE_FLOOR: i32 = 4500;
pub const LIKED_FLOOR: i32 = 3500;
pub const MIXED_FLOOR: i32 = 2600;
pub const DISLIKED_CEILING: i32 = 2500;
/// Films sampled per band (mixed films: eight).
pub const BAND_SAMPLE: usize = 10;
pub const MIXED_SAMPLE: usize = 8;
/// Affinities shown, aversions shown, contextual signals shown.
pub const AFFINITIES_SHOWN: usize = 12;
pub const AVERSIONS_SHOWN: usize = 8;
pub const CONTEXTUAL_SHOWN: usize = 8;
/// Recommendation or preference mean (thousandths) past which a feature is
/// an affinity or an aversion.
pub const SHOWN_MEAN: i32 = 80;

/// Positions in the library of the films sampled for each band.
#[derive(Clone, Debug)]
pub struct HistorySample {
    pub favorites: Vec<usize>,
    pub liked: Vec<usize>,
    pub mixed: Vec<usize>,
    pub disliked: Vec<usize>,
}

pub open spec fn rating_or_zero(f: FilmRecord) -> int {
    match f.rating {
        Some(r) => r as int,
        None => 0,
    }
}

/// History order: higher rating first, then by TMDB id (missing first),
/// then by title.
pub open spec fn history_before(a: FilmRecord, b: FilmRecord) -> bool {
    let ra = rating_or_zero(a);
    let rb = rating_or_zero(b);
    ra > rb || (ra == rb && (opt_lt(a.tmdb_id, b.tmdb_id) || (a.tmdb_id == b.tmdb_id && seq_lt(
        a.title@,
        b.title@,
    ))))
}

/// The positions of the rated films, in library order.
pub open spec fn rated_positions(films: Seq<FilmRecord>, n: int) -> Seq<int>
    decreases n,
{
    if n <= 0 {
        Seq::empty()
    } else {
        let r = rated_positions(films, n - 1);
        if films[n - 1].rating.is_some() {
            r.push(n - 1)
        } else {
            r
        }
    }
}

pub open spec fn history_slot(films: Seq<FilmRecord>, s: Seq<int>, x: int, i: int) -> int
    decreases s.len() - i,
{
    if i >= s.len() || i < 0 || history_before(films[x], films[s[i]]) {
        i
    } else {
        history_slot(films, s, x, i + 1)
    }
}

/// The positions in history order (a stable sort).
pub open spec fn history_sort(films: Seq<FilmRecord>, s: Seq<int>) -> Seq<int>
    decreases s.len(),
{
    if s.len() == 0 {
        Seq::empty()
    } else {
        let r = history_sort(films, s.drop_last());
        r.insert(history_slot(films, r, s.last(), 0), s.last())
    }
}

pub open spec fn history_order(films: Seq<FilmRecord>) -> Seq<int> {
    history_sort(films, rated_positions(films, films.len() as int))
}

/// The positions whose rating lies in [lo, hi).
pub open spec fn in_band(films: Seq<FilmRecord>, s: Seq<int>, lo: int, hi: int) -> Seq<int>
    decreases s.len(),
{
    if s.len() == 0 {
        Seq::empty()
    } else {
        let r = in_band(films, s.drop_last(), lo, hi);
        let v = rating_or_zero(films[s.last()]);
        if lo <= v < hi {
            r.push(s.last())
        } else {
            r
        }
    }
}

pub open spec fn first_n(s: Seq<int>, n: int) -> Seq<int> {
    if s.len() > n {
        s.take(n)
    } else {
        s
    }
}

pub open spec fn usizes(v: Seq<usize>) -> Seq<int> {
    v.map_values(|x: usize| x as int)
}

fn history_first(a: &FilmRecord, b: &FilmRecord) -> (r: bool)
    ensures
        r == history_before(*a, *b),
{
    let ra: i32 = match a.rating {
        Some(r) => r,
        None => 0,
    };
    let rb: i32 = match b.rating {
        Some(r) => r,
        None => 0,
    };
    if ra != rb {
        return ra > rb;
    }
    let id_lt = match (a.tmdb_id, b.tmdb_id) {
        (None, Some(_)) => true,
        (Some(x), Some(y)) => x < y,
        _ => false,
    };
    if id_lt {
        return true;
    }
    if a.tmdb_id != b.tmdb_id {
        return false;
    }
    seq_less(&chars_of(a.title.as_str()), &chars_of(b.title.as_str()))
}

/// The rated films in history order.
fn history_positions(films: &[FilmRecord]) -> (out: Vec<usize>)
    ensures
        usizes(out@) == history_order(films@),
        forall|k: int| 0 <= k < out@.len() ==> (#[trigger] out@[k]) < films@.len(),
{
    let ghost fs = films@;
    let mut out: Vec<usize> = Vec::new();
    let mut i: usize = 0;
    while i < films.len()
        invariant
            i <= films.len(),
            fs == films@,
            usizes(out@) == history_sort(fs, rated_positions(fs, i as int)),
            forall|k: int| 0 <= k < out@.len() ==> (#[trigger] out@[k]) < i,
        decreases films.len() - i,
    {
        if films[i].rating.is_some() {
            let ghost r = usizes(out@);
            let mut p: usize = 0;
            while p < out.len() && !history_first(&films[i], &films[out[p]])
                invariant
                    p <= out@.len(),
                    fs == films@,
                    i < films.len(),
                    r == usizes(out@),
                    forall|k: int| 0 <= k < out@.len() ==> (#[trigger] out@[k]) < i,
                    history_slot(fs, r, i as int, 0) == history_slot(fs, r, i as int, p as int),
                decreases out@.len() - p,
            {
                assert(r[p as int] == out@[p as int] as int);
                p += 1;
            }
            proof {
                if p < out@.len() {
                    assert(r[p as int] == out@[p as int] as int);
                }
                assert(rated_positions(fs, i + 1).drop_last() == rated_positions(fs, i as int));
            }
            out.insert(p, i);
            assert(usizes(out@) =~= r.insert(p as int, i as int));
        }
        i += 1;
    }
    out
}

/// The positions of `order` whose rating lies in [lo, hi), at most `n`.
fn band_of(films: &[FilmRecord], order: &Vec<usize>, lo: i32, hi: i64, n: usize) -> (out: Vec<usize>)
    requires
        forall|k: int| 0 <= k < order@.len() ==> (#[trigger] order@[k]) < films@.len(),
    ensures
        usizes(out@) == first_n(in_band(films@, usizes(order@), lo as int, hi as int), n as int),
{
    let ghost ov = usizes(order@);
    let mut out: Vec<usize> = Vec::new();
    let mut i: usize = 0;
    while i < order.len() && out.len() < n
        invariant
            i <= order.len(),
            ov == usizes(order@),
            forall|k: int| 0 <= k < order@.len() ==> (#[trigger] order@[k]) < films@.len(),
            out@.len() <= n,
            usizes(out@) == first_n(in_band(films@, ov.take(i as int), lo as int, hi as int), n as int),
            out@.len() < n ==> usizes(out@) == in_band(films@, ov.take(i as int), lo as int, hi as int),
        decreases order.len() - i,
    {
        assert(ov.take(i + 1).drop_last() =~= ov.take(i as int));
        assert(ov.take(i + 1).last() == order@[i as int] as int);
        let f = &films[order[i]];
        let v: i64 = match f.rating {
            Some(r) => r as i64,
            None => 0,
        };
        if lo as i64 <= v && v < hi {
            let ghost before = usizes(out@);
            out.push(order[i]);
            assert(usizes(out@) =~= before.push(order@[i as int] as int));
        }
        i += 1;
    }
    proof {
        if out@.len() < n {
            assert(ov.take(order@.len() as int) =~= ov);
        } else {
            lemma_band_prefix(films@, ov, lo as int, hi as int, i as int);
            let full = in_band(films@, ov, lo as int, hi as int);
            let part = in_band(films@, ov.take(i as int), lo as int, hi as int);
            assert(first_n(part, n as int) =~= first_n(full, n as int));
        }
    }
    out
}

proof fn lemma_band_prefix(films: Seq<FilmRecord>, s: Seq<int>, lo: int, hi: int, m: int)
    requires
        0 <= m <= s.len(),
    ensures
        in_band(films, s.take(m), lo, hi).len() <= in_band(films, s, lo, hi).len(),
        forall|k: int|
            0 <= k < in_band(films, s.take(m), lo, hi).len() ==> in_band(films, s, lo, hi)[k]
                == in_band(films, s.take(m), lo, hi)[k],
    decreases s.len() - m,
{
    if m < s.len() {
        lemma_band_prefix(films, s, lo, hi, m + 1);
        assert(s.take(m + 1).drop_last() =~= s.take(m));
    } else {
        assert(s.take(m) =~= s);
    }
}

/// A sample of the rating history: the first ten favorites (4.5 stars up),
/// liked films (3.5 up to 4.5) and the first eight mixed ones (2.6 up to
/// 3.5) in history order, and the last ten disliked (2.5 down), lowest
/// first.
pub fn history_sample(films: &[FilmRecord]) -> (s: HistorySample)
    ensures
        usizes(s.favorites@) == first_n(
            in_band(films@, history_order(films@), FAVORITE_FLOOR as int, i32::MAX + 1),
            BAND_SAMPLE as int,
        ),
        usizes(s.liked@) == first_n(
            in_band(films@, history_order(films@), LIKED_FLOOR as int, FAVORITE_FLOOR as int),
            BAND_SAMPLE as int,
        ),
        usizes(s.mixed@) == first_n(
            in_band(films@, history_order(films@), MIXED_FLOOR as int, LIKED_FLOOR as int),
            MIXED_SAMPLE as int,
        ),
        usizes(s.disliked@) == first_n(
            in_band(films@, history_order(films@).reverse(), i32::MIN as int, DISLIKED_CEILING + 1),
            BAND_SAMPLE as int,
        ),
{
    let order = history_positions(films);
    let mut reversed: Vec<usize> = Vec::new();
    let mut k: usize = order.len();
    while k > 0
        invariant
            k <= order@.len(),
            forall|q: int| 0 <= q < order@.len() ==> (#[trigger] order@[q]) < films@.len(),
            reversed@.len() == order@.len() - k,
            forall|q: int| 0 <= q < reversed@.len() ==> (#[trigger] reversed@[q]) == order@[order@.len() - 1 - q],
            forall|q: int| 0 <= q < reversed@.len() ==> (#[trigger] reversed@[q]) < films@.len(),
        decreases k,
    {
        reversed.push(order[k - 1]);
        k -= 1;
    }
    assert(usizes(reversed@) =~= usizes(order@).reverse());
    HistorySample {
        favorites: band_of(films, &order, FAVORITE_FLOOR, i32::MAX as i64 + 1, BAND_SAMPLE),
        liked: band_of(films, &order, LIKED_FLOOR, FAVORITE_FLOOR as i64, BAND_SAMPLE),
        mixed: band_of(films, &order, MIXED_FLOOR, LIKED_FLOOR as i64, MIXED_SAMPLE),
        disliked: band_of(films, &reversed, i32::MIN, DISLIKED_CEILING as i64 + 1, BAND_SAMPLE),
    }
}

// ---------------------------------------------------------------------------
// Affinities shown
// ---------------------------------------------------------------------------

/// A cited feature shown as an affinity (recommended above 0.08) or as an
/// aversion (preferred below -0.08, or more against than for).
pub open spec fn shown(a: FeatureAffinity, positive: bool) -> bool {
    a.citeable_spec() && if positive {
        a.recommendation_mean > SHOWN_MEAN
    } else {
        a.preference_mean < -SHOWN_MEAN || a.negative_weight > a.positive_weight
    }
}

pub open spec fn shown_positions(affs: Seq<FeatureAffinity>, positive: bool, n: int) -> Seq<int>
    decreases n,
{
    if n <= 0 {
        Seq::empty()
    } else {
        let r = shown_positions(affs, positive, n - 1);
        if shown(affs[n - 1], positive) {
            r.push(n - 1)
        } else {
            r
        }
    }
}

pub open spec fn contextual_positions(affs: Seq<FeatureAffinity>, n: int) -> Seq<int>
    decreases n,
{
    if n <= 0 {
        Seq::empty()
    } else {
        let r = contextual_positions(affs, n - 1);
        if affs[n - 1].key.family.contextual() {
            r.push(n - 1)
        } else {
            r
        }
    }
}

/// The positions of the profile's affinities shown to the model: the first
/// twelve affinities, or the first eight aversions.
pub fn affinity_selection(profile: &FeatureProfile, positive: bool) -> (out: Vec<usize>)
    ensures
        usizes(out@) == first_n(
            shown_positions(profile.affinities@, positive, profile.affinities@.len() as int),
            if positive {
                AFFINITIES_SHOWN as int
            } else {
                AVERSIONS_SHOWN as int
            },
        ),
{
    let affs = &profile.affinities;
    let ghost all = affs@;
    let cap: usize = if positive {
        AFFINITIES_SHOWN
    } else {
        AVERSIONS_SHOWN
    };
    let mut out: Vec<usize> = Vec::new();
    let mut i: usize = 0;
    while i < affs.len() && out.len() < cap
        invariant
            i <= affs.len(),
            all == affs@,
            out@.len() <= cap,
            usizes(out@) == first_n(shown_positions(all, positive, i as int), cap as int),
            out@.len() < cap ==> usizes(out@) == shown_positions(all, positive, i as int),
        decreases affs.len() - i,
    {
        let a = &affs[i];
        let keep = a.citeable() && if positive {
            a.recommendation_mean > SHOWN_MEAN
        } else {
            a.preference_mean < -SHOWN_MEAN || a.negative_weight > a.positive_weight
        };
        if keep {
            let ghost before = usizes(out@);
            out.push(i);
            assert(usizes(out@) =~= before.push(i as int));
        }
        i += 1;
    }
    proof {
        if out@.len() >= cap {
            lemma_shown_prefix(all, positive, i as int, all.len() as int);
            assert(first_n(shown_positions(all, positive, i as int), cap as int) =~= first_n(
                shown_positions(all, positive, all.len() as int),
                cap as int,
            ));
        }
    }
    out
}

proof fn lemma_shown_prefix(affs: Seq<FeatureAffinity>, positive: bool, m: int, n: int)
    requires
        0 <= m <= n,
    ensures
        shown_positions(affs, positive, m).len() <= shown_positions(affs, positive, n).len(),
        forall|k: int|
            0 <= k < shown_positions(affs, positive, m).len() ==> shown_positions(affs, positive, n)[k]
                == shown_positions(affs, positive, m)[k],
    decreases n - m,
{
    if m < n {
        lemma_shown_prefix(affs, positive, m, n - 1);
    }
}

proof fn lemma_contextual_prefix(affs: Seq<FeatureAffinity>, m: int, n: int)
    requires
        0 <= m <= n,
    ensures
        contextual_positions(affs, m).len() <= contextual_positions(affs, n).len(),
        forall|k: int|
            0 <= k < contextual_positions(affs, m).len() ==> contextual_positions(affs, n)[k]
                == contextual_positions(affs, m)[k],
    decreases n - m,
{
    if m < n {
        lemma_contextual_prefix(affs, m, n - 1);
    }
}

/// The positions of the first eight contextual (decade and runtime)
/// affinities, shown as context rather than targets.
pub fn contextual_selection(profile: &FeatureProfile) -> (out: Vec<usize>)
    ensures
        usizes(out@) == first_n(
            contextual_positions(profile.affinities@, profile.affinities@.len() as int),
            CONTEXTUAL_SHOWN as int,
        ),
{
    let affs = &profile.affinities;
    let ghost all = affs@;
    let mut out: Vec<usize> = Vec::new();
    let mut i: usize = 0;
    while i < affs.len() && out.len() < CONTEXTUAL_SHOWN
        invariant
            i <= affs.len(),
            all == affs@,
            out@.len() <= CONTEXTUAL_SHOWN,
            usizes(out@) == first_n(contextual_positions(all, i as int), CONTEXTUAL_SHOWN as int),
            out@.len() < CONTEXTUAL_SHOWN ==> usizes(out@) == contextual_positions(all, i as int),
        decreases affs.len() - i,
    {
        if affs[i].key.family.is_contextual() {
            let ghost before = usizes(out@);
            out.push(i);
            assert(usizes(out@) =~= before.push(i as int));
        }
        i += 1;
    }
    proof {
        if out@.len() >= CONTEXTUAL_SHOWN {
            lemma_contextual_prefix(all, i as int, all.len() as int);
            assert(first_n(contextual_positions(all, i as int), CONTEXTUAL_SHOWN as int) =~= first_n(
                contextual_positions(all, all.len() as int),
                CONTEXTUAL_SHOWN as int,
            ));
        }
    }
    out
}

// ---------------------------------------------------------------------------
// Candidates shown
// ---------------------------------------------------------------------------

/// How a candidate is referred to: `"tmdb:{id}"`, or its title.
pub open spec fn candidate_ref(c: CandidateView) -> Seq<char> {
    match c.tmdb_id {
        Some(t) => tmdb_ref(t),
        None => c.title@,
    }
}

/// The reference of a candidate shown to the model.
pub fn candidate_id(c: &CandidateView) -> (s: String)
    ensures
        s@ == candidate_ref(*c),
{
    match c.tmdb_id {
        Some(t) => string_of(&ref_chars(t)),
        None => c.title.clone(),
    }
}

/// The critic's verdict names the candidate: by its reference, or by its
/// title up to ASCII case.
pub open spec fn verdict_names(a: CandidateAssessment, c: CandidateView) -> bool {
    a.id@ == candidate_ref(c) || eq_ignore_case(a.id@, c.title@)
}

pub open spec fn first_verdict(a: Seq<CandidateAssessment>, c: CandidateView, i: int) -> Option<int>
    decreases a.len() - i,
{
    if i >= a.len() || i < 0 {
        None
    } else if verdict_names(a[i], c) {
        Some(i)
    } else {
        first_verdict(a, c, i + 1)
    }
}

/// The position of the first critic verdict on the candidate.
pub fn critic_verdict(c: &CandidateView, critic: &CriticReport) -> (r: Option<usize>)
    ensures
        match r {
            Some(i) => first_verdict(critic.candidate_assessments@, *c, 0) == Some(i as int),
            None => first_verdict(critic.candidate_assessments@, *c, 0).is_none(),
        },
{
    let a = &critic.candidate_assessments;
    let id = chars_of(candidate_id(c).as_str());
    let title = chars_of(c.title.as_str());
    let mut i: usize = 0;
    while i < a.len()
        invariant
            i <= a.len(),
            a@ == critic.candidate_assessments@,
            id@ == candidate_ref(*c),
            title@ == c.title@,
            first_verdict(a@, *c, 0) == first_verdict(a@, *c, i as int),
        decreases a.len() - i,
    {
        let v = chars_of(a[i].id.as_str());
        if seq_eq(&v, &id) || eq_ignore_ascii_case(&v, &title) {
            return Some(i);
        }
        i += 1;
    }
    None
}

/// The candidate rests on limited evidence: a cited feature seen in at most
/// two films, or a display reason that says so.
pub open spec fn limited_evidence(s: ScoredCandidate) -> bool {
    (exists|i: int|
        0 <= i < s.matched_features@.len() && (#[trigger] s.matched_features@[i]).cited
            && s.matched_features@[i].appearances <= 2) || (exists|j: int|
        0 <= j < s.display_reasons@.len() && contains(
            (#[trigger] s.display_reasons@[j])@,
            "limited evidence"@,
        ))
}

pub fn evidence_limited(s: &ScoredCandidate) -> (b: bool)
    ensures
        b == limited_evidence(*s),
{
    let mut i: usize = 0;
    while i < s.matched_features.len()
        invariant
            i <= s.matched_features@.len(),
            forall|k: int|
                0 <= k < i ==> !((#[trigger] s.matched_features@[k]).cited
                    && s.matched_features@[k].appearances <= 2),
        decreases s.matched_features.len() - i,
    {
        if s.matched_features[i].cited && s.matched_features[i].appearances <= 2 {
            return true;
        }
        i += 1;
    }
    let mut j: usize = 0;
    while j < s.display_reasons.len()
        invariant
            j <= s.display_reasons@.len(),
            forall|k: int|
                0 <= k < s.matched_features@.len() ==> !((#[trigger] s.matched_features@[k]).cited
                    && s.matched_features@[k].appearances <= 2),
            forall|k: int|
                0 <= k < j ==> !contains((#[trigger] s.display_reasons@[k])@, "limited evidence"@),
        decreases s.display_reasons.len() - j,
    {
        if contains_str(&chars_of(s.display_reasons[j].as_str()), "limited evidence") {
            return true;
        }
        j += 1;
    }
    false
}


/// The film rated higher comes first in history order.
pub proof fn lemma_higher_rated_first(a: FilmRecord, b: FilmRecord)
    requires
        rating_or_zero(a) > rating_or_zero(b),
    ensures
        history_before(a, b),
        !history_before(b, a),
{
}

} // verus!
