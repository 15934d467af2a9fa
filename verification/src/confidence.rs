//! Match bands, board membership and ranking of scored candidates.
//!
//! The visible match percent is a blend of craft strength, evidence grade
//! and appearance count (computed where floating point is available) that
//! the rules below then cap and floor. Membership of the New board and the
//! reason a row was held back are decided here too.
//!
//! Several rules ask whether a film is dated in the future. The functions
//! that take `now_year` are exact; the ones without it read the clock and
//! state what holds for the year they read.
use vstd::prelude::*;
use chrono::Datelike;
use crate::explain::{EvidenceGrade, MatchedFeatureView};
use crate::features::{strength_of, strs, KeywordStrength};
use crate::retrieve::RetrievalKind;
use crate::score::{loved_rec_seeds, unique_loved_rec_seeds, ScoredCandidate, FEATURE_RUNTIME_MIN};
use crate::text::{
    ascii_lower, chars_of, contains, contains_str, eq_ignore_case, eq_str, lower_ascii,
};

verus! {

pub const MATCH_SCORE_FLOOR: u8 = 50;
/// The highest match percent; a larger blend counts as this.
pub const MATCH_SCORE_MAX: u8 = 100;
pub const NEW_MATCH_FLOOR: u8 = 70;
pub const RELATED_ONLY_CAP: u8 = 69;
pub const SINGLE_BRIDGE_CAP: u8 = 69;
pub const LIMITED_EVIDENCE_CAP: u8 = 69;
/// Temporary honesty cap: a strong unseen card cannot yet display 80%+.
pub const NON_WATCHLIST_BAND_CAP: u8 = 79;
pub const EXCELLENT_BAND: u8 = 90;
/// Craft affinity (thousandths) a person needs to count as portable.
pub const PORTABLE_AFFINITY_FLOOR: i32 = 180;
/// Films a person needs to count as portable.
pub const PORTABLE_APPEARANCES: u32 = 3;
/// Candidate fit (thousandths) that counts as a full specific match.
pub const FULL_FIT: i32 = 999;
/// Candidate fit (thousandths) that lets two loved seeds corroborate.
pub const MIXED_FIT: i32 = 650;

// ---------------------------------------------------------------------------
// Feature predicates
// ---------------------------------------------------------------------------

pub open spec fn is_craft_label(f: Seq<char>) -> bool {
    f == "director"@ || f == "writer"@ || f == "cinematographer"@ || f == "composer"@ || f
        == "actor"@
}

/// Director, writer, cinematographer or composer: a craft bridge.
pub open spec fn is_bridge_label(f: Seq<char>) -> bool {
    f == "director"@ || f == "writer"@ || f == "cinematographer"@ || f == "composer"@
}

pub open spec fn is_cited_craft(f: MatchedFeatureView) -> bool {
    f.cited && is_craft_label(f.family@)
}

/// A cited craft bridge with enough films and affinity to travel.
pub open spec fn is_portable_craft(f: MatchedFeatureView) -> bool {
    is_cited_craft(f) && is_bridge_label(f.family@) && f.appearances >= PORTABLE_APPEARANCES
        && f.scoring_affinity >= PORTABLE_AFFINITY_FLOOR
}

/// A cited director or cinematographer with enough films and affinity.
pub open spec fn is_direct_portable(f: MatchedFeatureView) -> bool {
    is_cited_craft(f) && (f.family@ == "director"@ || f.family@ == "cinematographer"@)
        && f.scoring_affinity >= PORTABLE_AFFINITY_FLOOR && f.appearances >= PORTABLE_APPEARANCES
}

pub open spec fn is_bridge(f: MatchedFeatureView) -> bool {
    is_cited_craft(f) && is_bridge_label(f.family@)
}

pub open spec fn is_strong_cited_keyword(f: MatchedFeatureView) -> bool {
    f.cited && f.family@ == "keyword"@ && strength_of(f.name@) == KeywordStrength::Strong
}

pub open spec fn count_portable(s: Seq<MatchedFeatureView>) -> nat
    decreases s.len(),
{
    if s.len() == 0 {
        0
    } else {
        count_portable(s.drop_last()) + if is_portable_craft(s.last()) {
            1nat
        } else {
            0nat
        }
    }
}

pub open spec fn count_bridges(s: Seq<MatchedFeatureView>) -> nat
    decreases s.len(),
{
    if s.len() == 0 {
        0
    } else {
        count_bridges(s.drop_last()) + if is_bridge(s.last()) {
            1nat
        } else {
            0nat
        }
    }
}

fn family_is(f: &MatchedFeatureView, lit: &str) -> (b: bool)
    ensures
        b == (f.family@ == lit@),
{
    let v = chars_of(f.family.as_str());
    eq_str(&v, lit)
}

fn craft_label(f: &MatchedFeatureView) -> (b: bool)
    ensures
        b == is_craft_label(f.family@),
{
    family_is(f, "director") || family_is(f, "writer") || family_is(f, "cinematographer")
        || family_is(f, "composer") || family_is(f, "actor")
}

fn bridge_label(f: &MatchedFeatureView) -> (b: bool)
    ensures
        b == is_bridge_label(f.family@),
{
    family_is(f, "director") || family_is(f, "writer") || family_is(f, "cinematographer")
        || family_is(f, "composer")
}

fn portable_craft(f: &MatchedFeatureView) -> (b: bool)
    ensures
        b == is_portable_craft(*f),
{
    f.cited && craft_label(f) && bridge_label(f) && f.appearances >= PORTABLE_APPEARANCES
        && f.scoring_affinity >= PORTABLE_AFFINITY_FLOOR
}

// ---------------------------------------------------------------------------
// Candidate predicates (specifications)
// ---------------------------------------------------------------------------

/// Every cited craft person rests on two films or fewer (or none is cited).
pub open spec fn limited_spec(c: &ScoredCandidate) -> bool {
    !(exists|i: int|
        0 <= i < c.matched_features.len() && is_cited_craft(#[trigger] c.matched_features@[i])
            && c.matched_features@[i].appearances > 2)
}

pub open spec fn direct_portable_spec(c: &ScoredCandidate) -> bool {
    exists|i: int|
        0 <= i < c.matched_features.len() && is_direct_portable(#[trigger] c.matched_features@[i])
}

pub open spec fn strong_keyword_spec(c: &ScoredCandidate) -> bool {
    exists|i: int|
        0 <= i < c.matched_features.len() && is_strong_cited_keyword(
            #[trigger] c.matched_features@[i],
        )
}

/// Two portable craft people, or one plus a strong cited keyword.
pub open spec fn new_corroboration_spec(c: &ScoredCandidate) -> bool {
    let n = count_portable(c.matched_features@);
    n >= 2 || (n >= 1 && strong_keyword_spec(c))
}

pub open spec fn has_kind(c: &ScoredCandidate, k: RetrievalKind) -> bool {
    exists|i: int| 0 <= i < c.candidate.sources.len() && (#[trigger] c.candidate.sources@[i]).kind == k
}

pub open spec fn any_related_spec(c: &ScoredCandidate) -> bool {
    exists|i: int|
        0 <= i < c.candidate.sources.len() && (#[trigger] c.candidate.sources@[i]).kind.related()
}

pub open spec fn all_related_spec(c: &ScoredCandidate) -> bool {
    forall|i: int|
        0 <= i < c.candidate.sources.len() ==> (#[trigger] c.candidate.sources@[i]).kind.related()
}

pub open spec fn all_filmography_spec(c: &ScoredCandidate) -> bool {
    forall|i: int|
        0 <= i < c.candidate.sources.len() ==> (#[trigger] c.candidate.sources@[i]).kind
            == RetrievalKind::Filmography
}

pub open spec fn related_only_spec(c: &ScoredCandidate) -> bool {
    !c.candidate.watchlist && c.candidate.sources.len() > 0 && all_related_spec(c) && !(has_kind(
        c,
        RetrievalKind::RelatedRecommendations,
    ) && new_corroboration_spec(c))
}

pub open spec fn filmography_only_spec(c: &ScoredCandidate) -> bool {
    !c.candidate.watchlist && c.candidate.sources.len() > 0 && all_filmography_spec(c)
}

pub open spec fn kids_genre(g: Seq<char>) -> bool {
    let l = ascii_lower(g);
    l == "animation"@ || l == "family"@ || contains(l, "kid"@) || l == "tv movie"@
}

pub open spec fn kids_or_animation_spec(c: &ScoredCandidate) -> bool {
    exists|i: int| 0 <= i < c.candidate.genres.len() && kids_genre(#[trigger] c.candidate.genres@[i]@)
}

pub open spec fn tv_movie_spec(c: &ScoredCandidate) -> bool {
    exists|i: int|
        0 <= i < c.candidate.genres.len() && eq_ignore_case(
            #[trigger] c.candidate.genres@[i]@,
            "tv movie"@,
        )
}

pub open spec fn catalog_proof_spec(c: &ScoredCandidate) -> bool {
    (match c.candidate.runtime {
        Some(rt) => rt >= FEATURE_RUNTIME_MIN,
        None => false,
    }) || (match c.candidate.vote_count {
        Some(n) => n >= 1,
        None => false,
    })
}

pub open spec fn stub_spec(c: &ScoredCandidate) -> bool {
    c.candidate.year.is_none() && !catalog_proof_spec(c)
}

pub open spec fn future_dated_spec(c: &ScoredCandidate, now_year: i32) -> bool {
    match c.candidate.year {
        Some(y) => y > now_year,
        None => false,
    }
}

pub open spec fn unreleased_display_spec(c: &ScoredCandidate, now_year: i32) -> bool {
    !c.candidate.watchlist && (future_dated_spec(c, now_year) || stub_spec(c))
}

pub open spec fn unreleased_new_spec(c: &ScoredCandidate, now_year: i32) -> bool {
    !c.candidate.watchlist && (unreleased_display_spec(c, now_year) || (c.candidate.year.is_none()
        && filmography_only_spec(c)))
}

pub open spec fn qualifying_spec(c: &ScoredCandidate, now_year: i32) -> bool {
    has_kind(c, RetrievalKind::Filmography) && direct_portable_spec(c)
        && c.eligibility.candidate_fit >= FULL_FIT && !unreleased_new_spec(c, now_year)
        && !tv_movie_spec(c) && !kids_or_animation_spec(c) && new_corroboration_spec(c)
}

pub open spec fn mixed_spec(c: &ScoredCandidate) -> bool {
    !filmography_only_spec(c) && (loved_rec_seeds(c) >= 3 || (loved_rec_seeds(c) >= 2
        && c.eligibility.evidence_grade.rank_spec() >= 3 && c.eligibility.candidate_fit
        >= MIXED_FIT))
}

pub open spec fn single_bridge_spec(c: &ScoredCandidate, now_year: i32) -> bool {
    filmography_only_spec(c) && count_bridges(c.matched_features@) < 2 && !qualifying_spec(
        c,
        now_year,
    )
}

pub open spec fn neighbor_floor_spec(c: &ScoredCandidate) -> u8 {
    if c.candidate.watchlist || kids_or_animation_spec(c) {
        0
    } else {
        let n = loved_rec_seeds(c);
        if n >= 6 {
            66
        } else if n == 5 {
            64
        } else if n == 4 {
            62
        } else if n == 3 {
            58
        } else if n == 2 {
            52
        } else {
            0
        }
    }
}

pub open spec fn independent_bridge_spec(c: &ScoredCandidate, now_year: i32) -> bool {
    if has_kind(c, RetrievalKind::Filmography) {
        qualifying_spec(c, now_year) || new_corroboration_spec(c) || mixed_spec(c)
    } else {
        true
    }
}

pub open spec fn occupies_new_spec(c: &ScoredCandidate, now_year: i32) -> bool {
    !c.candidate.watchlist && c.eligibility.evidence_grade.displayable_spec()
        && !unreleased_new_spec(c, now_year) && !tv_movie_spec(c) && independent_bridge_spec(
        c,
        now_year,
    ) && !single_bridge_spec(c, now_year)
}

pub open spec fn min_u8(a: u8, b: u8) -> u8 {
    if a <= b {
        a
    } else {
        b
    }
}

pub open spec fn max_u8(a: u8, b: u8) -> u8 {
    if a >= b {
        a
    } else {
        b
    }
}

/// The visible match percent for a blended percent `blend` (at most 100): lifted to the
/// neighbour floor, then capped by every honesty rule, then floored at 70 for
/// a qualifying director/DP filmography row.
pub open spec fn capped_score_spec(c: &ScoredCandidate, now_year: i32, blend: u8) -> u8 {
    let s0 = max_u8(min_u8(blend, MATCH_SCORE_MAX), neighbor_floor_spec(c));
    let s1 = if related_only_spec(c) {
        min_u8(s0, RELATED_ONLY_CAP)
    } else {
        s0
    };
    let s2 = if single_bridge_spec(c, now_year) {
        min_u8(s1, SINGLE_BRIDGE_CAP)
    } else {
        s1
    };
    let s3 = if has_kind(c, RetrievalKind::Filmography) && any_related_spec(c)
        && !qualifying_spec(c, now_year) && !mixed_spec(c) && !c.candidate.watchlist {
        min_u8(s2, SINGLE_BRIDGE_CAP)
    } else {
        s2
    };
    let s4 = if limited_spec(c) {
        min_u8(s3, LIMITED_EVIDENCE_CAP)
    } else {
        s3
    };
    let s5 = if !c.candidate.watchlist && kids_or_animation_spec(c) {
        min_u8(s4, RELATED_ONLY_CAP)
    } else {
        s4
    };
    let s6 = if !c.candidate.watchlist && has_kind(c, RetrievalKind::Filmography)
        && !new_corroboration_spec(c) && !mixed_spec(c) {
        min_u8(s5, RELATED_ONLY_CAP)
    } else {
        s5
    };
    let s7 = if !c.candidate.watchlist {
        min_u8(s6, NON_WATCHLIST_BAND_CAP)
    } else {
        s6
    };
    if qualifying_spec(c, now_year) {
        max_u8(s7, NEW_MATCH_FLOOR)
    } else {
        s7
    }
}

pub open spec fn short_runtime_spec(c: &ScoredCandidate) -> bool {
    match c.candidate.runtime {
        Some(rt) => 1 <= rt < FEATURE_RUNTIME_MIN,
        None => false,
    }
}

pub open spec fn shown_spec(c: &ScoredCandidate, now_year: i32) -> bool {
    (c.candidate.watchlist && c.eligibility.passed
        && c.eligibility.evidence_grade.displayable_spec()) || (!c.candidate.watchlist
        && occupies_new_spec(c, now_year))
}

/// Why a ranked row did not occupy a board; `None` for displayed rows.
pub open spec fn filter_reason_spec(c: &ScoredCandidate, now_year: i32) -> Option<Seq<char>> {
    if shown_spec(c, now_year) {
        None
    } else if short_runtime_spec(c) {
        Some("short-runtime"@)
    } else if future_dated_spec(c, now_year) {
        Some("unreleased"@)
    } else if stub_spec(c) {
        Some("incomplete-metadata"@)
    } else if unreleased_new_spec(c, now_year) {
        Some("unreleased"@)
    } else if single_bridge_spec(c, now_year) {
        Some("filmography-only"@)
    } else if !c.eligibility.passed || !c.eligibility.evidence_grade.displayable_spec() {
        Some("weak-evidence"@)
    } else {
        Some("held"@)
    }
}

pub open spec fn placement_spec(c: &ScoredCandidate, now_year: i32) -> Seq<char> {
    if c.candidate.watchlist {
        "watchlist"@
    } else if occupies_new_spec(c, now_year) {
        "new"@
    } else {
        "held"@
    }
}


// ---------------------------------------------------------------------------
// The clock
// ---------------------------------------------------------------------------

#[verifier::external_type_specification]
#[verifier::external_body]
pub struct ExSystemTime(std::time::SystemTime);

/// std `SystemTime::now`: the system clock's reading. It depends on the
/// clock, so nothing is promised of it.
#[verifier::external_body]
fn clock_now() -> (t: std::time::SystemTime) {
    std::time::SystemTime::now()
}

/// std `SystemTime::duration_since(UNIX_EPOCH)`, as whole seconds and
/// nanoseconds: `Ok` for a time at or after the epoch, `Err` with the
/// distance for one before it. It depends on the time given, and the clock
/// behind it, so nothing is promised of it.
#[verifier::external_body]
fn since_epoch(t: std::time::SystemTime) -> (r: Result<(u64, u32), (u64, u32)>) {
    match t.duration_since(std::time::UNIX_EPOCH) {
        Ok(d) => Ok((d.as_secs(), d.subsec_nanos())),
        Err(e) => Err((e.duration().as_secs(), e.duration().subsec_nanos())),
    }
}

/// The UTC calendar year chrono gives for a count of seconds since the
/// Unix epoch.
pub uninterp spec fn utc_year(secs: i64) -> Option<i32>;

/// chrono `DateTime::from_timestamp(secs, 0)` and its `Datelike::year`:
/// the UTC year of that instant, `None` outside chrono's range of dates.
/// The result depends on `secs` alone.
#[verifier::external_body]
fn year_of_timestamp(secs: i64) -> (y: Option<i32>)
    ensures
        y == utc_year(secs),
{
    match chrono::DateTime::from_timestamp(secs, 0) {
        Some(d) => Some(d.year()),
        None => None,
    }
}

/// The year used when the clock's year cannot be read: no film is then
/// dated after it.
pub open spec fn year_read(y: Option<i32>) -> i32 {
    match y {
        Some(v) => v,
        None => i32::MAX,
    }
}

/// The current UTC year: the year of the clock's reading, in whole seconds
/// (rounded down) since the Unix epoch, before or after it. `None` when the
/// reading lies outside what chrono dates. Two calls may differ.
pub(crate) fn current_year() -> (y: Option<i32>)
    ensures
        y is Some ==> exists|secs: i64| utc_year(secs) == y,
{
    let secs: Option<i64> = match since_epoch(clock_now()) {
        Ok((s, _)) => if s <= i64::MAX as u64 {
            Some(s as i64)
        } else {
            None
        },
        Err((s, n)) => if s < i64::MAX as u64 {
            if n > 0 {
                Some(-(s as i64) - 1)
            } else {
                Some(-(s as i64))
            }
        } else {
            None
        },
    };
    match secs {
        Some(t) => year_of_timestamp(t),
        None => None,
    }
}

/// The year the clock-reading functions judge by: the current year, or,
/// when it cannot be read, one after which no film is dated.
pub(crate) fn judged_year() -> (y: i32)
    ensures
        exists|r: Option<i32>| y == year_read(r),
{
    let r = current_year();
    let y = match r {
        Some(v) => v,
        None => i32::MAX,
    };
    assert(y == year_read(r));
    y
}

// ---------------------------------------------------------------------------
// Candidate predicates (implementations)
// ---------------------------------------------------------------------------

fn is_limited_evidence(c: &ScoredCandidate) -> (b: bool)
    ensures
        b == limited_spec(c),
{
    let m = &c.matched_features;
    let mut i: usize = 0;
    while i < m.len()
        invariant
            i <= m.len(),
            m == &c.matched_features,
            forall|k: int| 0 <= k < i ==> !(is_cited_craft(#[trigger] m@[k]) && m@[k].appearances > 2),
        decreases m.len() - i,
    {
        if m[i].cited && craft_label(&m[i]) && m[i].appearances > 2 {
            return false;
        }
        i += 1;
    }
    true
}

fn has_direct_portable_director_or_dp(c: &ScoredCandidate) -> (b: bool)
    ensures
        b == direct_portable_spec(c),
{
    let m = &c.matched_features;
    let mut i: usize = 0;
    while i < m.len()
        invariant
            i <= m.len(),
            m == &c.matched_features,
            forall|k: int| 0 <= k < i ==> !is_direct_portable(#[trigger] m@[k]),
        decreases m.len() - i,
    {
        let f = &m[i];
        if f.cited && craft_label(f) && (family_is(f, "director") || family_is(f, "cinematographer"))
            && f.scoring_affinity >= PORTABLE_AFFINITY_FLOOR && f.appearances
            >= PORTABLE_APPEARANCES {
            assert(is_direct_portable(m@[i as int]));
            return true;
        }
        i += 1;
    }
    false
}

fn has_strong_cited_keyword(c: &ScoredCandidate) -> (b: bool)
    ensures
        b == strong_keyword_spec(c),
{
    let m = &c.matched_features;
    let mut i: usize = 0;
    while i < m.len()
        invariant
            i <= m.len(),
            m == &c.matched_features,
            forall|k: int| 0 <= k < i ==> !is_strong_cited_keyword(#[trigger] m@[k]),
        decreases m.len() - i,
    {
        let f = &m[i];
        if f.cited && family_is(f, "keyword") && crate::features::keyword_strength(f.name.as_str())
            == KeywordStrength::Strong {
            assert(is_strong_cited_keyword(m@[i as int]));
            return true;
        }
        i += 1;
    }
    false
}

fn portable_craft_count(c: &ScoredCandidate) -> (n: usize)
    ensures
        n == count_portable(c.matched_features@),
{
    let m = &c.matched_features;
    let mut n: usize = 0;
    let mut i: usize = 0;
    while i < m.len()
        invariant
            i <= m.len(),
            m == &c.matched_features,
            n == count_portable(m@.take(i as int)),
            n <= i,
        decreases m.len() - i,
    {
        assert(m@.take((i + 1) as int).drop_last() =~= m@.take(i as int));
        if portable_craft(&m[i]) {
            n += 1;
        }
        i += 1;
    }
    assert(m@.take(m.len() as int) =~= m@);
    n
}

/// Cited director, writer, cinematographer and composer features.
fn qualified_bridge_count(c: &ScoredCandidate) -> (n: usize)
    ensures
        n == count_bridges(c.matched_features@),
{
    let m = &c.matched_features;
    let mut n: usize = 0;
    let mut i: usize = 0;
    while i < m.len()
        invariant
            i <= m.len(),
            m == &c.matched_features,
            n == count_bridges(m@.take(i as int)),
            n <= i,
        decreases m.len() - i,
    {
        assert(m@.take((i + 1) as int).drop_last() =~= m@.take(i as int));
        if m[i].cited && craft_label(&m[i]) && bridge_label(&m[i]) {
            n += 1;
        }
        i += 1;
    }
    assert(m@.take(m.len() as int) =~= m@);
    n
}

/// New needs more than "this DP/director is on the crew": a second portable
/// craft person, or one plus a strong cited keyword such as neo-noir.
fn has_new_corroboration(c: &ScoredCandidate) -> (b: bool)
    ensures
        b == new_corroboration_spec(c),
{
    let n = portable_craft_count(c);
    n >= 2 || (n >= 1 && has_strong_cited_keyword(c))
}

pub(crate) fn has_source_kind(c: &ScoredCandidate, k: RetrievalKind) -> (b: bool)
    ensures
        b == has_kind(c, k),
{
    let s = &c.candidate.sources;
    let mut i: usize = 0;
    while i < s.len()
        invariant
            i <= s.len(),
            s == &c.candidate.sources,
            forall|j: int| 0 <= j < i ==> (#[trigger] s@[j]).kind != k,
        decreases s.len() - i,
    {
        if s[i].kind == k {
            return true;
        }
        i += 1;
    }
    false
}

fn has_related_source(c: &ScoredCandidate) -> (b: bool)
    ensures
        b == any_related_spec(c),
{
    let s = &c.candidate.sources;
    let mut i: usize = 0;
    while i < s.len()
        invariant
            i <= s.len(),
            s == &c.candidate.sources,
            forall|j: int| 0 <= j < i ==> !(#[trigger] s@[j]).kind.related(),
        decreases s.len() - i,
    {
        if s[i].kind.is_related() {
            return true;
        }
        i += 1;
    }
    false
}

fn all_sources_related(c: &ScoredCandidate) -> (b: bool)
    ensures
        b == all_related_spec(c),
{
    let s = &c.candidate.sources;
    let mut i: usize = 0;
    while i < s.len()
        invariant
            i <= s.len(),
            s == &c.candidate.sources,
            forall|j: int| 0 <= j < i ==> (#[trigger] s@[j]).kind.related(),
        decreases s.len() - i,
    {
        if !s[i].kind.is_related() {
            return false;
        }
        i += 1;
    }
    true
}

fn all_sources_filmography(c: &ScoredCandidate) -> (b: bool)
    ensures
        b == all_filmography_spec(c),
{
    let s = &c.candidate.sources;
    let mut i: usize = 0;
    while i < s.len()
        invariant
            i <= s.len(),
            s == &c.candidate.sources,
            forall|j: int| 0 <= j < i ==> (#[trigger] s@[j]).kind == RetrievalKind::Filmography,
        decreases s.len() - i,
    {
        if s[i].kind != RetrievalKind::Filmography {
            return false;
        }
        i += 1;
    }
    true
}

/// Evidence is thin: every cited craft person rests on two films or fewer.
pub fn thin_evidence(c: &ScoredCandidate) -> (b: bool)
    ensures
        b == limited_spec(c),
{
    is_limited_evidence(c)
}

/// A non-watchlist row that arrived only as a related neighbour, unless TMDB
/// recommendations are corroborated by craft.
pub fn related_only(c: &ScoredCandidate) -> (b: bool)
    ensures
        b == related_only_spec(c),
{
    if c.candidate.watchlist || c.candidate.sources.len() == 0 {
        return false;
    }
    if !all_sources_related(c) {
        return false;
    }
    if has_source_kind(c, RetrievalKind::RelatedRecommendations) && has_new_corroboration(c) {
        return false;
    }
    true
}

/// A non-watchlist row that arrived only through filmographies.
pub fn filmography_only(c: &ScoredCandidate) -> (b: bool)
    ensures
        b == filmography_only_spec(c),
{
    if c.candidate.watchlist || c.candidate.sources.len() == 0 {
        return false;
    }
    all_sources_filmography(c)
}

fn kids_or_animation(c: &ScoredCandidate) -> (b: bool)
    ensures
        b == kids_or_animation_spec(c),
{
    let g = &c.candidate.genres;
    let mut i: usize = 0;
    while i < g.len()
        invariant
            i <= g.len(),
            g == &c.candidate.genres,
            forall|k: int| 0 <= k < i ==> !kids_genre(#[trigger] g@[k]@),
        decreases g.len() - i,
    {
        let v = chars_of(g[i].as_str());
        let l = lower_ascii(&v);
        if eq_str(&l, "animation") || eq_str(&l, "family") || contains_str(&l, "kid") || eq_str(
            &l,
            "tv movie",
        ) {
            assert(kids_genre(g@[i as int]@));
            return true;
        }
        i += 1;
    }
    false
}

fn tv_movie(c: &ScoredCandidate) -> (b: bool)
    ensures
        b == tv_movie_spec(c),
{
    let g = &c.candidate.genres;
    let tv = chars_of("tv movie");
    let mut i: usize = 0;
    while i < g.len()
        invariant
            i <= g.len(),
            g == &c.candidate.genres,
            tv@ == "tv movie"@,
            forall|k: int| 0 <= k < i ==> !eq_ignore_case(#[trigger] g@[k]@, "tv movie"@),
        decreases g.len() - i,
    {
        let v = chars_of(g[i].as_str());
        if crate::text::eq_ignore_ascii_case(&v, &tv) {
            return true;
        }
        i += 1;
    }
    false
}

fn has_catalog_proof(c: &ScoredCandidate) -> (b: bool)
    ensures
        b == catalog_proof_spec(c),
{
    (match c.candidate.runtime {
        Some(rt) => rt >= FEATURE_RUNTIME_MIN,
        None => false,
    }) || (match c.candidate.vote_count {
        Some(n) => n >= 1,
        None => false,
    })
}

fn incomplete_metadata_stub(c: &ScoredCandidate) -> (b: bool)
    ensures
        b == stub_spec(c),
{
    c.candidate.year.is_none() && !has_catalog_proof(c)
}

fn future_dated_at(c: &ScoredCandidate, now_year: i32) -> (b: bool)
    ensures
        b == future_dated_spec(c, now_year),
{
    match c.candidate.year {
        Some(y) => y > now_year,
        None => false,
    }
}

/// Future-dated or yearless stubs with no catalog proof stay off New;
/// watchlist titles are never held back for this.
pub fn unreleased_display_row_at(c: &ScoredCandidate, now_year: i32) -> (b: bool)
    ensures
        b == unreleased_display_spec(c, now_year),
{
    if c.candidate.watchlist {
        return false;
    }
    future_dated_at(c, now_year) || incomplete_metadata_stub(c)
}

/// [`unreleased_display_row_at`] for the current year (see [`current_year`]; when it cannot be read,
/// no film counts as dated after it).
pub fn unreleased_display_row(c: &ScoredCandidate) -> (b: bool)
    ensures
        exists|y: Option<i32>| b == unreleased_display_spec(c, year_read(y)),
{
    unreleased_display_row_at(c, judged_year())
}

/// Year-less filmography stubs stay off New even when runtime/votes exist.
pub fn unreleased_new_row_at(c: &ScoredCandidate, now_year: i32) -> (b: bool)
    ensures
        b == unreleased_new_spec(c, now_year),
{
    if c.candidate.watchlist {
        return false;
    }
    unreleased_display_row_at(c, now_year) || (c.candidate.year.is_none() && filmography_only(c))
}

/// [`unreleased_new_row_at`] for the current year (see [`current_year`]; when it cannot be read,
/// no film counts as dated after it).
pub fn unreleased_new_row(c: &ScoredCandidate) -> (b: bool)
    ensures
        exists|y: Option<i32>| b == unreleased_new_spec(c, year_read(y)),
{
    unreleased_new_row_at(c, judged_year())
}

fn qualifying_director_dp_filmography(c: &ScoredCandidate, now_year: i32) -> (b: bool)
    ensures
        b == qualifying_spec(c, now_year),
{
    has_source_kind(c, RetrievalKind::Filmography) && has_direct_portable_director_or_dp(c)
        && c.eligibility.candidate_fit >= FULL_FIT && !unreleased_new_row_at(c, now_year)
        && !tv_movie(c) && !kids_or_animation(c) && has_new_corroboration(c)
}

/// Several distinct loved recommendation seeds can corroborate a filmography lead.
pub fn mixed_recommendation_corroboration(c: &ScoredCandidate) -> (b: bool)
    ensures
        b == mixed_spec(c),
{
    if filmography_only(c) {
        return false;
    }
    let seeds = unique_loved_rec_seeds(c);
    seeds >= 3 || (seeds >= 2 && c.eligibility.evidence_grade.rank() >= 3
        && c.eligibility.candidate_fit >= MIXED_FIT)
}

/// A résumé row: filmography only, fewer than two craft bridges, and not a
/// qualifying director/DP filmography.
pub fn filmography_single_bridge_at(c: &ScoredCandidate, now_year: i32) -> (b: bool)
    ensures
        b == single_bridge_spec(c, now_year),
{
    filmography_only(c) && qualified_bridge_count(c) < 2 && !qualifying_director_dp_filmography(
        c,
        now_year,
    )
}

/// [`filmography_single_bridge_at`] for the current year (see [`current_year`]; when it cannot be read,
/// no film counts as dated after it).
pub fn filmography_single_bridge(c: &ScoredCandidate) -> (b: bool)
    ensures
        exists|y: Option<i32>| b == single_bridge_spec(c, year_read(y)),
{
    filmography_single_bridge_at(c, judged_year())
}

/// TMDB recommendations from several loved films are a real neighbour
/// signal: 52/58/62/64/66 for 2/3/4/5/6+ seeds, none for one seed.
fn recommendation_neighbor_floor(c: &ScoredCandidate) -> (f: u8)
    ensures
        f == neighbor_floor_spec(c),
{
    if c.candidate.watchlist || kids_or_animation(c) {
        return 0;
    }
    let n = unique_loved_rec_seeds(c);
    if n >= 6 {
        66
    } else if n == 5 {
        64
    } else if n == 4 {
        62
    } else if n == 3 {
        58
    } else if n == 2 {
        52
    } else {
        0
    }
}

/// Résumé filmography still needs a director/DP or corroboration; rows
/// without a filmography source always have an independent bridge.
pub fn has_independent_new_bridge_at(c: &ScoredCandidate, now_year: i32) -> (b: bool)
    ensures
        b == independent_bridge_spec(c, now_year),
{
    if has_source_kind(c, RetrievalKind::Filmography) {
        return qualifying_director_dp_filmography(c, now_year) || has_new_corroboration(c)
            || mixed_recommendation_corroboration(c);
    }
    true
}

/// [`has_independent_new_bridge_at`] for the current year (see [`current_year`]; when it cannot be read,
/// no film counts as dated after it).
pub fn has_independent_new_bridge(c: &ScoredCandidate) -> (b: bool)
    ensures
        exists|y: Option<i32>| b == independent_bridge_spec(c, year_read(y)),
{
    has_independent_new_bridge_at(c, judged_year())
}

/// Membership of the New board.
pub fn occupies_new_at(c: &ScoredCandidate, now_year: i32) -> (b: bool)
    ensures
        b == occupies_new_spec(c, now_year),
{
    !c.candidate.watchlist && c.eligibility.evidence_grade.displayable()
        && !unreleased_new_row_at(c, now_year) && !tv_movie(c) && has_independent_new_bridge_at(
        c,
        now_year,
    ) && !filmography_single_bridge_at(c, now_year)
}

/// [`occupies_new_at`] for the current year (see [`current_year`]; when it cannot be read,
/// no film counts as dated after it).
pub fn occupies_new(c: &ScoredCandidate) -> (b: bool)
    ensures
        exists|y: Option<i32>| b == occupies_new_spec(c, year_read(y)),
{
    occupies_new_at(c, judged_year())
}

/// Explore is folded into New: no row occupies it.
pub fn occupies_explore(c: &ScoredCandidate) -> (b: bool)
    ensures
        !b,
{
    false
}

/// A weak filmography résumé is a single-bridge filmography row.
pub fn weak_filmography_resume_at(c: &ScoredCandidate, now_year: i32) -> (b: bool)
    ensures
        b == single_bridge_spec(c, now_year),
{
    filmography_single_bridge_at(c, now_year)
}

/// [`weak_filmography_resume_at`] for the current year (see [`current_year`]; when it cannot be read,
/// no film counts as dated after it).
pub fn weak_filmography_resume(c: &ScoredCandidate) -> (b: bool)
    ensures
        exists|y: Option<i32>| b == single_bridge_spec(c, year_read(y)),
{
    weak_filmography_resume_at(c, judged_year())
}

fn lit_string(s: &str) -> (r: String)
    ensures
        r@ == s@,
{
    let v = chars_of(s);
    crate::text::string_of(&v)
}

/// Why a ranked row did not occupy a board. Watchlist rows that passed with
/// a displayable grade and New members are `None`.
pub fn filter_reason_at(c: &ScoredCandidate, now_year: i32) -> (r: Option<String>)
    ensures
        r.is_none() == filter_reason_spec(c, now_year).is_none(),
        r.is_some() ==> r.unwrap()@ == filter_reason_spec(c, now_year).unwrap(),
{
    let short_runtime = match c.candidate.runtime {
        Some(rt) => 1 <= rt && rt < FEATURE_RUNTIME_MIN,
        None => false,
    };
    if (c.candidate.watchlist && c.eligibility.passed && c.eligibility.evidence_grade.displayable())
        || (!c.candidate.watchlist && occupies_new_at(c, now_year)) {
        return None;
    }
    if short_runtime {
        return Some(lit_string("short-runtime"));
    }
    if future_dated_at(c, now_year) {
        return Some(lit_string("unreleased"));
    }
    if incomplete_metadata_stub(c) {
        return Some(lit_string("incomplete-metadata"));
    }
    if unreleased_new_row_at(c, now_year) {
        return Some(lit_string("unreleased"));
    }
    if filmography_single_bridge_at(c, now_year) {
        return Some(lit_string("filmography-only"));
    }
    if !c.eligibility.passed || !c.eligibility.evidence_grade.displayable() {
        return Some(lit_string("weak-evidence"));
    }
    Some(lit_string("held"))
}

/// [`filter_reason_at`] for the current year (see [`current_year`]; when it cannot be read,
/// no film counts as dated after it).
pub fn filter_reason(c: &ScoredCandidate) -> (r: Option<String>)
    ensures
        exists|y: Option<i32>|
            r.is_none() == filter_reason_spec(c, year_read(y)).is_none() && (r.is_some()
                ==> r.unwrap()@ == filter_reason_spec(c, year_read(y)).unwrap()),
{
    let now = judged_year();
    filter_reason_at(c, now)
}

/// Eligibility placement: "watchlist", "new" or "held".
pub fn placement_at(c: &ScoredCandidate, now_year: i32) -> (p: &'static str)
    ensures
        p@ == placement_spec(c, now_year),
{
    if c.candidate.watchlist {
        "watchlist"
    } else if occupies_new_at(c, now_year) {
        "new"
    } else {
        "held"
    }
}

/// [`placement_at`] for the current year (see [`current_year`]; when it cannot be read,
/// no film counts as dated after it).
pub fn placement(c: &ScoredCandidate) -> (p: &'static str)
    ensures
        exists|y: Option<i32>| p@ == placement_spec(c, year_read(y)),
{
    placement_at(c, judged_year())
}

// ---------------------------------------------------------------------------
// Match percent
// ---------------------------------------------------------------------------

fn min8(a: u8, b: u8) -> (r: u8)
    ensures
        r == min_u8(a, b),
{
    if a <= b {
        a
    } else {
        b
    }
}

fn max8(a: u8, b: u8) -> (r: u8)
    ensures
        r == max_u8(a, b),
{
    if a >= b {
        a
    } else {
        b
    }
}

/// The visible match percent of a row whose craft/grade/appearance blend
/// came to `blend` percent.
pub fn match_score_at(c: &ScoredCandidate, now_year: i32, blend: u8) -> (s: u8)
    ensures
        s == capped_score_spec(c, now_year, blend),
{
    let related = related_only(c);
    let single = filmography_single_bridge_at(c, now_year);
    let film = has_source_kind(c, RetrievalKind::Filmography);
    let any_rel = has_related_source(c);
    let qualifying = qualifying_director_dp_filmography(c, now_year);
    let mixed = mixed_recommendation_corroboration(c);
    let limited = is_limited_evidence(c);
    let kids = kids_or_animation(c);
    let corroborated = has_new_corroboration(c);
    let wl = c.candidate.watchlist;
    let mut score = max8(min8(blend, MATCH_SCORE_MAX), recommendation_neighbor_floor(c));
    if related {
        score = min8(score, RELATED_ONLY_CAP);
    }
    if single {
        score = min8(score, SINGLE_BRIDGE_CAP);
    }
    if film && any_rel && !qualifying && !mixed && !wl {
        score = min8(score, SINGLE_BRIDGE_CAP);
    }
    if limited {
        score = min8(score, LIMITED_EVIDENCE_CAP);
    }
    if !wl && kids {
        score = min8(score, RELATED_ONLY_CAP);
    }
    if !wl && film && !corroborated && !mixed {
        score = min8(score, RELATED_ONLY_CAP);
    }
    if !wl {
        score = min8(score, NON_WATCHLIST_BAND_CAP);
    }
    if qualifying {
        score = max8(score, NEW_MATCH_FLOOR);
    }
    score
}

/// [`match_score_at`] for the current year (see [`current_year`]; when it cannot be read,
/// no film counts as dated after it).
pub fn match_score(c: &ScoredCandidate, blend: u8) -> (s: u8)
    ensures
        exists|y: Option<i32>| s == capped_score_spec(c, year_read(y), blend),
{
    match_score_at(c, judged_year(), blend)
}

/// Whether the match percent in `now_year` reaches the display floor of 50.
pub fn passes_match_floor_at(c: &ScoredCandidate, now_year: i32, blend: u8) -> (b: bool)
    ensures
        b == (capped_score_spec(c, now_year, blend) >= MATCH_SCORE_FLOOR),
{
    match_score_at(c, now_year, blend) >= MATCH_SCORE_FLOOR
}

/// Whether the match percent reaches the display floor of 50, for the
/// current year (see [`current_year`]).
pub fn passes_match_floor(c: &ScoredCandidate, blend: u8) -> (b: bool)
    ensures
        exists|y: Option<i32>| b == (capped_score_spec(c, year_read(y), blend) >= MATCH_SCORE_FLOOR),
{
    passes_match_floor_at(c, judged_year(), blend)
}

/// For one reading of the year, a row passes the floor exactly when its
/// match percent is at least 50: `s` and `b` are what [`match_score_at`]
/// and [`passes_match_floor_at`] give for that year.
pub proof fn lemma_floor_is_score_at_least_fifty(c: &ScoredCandidate, now_year: i32, blend: u8, s: u8, b: bool)
    requires
        s == capped_score_spec(c, now_year, blend),
        b == (capped_score_spec(c, now_year, blend) >= MATCH_SCORE_FLOOR),
    ensures
        b == (s >= MATCH_SCORE_FLOOR),
{
}

/// The strongest cited craft person as (quality, appearances), where quality
/// is max(affinity, 0) × portability clamped to [0, 1000], in millionths;
/// (0, 0) when no craft person is cited. Ties on quality go to more films.
pub open spec fn craft_quality(f: MatchedFeatureView) -> int {
    let a = if f.scoring_affinity > 0 {
        f.scoring_affinity as int
    } else {
        0
    };
    let p = if f.portability < 0 {
        0
    } else if f.portability > 1000 {
        1000
    } else {
        f.portability as int
    };
    a * p
}

pub open spec fn pair_le(a: (int, u32), b: (int, u32)) -> bool {
    a.0 < b.0 || (a.0 == b.0 && a.1 <= b.1)
}

pub open spec fn best_craft_spec(s: Seq<MatchedFeatureView>) -> (int, u32)
    decreases s.len(),
{
    if s.len() == 0 {
        (0, 0)
    } else {
        let r = best_craft_spec(s.drop_last());
        let f = s.last();
        if is_cited_craft(f) && (pair_le(r, (craft_quality(f), f.appearances)) || !has_cited_craft(
            s.drop_last(),
        )) {
            (craft_quality(f), f.appearances)
        } else {
            r
        }
    }
}

pub open spec fn has_cited_craft(s: Seq<MatchedFeatureView>) -> bool {
    exists|i: int| 0 <= i < s.len() && is_cited_craft(#[trigger] s[i])
}

/// Inputs of the match blend: the best cited craft person's quality (in
/// millionths) and appearance count.
pub fn best_craft_quality(c: &ScoredCandidate) -> (r: (i64, u32))
    ensures
        r.0 as int == best_craft_spec(c.matched_features@).0,
        r.1 == best_craft_spec(c.matched_features@).1,
{
    let m = &c.matched_features;
    let mut best: (i64, u32) = (0, 0);
    let mut found = false;
    let mut i: usize = 0;
    while i < m.len()
        invariant
            i <= m.len(),
            m == &c.matched_features,
            best.0 as int == best_craft_spec(m@.take(i as int)).0,
            best.1 == best_craft_spec(m@.take(i as int)).1,
            found == has_cited_craft(m@.take(i as int)),
            0 <= best.0 <= 3_000_000_000_000,
        decreases m.len() - i,
    {
        let ghost pre = m@.take(i as int);
        assert(m@.take((i + 1) as int).drop_last() =~= pre);
        let f = &m[i];
        if f.cited && craft_label(f) {
            let a: i64 = if f.scoring_affinity > 0 {
                f.scoring_affinity as i64
            } else {
                0
            };
            let p: i64 = if f.portability < 0 {
                0
            } else if f.portability > 1000 {
                1000
            } else {
                f.portability as i64
            };
            assert(0 <= a * p <= 3_000_000_000_000) by (nonlinear_arith)
                requires
                    0 <= a <= 0x7fff_ffff,
                    0 <= p <= 1000,
            ;
            let q = a * p;
            if best.0 < q || (best.0 == q && best.1 <= f.appearances) || !found {
                best = (q, f.appearances);
            }
            found = true;
            assert(has_cited_craft(m@.take((i + 1) as int))) by {
                assert(m@.take((i + 1) as int)[i as int] == m@[i as int]);
            }
        } else {
            assert(has_cited_craft(m@.take((i + 1) as int)) == has_cited_craft(pre)) by {
                if has_cited_craft(m@.take((i + 1) as int)) {
                    let k = choose|k: int|
                        0 <= k < i + 1 && is_cited_craft(#[trigger] m@.take((i + 1) as int)[k]);
                    assert(k != i);
                    assert(pre[k] == m@.take((i + 1) as int)[k]);
                }
                if has_cited_craft(pre) {
                    let k = choose|k: int| 0 <= k < i && is_cited_craft(#[trigger] pre[k]);
                    assert(pre[k] == m@.take((i + 1) as int)[k]);
                }
            }
        }
        i += 1;
    }
    assert(m@.take(m.len() as int) =~= m@);
    best
}

/// Appearances beyond this count add nothing to the match blend.
pub const APPEARANCE_CAP: u32 = 8;

/// What the match blend is computed from: the best cited craft person's
/// quality (millionths) and appearances (capped), the row's evidence-grade
/// rank, and whether its evidence is limited.
#[derive(Clone, Copy, Debug)]
pub struct BlendInputs {
    pub quality: i64,
    pub appearances: u32,
    pub grade: i32,
    pub limited: bool,
}

/// The inputs of a row's match blend.
pub fn blend_inputs(c: &ScoredCandidate) -> (b: BlendInputs)
    ensures
        b.quality as int == best_craft_spec(c.matched_features@).0,
        b.appearances == if best_craft_spec(c.matched_features@).1 <= APPEARANCE_CAP {
            best_craft_spec(c.matched_features@).1
        } else {
            APPEARANCE_CAP
        },
        b.grade == c.eligibility.evidence_grade.rank_spec(),
        b.limited == limited_spec(c),
{
    let (q, n) = best_craft_quality(c);
    BlendInputs {
        quality: q,
        appearances: if n <= APPEARANCE_CAP {
            n
        } else {
            APPEARANCE_CAP
        },
        grade: c.eligibility.evidence_grade.rank(),
        limited: is_limited_evidence(c),
    }
}


// ---------------------------------------------------------------------------
// Laws
// ---------------------------------------------------------------------------

/// A match percent never exceeds 100, and one off the watchlist never
/// exceeds 79, whatever the blend.
pub proof fn lemma_match_score_bounds(c: &ScoredCandidate, now_year: i32, blend: u8)
    ensures
        capped_score_spec(c, now_year, blend) <= MATCH_SCORE_MAX,
        !c.candidate.watchlist ==> capped_score_spec(c, now_year, blend) <= NON_WATCHLIST_BAND_CAP,
{
    assert(neighbor_floor_spec(c) <= 66);
}

/// A related-only row never displays more than 69%, however strong its blend.
pub proof fn lemma_related_only_is_capped(c: &ScoredCandidate, now_year: i32, blend: u8)
    requires
        related_only_spec(c),
    ensures
        capped_score_spec(c, now_year, blend) <= RELATED_ONLY_CAP,
{
    if has_kind(c, RetrievalKind::Filmography) {
        let i = choose|i: int|
            0 <= i < c.candidate.sources.len() && (#[trigger] c.candidate.sources@[i]).kind
                == RetrievalKind::Filmography;
        assert(c.candidate.sources@[i].kind.related());
    }
    assert(!qualifying_spec(c, now_year));
}

/// A row that is not on the watchlist never displays more than 79%, so it
/// never reaches the Excellent band.
pub proof fn lemma_non_watchlist_band(c: &ScoredCandidate, now_year: i32, blend: u8)
    requires
        !c.candidate.watchlist,
    ensures
        capped_score_spec(c, now_year, blend) <= NON_WATCHLIST_BAND_CAP,
        capped_score_spec(c, now_year, blend) < EXCELLENT_BAND,
{
}

/// Thin evidence (every cited craft person on two films or fewer) never
/// displays more than 69%.
pub proof fn lemma_thin_evidence_is_capped(c: &ScoredCandidate, now_year: i32, blend: u8)
    requires
        limited_spec(c),
    ensures
        capped_score_spec(c, now_year, blend) <= LIMITED_EVIDENCE_CAP,
{
    if direct_portable_spec(c) {
        let i = choose|i: int|
            0 <= i < c.matched_features.len() && is_direct_portable(
                #[trigger] c.matched_features@[i],
            );
        assert(is_cited_craft(c.matched_features@[i]) && c.matched_features@[i].appearances > 2);
    }
    assert(!qualifying_spec(c, now_year));
}

/// A single-bridge filmography résumé never displays more than 69%.
pub proof fn lemma_single_bridge_is_capped(c: &ScoredCandidate, now_year: i32, blend: u8)
    requires
        single_bridge_spec(c, now_year),
    ensures
        capped_score_spec(c, now_year, blend) <= SINGLE_BRIDGE_CAP,
{
}

/// A qualifying director/DP filmography row always clears the New floor of 70%.
pub proof fn lemma_qualifying_clears_new_floor(c: &ScoredCandidate, now_year: i32, blend: u8)
    requires
        qualifying_spec(c, now_year),
    ensures
        capped_score_spec(c, now_year, blend) >= NEW_MATCH_FLOOR,
{
}

/// The match percent reads the candidate, its matched features and its
/// eligibility only: the frozen score total is a sort tiebreak, never an
/// input of the percent.
pub proof fn lemma_match_ignores_score(
    a: &ScoredCandidate,
    b: &ScoredCandidate,
    now_year: i32,
    blend: u8,
)
    requires
        a.candidate == b.candidate,
        a.matched_features@ == b.matched_features@,
        a.eligibility == b.eligibility,
    ensures
        capped_score_spec(a, now_year, blend) == capped_score_spec(b, now_year, blend),
{
    assert(a.candidate.sources@ == b.candidate.sources@);
    assert(a.candidate.genres@ == b.candidate.genres@);
    assert(count_portable(a.matched_features@) == count_portable(b.matched_features@));
    assert(count_bridges(a.matched_features@) == count_bridges(b.matched_features@));
    assert(limited_spec(a) == limited_spec(b));
    assert(direct_portable_spec(a) == direct_portable_spec(b));
    assert(strong_keyword_spec(a) == strong_keyword_spec(b));
    assert(kids_or_animation_spec(a) == kids_or_animation_spec(b));
    assert(tv_movie_spec(a) == tv_movie_spec(b));
    assert(any_related_spec(a) == any_related_spec(b));
    assert(all_related_spec(a) == all_related_spec(b));
    assert(all_filmography_spec(a) == all_filmography_spec(b));
    assert(has_kind(a, RetrievalKind::Filmography) == has_kind(b, RetrievalKind::Filmography));
    assert(has_kind(a, RetrievalKind::RelatedRecommendations) == has_kind(
        b,
        RetrievalKind::RelatedRecommendations,
    ));
}

/// A New member is off the watchlist, has a displayable grade, is no TV movie
/// and no single-bridge résumé; its placement is "new" and it has no filter
/// reason.
pub proof fn lemma_new_members(c: &ScoredCandidate, now_year: i32)
    requires
        occupies_new_spec(c, now_year),
    ensures
        !c.candidate.watchlist,
        c.eligibility.evidence_grade.displayable_spec(),
        !tv_movie_spec(c),
        !single_bridge_spec(c, now_year),
        placement_spec(c, now_year) == "new"@,
        filter_reason_spec(c, now_year).is_none(),
{
}

/// A row has no filter reason exactly when it is displayed: a watchlist row
/// that passed with a displayable grade, or a New member.
pub proof fn lemma_filter_reason_iff_hidden(c: &ScoredCandidate, now_year: i32)
    ensures
        filter_reason_spec(c, now_year).is_none() <==> shown_spec(c, now_year),
{
}


/// An animation, family, kids' or TV-movie film off the watchlist never
/// shows more than 69, whatever its blend and year.
pub proof fn lemma_kids_off_watchlist_capped(c: &ScoredCandidate, now_year: i32, blend: u8)
    requires
        !c.candidate.watchlist,
        exists|i: int|
            0 <= i < c.candidate.genres.len() && {
                let l = ascii_lower(#[trigger] c.candidate.genres@[i]@);
                l == "animation"@ || l == "family"@ || contains(l, "kid"@) || l == "tv movie"@
            },
    ensures
        capped_score_spec(c, now_year, blend) <= RELATED_ONLY_CAP,
        RELATED_ONLY_CAP == 69,
{
    let i = choose|i: int|
        0 <= i < c.candidate.genres.len() && {
            let l = ascii_lower(#[trigger] c.candidate.genres@[i]@);
            l == "animation"@ || l == "family"@ || contains(l, "kid"@) || l == "tv movie"@
        };
    assert(kids_genre(c.candidate.genres@[i]@));
}


/// A filmography row off the watchlist that also arrived as a related film,
/// without qualifying or mixed corroboration, never shows more than 69.
pub proof fn lemma_unqualified_filmography_related_capped(c: &ScoredCandidate, now_year: i32, blend: u8)
    requires
        !c.candidate.watchlist,
        has_kind(c, RetrievalKind::Filmography),
        any_related_spec(c),
        !qualifying_spec(c, now_year),
        !mixed_spec(c),
    ensures
        capped_score_spec(c, now_year, blend) <= SINGLE_BRIDGE_CAP,
{
}

/// A filmography row off the watchlist without corroboration from a second
/// kind of evidence, and not mixed, never shows more than 69.
pub proof fn lemma_uncorroborated_filmography_capped(c: &ScoredCandidate, now_year: i32, blend: u8)
    requires
        !c.candidate.watchlist,
        has_kind(c, RetrievalKind::Filmography),
        !new_corroboration_spec(c),
        !mixed_spec(c),
    ensures
        capped_score_spec(c, now_year, blend) <= RELATED_ONLY_CAP,
{
    assert(!qualifying_spec(c, now_year));
}

/// A stronger blend never shows a lower match percent.
pub proof fn lemma_match_score_monotone_in_blend(c: &ScoredCandidate, now_year: i32, b1: u8, b2: u8)
    requires
        b1 <= b2,
    ensures
        capped_score_spec(c, now_year, b1) <= capped_score_spec(c, now_year, b2),
{
}

/// A watchlist row with none of the honesty caps shows its blend (up to
/// 100), lifted to the neighbour floor.
pub proof fn lemma_uncapped_watchlist_shows_blend(c: &ScoredCandidate, now_year: i32, blend: u8)
    requires
        c.candidate.watchlist,
        !related_only_spec(c),
        !single_bridge_spec(c, now_year),
        !limited_spec(c),
        blend <= MATCH_SCORE_MAX,
        !qualifying_spec(c, now_year),
    ensures
        capped_score_spec(c, now_year, blend) >= blend,
{
}

} // verus!
