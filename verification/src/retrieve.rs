//! Retrieval provenance, candidate identity and the pool-admission rules.
use vstd::prelude::*;
use crate::features::{
    any_eq_ic, any_eq_ignore_case, job_family, family_for_job, strs, Credit, FeatureAffinity,
    FeatureFamily, Keyword, PORTABLE_CONTEXTUAL,
};
use crate::pool::RelatedItem;
use crate::text::{
    append_chars, append_str, chars_of, dec_i64, dec_int, seq_eq, string_of, trim, trimmed,
    unicode_lower, unicode_lowercase,
};

verus! {

#[derive(Clone, Copy, PartialEq, Eq, Structural, Debug)]
pub enum MediaKind {
    Movie,
    TvSeries,
    TvEpisode,
    TvSpecial,
    Short,
    Other,
    Ambiguous,
}

impl MediaKind {
    pub fn is_movie(self) -> (b: bool)
        ensures
            b == (self == MediaKind::Movie),
    {
        matches!(self, MediaKind::Movie)
    }
}

#[derive(Clone, Copy, PartialEq, Eq, Structural, Debug)]
pub enum RetrievalKind {
    Related,
    RelatedRecommendations,
    RelatedSimilar,
    Filmography,
    Friend,
    Watchlist,
    Exploration,
    Discovery,
}

impl RetrievalKind {
    pub open spec fn related(self) -> bool {
        self == RetrievalKind::Related || self == RetrievalKind::RelatedRecommendations || self
            == RetrievalKind::RelatedSimilar
    }

    /// Related neighbours of a loved film: legacy related, TMDB
    /// recommendations and TMDB similar-to.
    pub fn is_related(self) -> (b: bool)
        ensures
            b == self.related(),
    {
        matches!(
            self,
            RetrievalKind::Related | RetrievalKind::RelatedRecommendations
                | RetrievalKind::RelatedSimilar
        )
    }
}

/// Why a candidate entered the pool. `seed_rating` is the seed film's
/// rating in thousandths of a star.
#[derive(Clone, Debug)]
pub struct RetrievalSource {
    pub kind: RetrievalKind,
    pub label: String,
    pub seed_tmdb_id: Option<i64>,
    pub seed_rating: Option<i32>,
}

impl RetrievalSource {
    pub fn new(kind: RetrievalKind, label: String, seed_tmdb_id: Option<i64>) -> (s: Self)
        ensures
            s.kind == kind,
            s.label@ == label@,
            s.seed_tmdb_id == seed_tmdb_id,
            s.seed_rating.is_none(),
    {
        RetrievalSource { kind, label, seed_tmdb_id, seed_rating: None }
    }

    pub fn with_rating(self, rating: Option<i32>) -> (s: Self)
        ensures
            s.kind == self.kind,
            s.label@ == self.label@,
            s.seed_tmdb_id == self.seed_tmdb_id,
            s.seed_rating == rating,
    {
        let mut s = self;
        s.seed_rating = rating;
        s
    }
}

/// Counts describing how many eligible seeds had usable related lists.
#[derive(Clone, Copy, Debug)]
pub struct SeedCoverage {
    pub eligible_seeds: usize,
    pub seeds_with_usable_related: usize,
    pub seeds_refreshed: usize,
    pub seeds_with_catalog: usize,
    pub candidates_with_catalog: usize,
}

/// A retrieved film before scoring. `friend_affinity` and `tmdb_related`
/// are in thousandths.
#[derive(Clone, Debug)]
pub struct Candidate {
    pub tmdb_id: Option<i64>,
    pub title: String,
    pub year: Option<i32>,
    pub poster: Option<String>,
    pub genres: Vec<String>,
    pub credits: Vec<Credit>,
    pub keywords: Vec<Keyword>,
    pub runtime: Option<i32>,
    pub vote_count: Option<i64>,
    pub watchlist: bool,
    pub sources: Vec<RetrievalSource>,
    pub friend_affinity: i32,
    pub tmdb_related: i32,
    pub media_kind: MediaKind,
}

/// `"tmdb:{id}"` when a TMDB id is known, else `"{title}|{year}"` with the
/// title trimmed and lower-cased and a missing year written as 0.
pub open spec fn identity_key_spec(tmdb_id: Option<i64>, title: Seq<char>, year: Option<i32>) -> Seq<
    char,
> {
    match tmdb_id {
        Some(id) => "tmdb:"@ + dec_int(id as int),
        None => unicode_lowercase(trim(title)) + "|"@ + dec_int(
            match year {
                Some(y) => y as int,
                None => 0,
            },
        ),
    }
}

/// The identity under which a film is de-duplicated across sources.
pub fn identity_key(tmdb_id: Option<i64>, title: &str, year: Option<i32>) -> (k: String)
    ensures
        k@ == identity_key_spec(tmdb_id, title@, year),
{
    match tmdb_id {
        Some(id) => {
            let mut out = chars_of("tmdb:");
            let d = dec_i64(id);
            append_chars(&mut out, &d);
            string_of(&out)
        },
        None => {
            let t = trimmed(title);
            let mut out = unicode_lower(&t);
            append_str(&mut out, "|");
            let y: i64 = match year {
                Some(y) => y as i64,
                None => 0,
            };
            let d = dec_i64(y);
            append_chars(&mut out, &d);
            string_of(&out)
        },
    }
}

/// A person's filmography credit is kept only for the job that made the
/// person an affinity.
pub fn keep_person_credit(job: &str, family: FeatureFamily) -> (b: bool)
    ensures
        b == (job_family(job@) == Some(family)),
{
    match family_for_job(job) {
        Some(f) => f == family,
        None => false,
    }
}

pub open spec fn filmography_allowed_spec(a: &FeatureAffinity) -> bool {
    if a.key.id.is_none() || !a.citeable_spec() {
        false
    } else {
        match a.key.family {
            FeatureFamily::Director | FeatureFamily::Writer | FeatureFamily::Cinematographer =>
                a.recommendation_mean > 150,
            FeatureFamily::Actor => a.appearances >= 3 && a.recommendation_mean
                >= PORTABLE_CONTEXTUAL,
            FeatureFamily::Composer => a.appearances >= 4 && a.recommendation_mean > 220,
            _ => false,
        }
    }
}

/// Whose filmography is worth retrieving from: a citeable person with a TMDB
/// id, held to a stricter bar for actors and composers.
pub fn filmography_person_allowed(a: &FeatureAffinity) -> (b: bool)
    ensures
        b == filmography_allowed_spec(a),
{
    if a.key.id.is_none() || !a.citeable() {
        return false;
    }
    match a.key.family {
        FeatureFamily::Director | FeatureFamily::Writer | FeatureFamily::Cinematographer => {
            a.recommendation_mean > 150
        },
        FeatureFamily::Actor => {
            a.appearances >= 3 && a.recommendation_mean >= PORTABLE_CONTEXTUAL as i32
        },
        FeatureFamily::Composer => a.appearances >= 4 && a.recommendation_mean > 220,
        _ => false,
    }
}

pub const FILMOGRAPHY_PER_PERSON: usize = 12;
pub const ACTOR_FILMOGRAPHY_CAP: usize = 4;
pub const COMPOSER_FILMOGRAPHY_CAP: usize = 4;

pub open spec fn credit_cap_spec(family: FeatureFamily) -> usize {
    match family {
        FeatureFamily::Actor => ACTOR_FILMOGRAPHY_CAP,
        FeatureFamily::Composer => COMPOSER_FILMOGRAPHY_CAP,
        _ => FILMOGRAPHY_PER_PERSON,
    }
}

/// How many filmography titles one person may contribute.
pub fn filmography_credit_cap(family: FeatureFamily) -> (n: usize)
    ensures
        n == credit_cap_spec(family),
{
    match family {
        FeatureFamily::Actor => ACTOR_FILMOGRAPHY_CAP,
        FeatureFamily::Composer => COMPOSER_FILMOGRAPHY_CAP,
        _ => FILMOGRAPHY_PER_PERSON,
    }
}

pub open spec fn any_credit_id(credits: Seq<Credit>) -> bool {
    exists|i: int| 0 <= i < credits.len() && credits[i].id.is_some()
}

fn has_credit_id(credits: &Vec<Credit>) -> (b: bool)
    ensures
        b == any_credit_id(credits@),
{
    let mut i: usize = 0;
    while i < credits.len()
        invariant
            i <= credits.len(),
            forall|k: int| 0 <= k < i ==> credits@[k].id.is_none(),
        decreases credits.len() - i,
    {
        if credits[i].id.is_some() {
            return true;
        }
        i += 1;
    }
    false
}

pub open spec fn candidate_catalog_spec(c: &Candidate) -> bool {
    c.genres.len() > 0 && any_credit_id(c.credits@) && (c.keywords.len() > 0
        || c.runtime.is_some())
}

/// A candidate whose catalog row is filled in: genres, an identified credit,
/// and keywords or a runtime.
pub fn candidate_has_catalog(c: &Candidate) -> (b: bool)
    ensures
        b == candidate_catalog_spec(c),
{
    c.genres.len() > 0 && has_credit_id(&c.credits) && (c.keywords.len() > 0
        || c.runtime.is_some())
}

pub open spec fn source_weight(k: RetrievalKind) -> int {
    match k {
        RetrievalKind::Friend => 40,
        RetrievalKind::RelatedRecommendations | RetrievalKind::Related => 10,
        RetrievalKind::RelatedSimilar => 3,
        RetrievalKind::Filmography => 1,
        RetrievalKind::Watchlist => 50,
        RetrievalKind::Discovery | RetrievalKind::Exploration => 2,
    }
}

pub open spec fn source_weight_sum(s: Seq<RetrievalSource>) -> int
    decreases s.len(),
{
    if s.len() == 0 {
        0
    } else {
        source_weight_sum(s.drop_last()) + source_weight(s.last().kind)
    }
}

pub open spec fn candidate_priority_spec(c: &Candidate) -> int {
    if c.watchlist {
        500
    } else {
        source_weight_sum(c.sources@) + c.sources.len()
    }
}

/// Pool priority: watchlist titles first, then by the weight of every source
/// (friends 40, recommendations 10, similar-to 3, filmography 1, …) plus
/// the number of sources.
pub fn candidate_priority(c: &Candidate) -> (p: i128)
    ensures
        p == candidate_priority_spec(c),
{
    if c.watchlist {
        return 500;
    }
    let mut p: i128 = 0;
    let mut i: usize = 0;
    while i < c.sources.len()
        invariant
            i <= c.sources.len(),
            p == source_weight_sum(c.sources@.take(i as int)),
            0 <= p <= 50 * i,
        decreases c.sources.len() - i,
    {
        assert(c.sources@.take((i + 1) as int).drop_last() =~= c.sources@.take(i as int));
        let w: i128 = match c.sources[i].kind {
            RetrievalKind::Friend => 40,
            RetrievalKind::RelatedRecommendations | RetrievalKind::Related => 10,
            RetrievalKind::RelatedSimilar => 3,
            RetrievalKind::Filmography => 1,
            RetrievalKind::Watchlist => 50,
            RetrievalKind::Discovery | RetrievalKind::Exploration => 2,
        };
        p = p + w;
        i += 1;
    }
    assert(c.sources@.take(c.sources.len() as int) =~= c.sources@);
    p + c.sources.len() as i128
}


// ---------------------------------------------------------------------------
// The viewer's library films and the seeds among them
// ---------------------------------------------------------------------------

/// The viewer's signal on a film, in thousandths: the absolute and affinity
/// preference read from the rating, how familiar the film is, and how much
/// it counts toward recommendations.
#[derive(Clone, Copy, Debug)]
pub struct FilmSignal {
    pub absolute: i32,
    pub affinity_preference: i32,
    pub familiarity_strength: i32,
    pub recommendation_weight: u32,
}

/// A film of the viewer's library with its catalog facts. `rating` (stars)
/// and `age_years` are in thousandths.
#[derive(Clone, Debug)]
pub struct FilmRecord {
    pub key: String,
    pub title: String,
    pub year: Option<i32>,
    pub tmdb_id: Option<i64>,
    pub rating: Option<i32>,
    pub liked: bool,
    pub watched: bool,
    pub watchlist: bool,
    pub viewings: u32,
    pub last_date: Option<String>,
    pub genres: Vec<String>,
    pub credits: Vec<Credit>,
    pub keywords: Vec<Keyword>,
    pub recommendations: Vec<RelatedItem>,
    pub similar: Vec<RelatedItem>,
    pub runtime: Option<i32>,
    pub poster: Option<String>,
    pub vote_count: Option<i64>,
    pub review: Option<String>,
    pub signal: Option<FilmSignal>,
    pub age_years: Option<i32>,
}

/// Familiarity (thousandths) from which a film no longer seeds retrieval.
pub const SEED_FAMILIARITY_LIMIT: i32 = 600;

/// A liked film that may seed retrieval: rated, positive in both the
/// absolute and affinity readings, not too familiar, and not a TV movie.
pub open spec fn eligible_spec(f: FilmRecord) -> bool {
    match f.signal {
        None => false,
        Some(s) => f.rating.is_some() && s.affinity_preference > 0 && s.absolute > 0
            && s.familiarity_strength < SEED_FAMILIARITY_LIMIT && !any_eq_ic(
            strs(f.genres@),
            "tv movie"@,
        ),
    }
}

/// Whether a library film seeds related retrieval.
pub fn eligible_positive_like(seed: &FilmRecord) -> (b: bool)
    ensures
        b == eligible_spec(*seed),
{
    let signal = match seed.signal {
        Some(s) => s,
        None => return false,
    };
    if seed.rating.is_none() {
        return false;
    }
    if signal.affinity_preference <= 0 || signal.absolute <= 0 {
        return false;
    }
    if signal.familiarity_strength >= SEED_FAMILIARITY_LIMIT {
        return false;
    }
    !any_eq_ignore_case(seed.genres.as_slice(), &chars_of("tv movie"))
}

/// Seed priority in millionths: affinity preference times recommendation
/// weight (0 without a signal).
pub open spec fn seed_priority_spec(f: FilmRecord) -> int {
    match f.signal {
        Some(s) => s.affinity_preference as int * s.recommendation_weight as int,
        None => 0,
    }
}

pub fn seed_priority(seed: &FilmRecord) -> (p: i64)
    ensures
        p == seed_priority_spec(*seed),
{
    match seed.signal {
        Some(s) => {
            proof {
                assert(-0x8000_0000 * 0xffff_ffff <= s.affinity_preference as int
                    * s.recommendation_weight as int <= 0x7fff_ffff * 0xffff_ffff) by (nonlinear_arith)
                    requires
                        -0x8000_0000 <= s.affinity_preference < 0x8000_0000,
                        0 <= s.recommendation_weight < 0x1_0000_0000,
                ;
            }
            (s.affinity_preference as i64) * (s.recommendation_weight as i64)
        },
        None => 0,
    }
}

pub open spec fn usable_related_spec(f: FilmRecord) -> bool {
    f.recommendations.len() > 0 || f.similar.len() > 0
}

/// A seed with a TMDB recommendation or similar-title list.
pub fn has_usable_related(seed: &FilmRecord) -> (b: bool)
    ensures
        b == usable_related_spec(*seed),
{
    seed.recommendations.len() > 0 || seed.similar.len() > 0
}

pub open spec fn film_catalog_spec(f: FilmRecord) -> bool {
    f.genres.len() > 0 && any_credit_id(f.credits@) && f.keywords.len() > 0 && (
    f.recommendations.len() > 0 || f.similar.len() > 0)
}

/// A library film whose catalog facts are filled in: genres, an identified
/// credit, keywords and a related list.
pub fn film_has_catalog(film: &FilmRecord) -> (b: bool)
    ensures
        b == film_catalog_spec(*film),
{
    film.genres.len() > 0 && has_credit_id(&film.credits) && film.keywords.len() > 0 && (
    film.recommendations.len() > 0 || film.similar.len() > 0)
}


/// The gathered pool and how well the seeds covered it.
#[derive(Clone, Debug)]
pub struct RetrievalResult {
    pub candidates: Vec<Candidate>,
    pub coverage: SeedCoverage,
}


// ---------------------------------------------------------------------------
// Merging duplicate library records
// ---------------------------------------------------------------------------

/// `a` is a later date than `b` (`None` is earliest; dates compare as text).
pub open spec fn later_date(a: Option<String>, b: Option<String>) -> bool {
    match (a, b) {
        (Some(x), Some(y)) => crate::explain::seq_lt(y@, x@),
        (Some(_), None) => true,
        _ => false,
    }
}

/// `cur` with the duplicate record `f` folded in: flags or-ed, viewings
/// added, the newer record's date (and its rating when it has one), a
/// rating or review filled in where `cur` has none.
pub open spec fn merge_record(cur: FilmRecord, f: FilmRecord) -> FilmRecord {
    let newer = later_date(f.last_date, cur.last_date);
    FilmRecord {
        watched: cur.watched || f.watched,
        watchlist: cur.watchlist || f.watchlist,
        liked: cur.liked || f.liked,
        viewings: (cur.viewings + f.viewings) as u32,
        last_date: if newer {
            f.last_date
        } else {
            cur.last_date
        },
        rating: if newer {
            if f.rating.is_some() {
                f.rating
            } else {
                cur.rating
            }
        } else if cur.rating.is_none() {
            f.rating
        } else {
            cur.rating
        },
        review: if cur.review.is_none() {
            f.review
        } else {
            cur.review
        },
        ..cur
    }
}

/// The first record filed under `key`, or -1.
pub open spec fn record_at(rs: Seq<FilmRecord>, key: Seq<char>, i: int) -> int
    decreases rs.len() - i,
{
    if i >= rs.len() || i < 0 {
        -1
    } else if rs[i].key@ == key {
        i
    } else {
        record_at(rs, key, i + 1)
    }
}

/// The first `n` records with duplicates (same key) merged into the first.
pub open spec fn consolidated_upto(films: Seq<FilmRecord>, n: int) -> Seq<FilmRecord>
    decreases n,
{
    if n <= 0 {
        Seq::empty()
    } else {
        let r = consolidated_upto(films, n - 1);
        let f = films[n - 1];
        let p = record_at(r, f.key@, 0);
        if p >= 0 {
            r.update(p, merge_record(r[p], f))
        } else {
            r.push(f)
        }
    }
}

/// The total viewings of the records filed under `key`.
pub open spec fn key_viewings(films: Seq<FilmRecord>, key: Seq<char>) -> int
    decreases films.len(),
{
    if films.len() == 0 {
        0
    } else {
        key_viewings(films.drop_last(), key) + if films.last().key@ == key {
            films.last().viewings as int
        } else {
            0
        }
    }
}

proof fn lemma_record_at_bounds(rs: Seq<FilmRecord>, key: Seq<char>, i: int)
    requires
        0 <= i,
    ensures
        -1 <= record_at(rs, key, i) < rs.len(),
        record_at(rs, key, i) >= 0 ==> rs[record_at(rs, key, i)].key@ == key,
        record_at(rs, key, i) < 0 ==> forall|k: int| i <= k < rs.len() ==> rs[k].key@ != key,
    decreases rs.len() - i,
{
    if i < rs.len() && rs[i].key@ != key {
        lemma_record_at_bounds(rs, key, i + 1);
    }
}


/// No two records share a key.
pub open spec fn record_keys_distinct(rs: Seq<FilmRecord>) -> bool {
    forall|a: int, b: int| 0 <= a < b < rs.len() ==> rs[a].key@ != rs[b].key@
}

proof fn lemma_no_key_no_viewings(films: Seq<FilmRecord>, key: Seq<char>)
    requires
        forall|k: int| 0 <= k < films.len() ==> (#[trigger] films[k]).key@ != key,
    ensures
        key_viewings(films, key) == 0,
    decreases films.len(),
{
    if films.len() > 0 {
        assert forall|k: int| 0 <= k < films.drop_last().len() implies (#[trigger] films.drop_last()[k]).key@ != key by {
            assert(films.drop_last()[k] == films[k]);
        }
        lemma_no_key_no_viewings(films.drop_last(), key);
    }
}

proof fn lemma_key_viewings_prefix(films: Seq<FilmRecord>, n: int, key: Seq<char>)
    requires
        0 <= n <= films.len(),
    ensures
        key_viewings(films.take(n), key) <= key_viewings(films, key),
    decreases films.len() - n,
{
    if n < films.len() {
        lemma_key_viewings_prefix(films, n + 1, key);
        assert(films.take(n + 1).drop_last() =~= films.take(n));
    } else {
        assert(films.take(n) =~= films);
    }
}

/// What the fold keeps true: keys distinct, each record's viewings the total
/// of its key so far, and every film so far filed.
pub open spec fn consolidation_sound(films: Seq<FilmRecord>, n: int, r: Seq<FilmRecord>) -> bool {
    &&& record_keys_distinct(r)
    &&& forall|q: int| 0 <= q < r.len() ==> (#[trigger] r[q]).viewings == key_viewings(films.take(n), r[q].key@)
    &&& forall|k: int| 0 <= k < n ==> record_at(r, (#[trigger] films[k]).key@, 0) >= 0
}

proof fn lemma_consolidation_step(films: Seq<FilmRecord>, n: int)
    requires
        0 < n <= films.len(),
        consolidation_sound(films, n - 1, consolidated_upto(films, n - 1)),
        forall|k: int| 0 <= k < films.len() ==> key_viewings(films, (#[trigger] films[k]).key@) <= u32::MAX,
    ensures
        consolidation_sound(films, n, consolidated_upto(films, n)),
        ({
            let r = consolidated_upto(films, n - 1);
            let p = record_at(r, films[n - 1].key@, 0);
            p >= 0 ==> r[p].viewings + films[n - 1].viewings <= u32::MAX
        }),
{
    let r = consolidated_upto(films, n - 1);
    let f = films[n - 1];
    let key = f.key@;
    lemma_record_at_bounds(r, key, 0);
    let p = record_at(r, key, 0);
    let t = consolidated_upto(films, n);
    assert(films.take(n).drop_last() =~= films.take(n - 1));
    assert(films.take(n).last() == f);
    assert forall|k2: Seq<char>| k2 != key implies key_viewings(films.take(n), k2) == key_viewings(films.take(n - 1), k2) by {}
    assert(key_viewings(films.take(n), key) == key_viewings(films.take(n - 1), key) + f.viewings);
    lemma_key_viewings_prefix(films, n, key);
    if p >= 0 {
        assert(t == r.update(p, merge_record(r[p], f)));
        assert(r[p].viewings + f.viewings <= u32::MAX);
        assert forall|a: int, b: int| 0 <= a < b < t.len() implies t[a].key@ != t[b].key@ by {
            assert(t[a].key == r[a].key);
            assert(t[b].key == r[b].key);
        }
        assert forall|q: int| 0 <= q < t.len() implies (#[trigger] t[q]).viewings == key_viewings(films.take(n), t[q].key@) by {
            if q == p {
            } else {
                assert(t[q] == r[q]);
                assert(r[q].key@ != key);
            }
        }
        assert forall|k: int| 0 <= k < n implies record_at(t, (#[trigger] films[k]).key@, 0) >= 0 by {
            lemma_record_at_same_keys(r, t, films[k].key@, 0);
        }
    } else {
        assert(t == r.push(f));
        assert forall|k: int| 0 <= k < films.take(n - 1).len() implies (#[trigger] films.take(n - 1)[k]).key@ != key by {
            assert(films.take(n - 1)[k] == films[k]);
            assert(record_at(r, films[k].key@, 0) >= 0);
            lemma_record_at_bounds(r, films[k].key@, 0);
        }
        lemma_no_key_no_viewings(films.take(n - 1), key);
        assert forall|a: int, b: int| 0 <= a < b < t.len() implies t[a].key@ != t[b].key@ by {
            if b == r.len() {
                assert(t[a] == r[a]);
            } else {
                assert(t[a] == r[a] && t[b] == r[b]);
            }
        }
        assert forall|q: int| 0 <= q < t.len() implies (#[trigger] t[q]).viewings == key_viewings(films.take(n), t[q].key@) by {
            if q < r.len() {
                assert(t[q] == r[q]);
                assert(r[q].key@ != key);
            }
        }
        assert forall|k: int| 0 <= k < n implies record_at(t, (#[trigger] films[k]).key@, 0) >= 0 by {
            if k < n - 1 {
                lemma_record_at_push(r, f, films[k].key@, 0);
            } else {
                lemma_record_at_push(r, f, key, 0);
            }
        }
    }
}

proof fn lemma_record_at_same_keys(r: Seq<FilmRecord>, t: Seq<FilmRecord>, key: Seq<char>, i: int)
    requires
        0 <= i,
        r.len() == t.len(),
        forall|q: int| 0 <= q < r.len() ==> (#[trigger] t[q]).key == r[q].key,
    ensures
        record_at(t, key, i) == record_at(r, key, i),
    decreases r.len() - i,
{
    if i < r.len() && r[i].key@ != key {
        assert(t[i].key == r[i].key);
        lemma_record_at_same_keys(r, t, key, i + 1);
    } else if i < r.len() {
        assert(t[i].key == r[i].key);
    }
}

proof fn lemma_record_at_push(r: Seq<FilmRecord>, f: FilmRecord, key: Seq<char>, i: int)
    requires
        0 <= i <= r.len(),
        record_at(r, key, i) >= 0 || f.key@ == key,
    ensures
        record_at(r.push(f), key, i) >= 0,
    decreases r.len() - i,
{
    if i < r.len() {
        assert(r.push(f)[i] == r[i]);
        if r[i].key@ != key {
            lemma_record_at_push(r, f, key, i + 1);
        }
    } else {
        assert(r.push(f)[i] == f);
    }
}

fn later(a: &Option<String>, b: &Option<String>) -> (r: bool)
    ensures
        r == later_date(*a, *b),
{
    match (a, b) {
        (Some(x), Some(y)) => crate::explain::seq_less(&chars_of(y.as_str()), &chars_of(x.as_str())),
        (Some(_), None) => true,
        _ => false,
    }
}

/// Merges library records that share a key into the first of them, in
/// order: watched, watchlist and liked are or-ed, viewings added, the newer
/// record's date (and rating, when it has one) taken, and a missing rating
/// or review filled in. Viewings per key must fit in `u32`.
pub fn consolidate_films(films: Vec<FilmRecord>) -> (out: Vec<FilmRecord>)
    requires
        forall|k: int| 0 <= k < films@.len() ==> key_viewings(films@, (#[trigger] films@[k]).key@) <= u32::MAX,
    ensures
        out@ == consolidated_upto(films@, films@.len() as int),
{
    let ghost all = films@;
    let mut rest = films;
    let n = rest.len();
    let mut out: Vec<FilmRecord> = Vec::new();
    let mut t: usize = 0;
    assert(all.take(0) =~= Seq::<FilmRecord>::empty());
    while t < n
        invariant
            t <= n,
            all.len() == n,
            rest@ == all.skip(t as int),
            out@ == consolidated_upto(all, t as int),
            consolidation_sound(all, t as int, out@),
            forall|k: int| 0 <= k < all.len() ==> key_viewings(all, (#[trigger] all[k]).key@) <= u32::MAX,
        decreases n - t,
    {
        let film = rest.remove(0);
        assert(film == all[t as int]);
        proof {
            lemma_consolidation_step(all, t + 1);
        }
        let key = chars_of(film.key.as_str());
        let mut p: usize = 0;
        let ghost r = out@;
        proof {
            lemma_record_at_bounds(r, film.key@, 0);
        }
        while p < out.len() && !seq_eq(&chars_of(out[p].key.as_str()), &key)
            invariant
                p <= out.len(),
                out@ == r,
                key@ == film.key@,
                record_at(r, film.key@, 0) == record_at(r, film.key@, p as int),
            decreases out.len() - p,
        {
            p += 1;
        }
        if p < out.len() {
            assert(record_at(r, film.key@, 0) == p as int);
            let mut cur = out.remove(p);
            let newer = later(&film.last_date, &cur.last_date);
            let ghost cur0 = cur;
            let FilmRecord { watched, watchlist, liked, viewings, last_date, rating, review, .. } = film;
            cur.watched = cur.watched || watched;
            cur.watchlist = cur.watchlist || watchlist;
            cur.liked = cur.liked || liked;
            cur.viewings = cur.viewings + viewings;
            if newer {
                cur.last_date = last_date;
                if rating.is_some() {
                    cur.rating = rating;
                }
            } else if cur.rating.is_none() {
                cur.rating = rating;
            }
            if cur.review.is_none() {
                cur.review = review;
            }
            assert(cur == merge_record(cur0, all[t as int]));
            out.insert(p, cur);
            assert(out@ =~= r.update(p as int, merge_record(r[p as int], all[t as int])));
        } else {
            assert(record_at(r, film.key@, 0) == -1);
            out.push(film);
        }
        t += 1;
        assert(rest@ =~= all.skip(t as int));
    }
    out
}

/// The identity keys of the films the viewer has seen: watched or rated.
pub open spec fn seen_keys_spec(films: Seq<FilmRecord>) -> Seq<Seq<char>>
    decreases films.len(),
{
    if films.len() == 0 {
        Seq::empty()
    } else {
        let r = seen_keys_spec(films.drop_last());
        let f = films.last();
        if f.watched || f.rating.is_some() {
            r.push(identity_key_spec(f.tmdb_id, f.title@, f.year))
        } else {
            r
        }
    }
}

/// The identity keys of the watched or rated films, in library order.
pub fn seen_keys(films: &[FilmRecord]) -> (out: Vec<String>)
    ensures
        out@.map_values(|s: String| s@) == seen_keys_spec(films@),
{
    let mut out: Vec<String> = Vec::new();
    let mut i: usize = 0;
    while i < films.len()
        invariant
            i <= films.len(),
            out@.map_values(|s: String| s@) == seen_keys_spec(films@.take(i as int)),
        decreases films.len() - i,
    {
        assert(films@.take(i + 1).drop_last() =~= films@.take(i as int));
        let f = &films[i];
        if f.watched || f.rating.is_some() {
            let ghost before = out@;
            out.push(identity_key(f.tmdb_id, f.title.as_str(), f.year));
            assert(out@.map_values(|s: String| s@) =~= before.map_values(|s: String| s@).push(
                identity_key_spec(f.tmdb_id, f.title@, f.year),
            ));
        }
        i += 1;
    }
    assert(films@.take(films.len() as int) =~= films@);
    out
}


pub open spec fn has_crew_id(credits: Seq<Credit>) -> bool {
    exists|i: int| 0 <= i < credits.len() && (#[trigger] credits[i]).id.is_some() && credits[i].job@ != "Actor"@
}

/// A rated TMDB film whose catalog row lacks identified crew or keywords.
pub open spec fn needs_hydrate_spec(f: FilmRecord) -> bool {
    f.tmdb_id.is_some() && f.rating.is_some() && (!has_crew_id(f.credits@) || f.keywords.len() == 0)
}

/// Whether a library film's catalog facts should be fetched again.
pub fn needs_catalog_hydrate(film: &FilmRecord) -> (b: bool)
    ensures
        b == needs_hydrate_spec(*film),
{
    if film.tmdb_id.is_none() || film.rating.is_none() {
        return false;
    }
    let mut has_crew_ids = false;
    let mut i: usize = 0;
    while i < film.credits.len()
        invariant
            i <= film.credits.len(),
            has_crew_ids == exists|k: int| 0 <= k < i && (#[trigger] film.credits@[k]).id.is_some() && film.credits@[k].job@ != "Actor"@,
        decreases film.credits.len() - i,
    {
        let c = &film.credits[i];
        if c.id.is_some() && !crate::text::eq_str(&chars_of(c.job.as_str()), "Actor") {
            has_crew_ids = true;
        }
        i += 1;
    }
    !has_crew_ids || film.keywords.len() == 0
}

} // verus!
