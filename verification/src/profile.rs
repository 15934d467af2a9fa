//! Feature observations: what one rated film says about each of its
//! features, and the integer parts of grouping them into affinities (how
//! many distinct films a feature rests on, and which portable facets its
//! liked films share).
//!
//! Weights, preferences and ages are in thousandths.
use vstd::prelude::*;
use crate::dimensions::signal_keyword_names;
use crate::features::{
    decade_label, decade_label_spec, evidence_film_id, evidence_id_of, family_for_job, job_family,
    keyword_is_taste_signal, role_of, runtime_bucket, runtime_bucket_spec, strs, Credit,
    EvidenceCluster, EvidenceFilm, FeatureFamily, FeatureKey, Keyword, KeywordRole,
};
use crate::text::trim;

verus! {

/// What the profile reads of one rated viewing, in thousandths: the
/// absolute preference, the strength of the relative preference (at most
/// 1.0), the affinity preference and the three weights.
#[derive(Clone, Copy, Debug)]
pub struct ProfileSignal {
    pub absolute: i32,
    pub relative_strength: u32,
    pub affinity_preference: i32,
    pub preference_weight: u32,
    pub recommendation_weight: u32,
    pub discovery_strength: u32,
}

/// How strongly a viewing speaks for its features: the positive part of the
/// absolute preference, scaled by the relative strength.
pub open spec fn positive_of(s: ProfileSignal) -> int {
    if s.absolute > 0 {
        s.absolute * s.relative_strength / 1000
    } else {
        0
    }
}

/// How strongly a viewing speaks against its features.
pub open spec fn negative_of(s: ProfileSignal) -> int {
    if s.absolute < 0 {
        -s.absolute
    } else {
        0
    }
}

/// One feature of one rated film, with the viewing's signal and the film
/// cited as evidence.
#[derive(Clone, Debug)]
pub struct FeatureObservation {
    pub key: FeatureKey,
    pub affinity_preference: i32,
    pub preference_weight: u32,
    pub recommendation_weight: u32,
    pub discovery_strength: u32,
    pub age_years: Option<u32>,
    pub evidence: EvidenceFilm,
    pub positive: i32,
    pub negative: i32,
    pub genres: Vec<String>,
}

pub open spec fn key_view(k: FeatureKey) -> (FeatureFamily, Option<i64>, Seq<char>) {
    (k.family, k.id, k.name@)
}

pub open spec fn genre_keys(g: Seq<Seq<char>>) -> Seq<(FeatureFamily, Option<i64>, Seq<char>)> {
    g.map_values(|n: Seq<char>| (FeatureFamily::Genre, None::<i64>, trim(n)))
}

/// The keys of the credits whose job names a family, in order.
pub open spec fn credit_keys(c: Seq<Credit>) -> Seq<(FeatureFamily, Option<i64>, Seq<char>)>
    decreases c.len(),
{
    if c.len() == 0 {
        Seq::empty()
    } else {
        let rest = credit_keys(c.drop_last());
        match job_family(c.last().job@) {
            Some(f) => rest.push((f, c.last().id, trim(c.last().name@))),
            None => rest,
        }
    }
}

/// The keys of the taste-signal keywords, in order.
pub open spec fn keyword_keys(k: Seq<Keyword>) -> Seq<(FeatureFamily, Option<i64>, Seq<char>)>
    decreases k.len(),
{
    if k.len() == 0 {
        Seq::empty()
    } else {
        let rest = keyword_keys(k.drop_last());
        if role_of(k.last().name@) != KeywordRole::Ignore {
            rest.push((FeatureFamily::Keyword, k.last().id, trim(k.last().name@)))
        } else {
            rest
        }
    }
}

/// The features of a film, in the order they are observed: its genres, its
/// credited people, its taste-signal keywords, its decade and its runtime
/// bucket.
pub open spec fn observation_keys(
    genres: Seq<Seq<char>>,
    credits: Seq<Credit>,
    keywords: Seq<Keyword>,
    year: Option<i32>,
    runtime: Option<i32>,
) -> Seq<(FeatureFamily, Option<i64>, Seq<char>)> {
    let base = genre_keys(genres) + credit_keys(credits) + keyword_keys(keywords);
    let with_decade = match year {
        Some(y) => base.push((FeatureFamily::Decade, None::<i64>, trim(decade_label_spec(y)))),
        None => base,
    };
    match runtime {
        Some(rt) => with_decade.push(
            (FeatureFamily::Runtime, None::<i64>, trim(runtime_bucket_spec(rt))),
        ),
        None => with_decade,
    }
}

/// `e` cites the film: its title, rating and id, the names of all its
/// credits, its taste-signal keywords, its genres, year and runtime.
pub open spec fn cites_film(
    e: EvidenceFilm,
    title: Seq<char>,
    rating: i32,
    tmdb_id: Option<i64>,
    genres: Seq<Seq<char>>,
    credits: Seq<Credit>,
    keywords: Seq<Keyword>,
    year: Option<i32>,
    runtime: Option<i32>,
) -> bool {
    &&& e.title@ == title
    &&& e.rating == rating
    &&& e.tmdb_id == tmdb_id
    &&& strs(e.people@) == credits.map_values(|c: Credit| c.name@)
    &&& strs(e.keywords@) == signal_keyword_names(keywords)
    &&& strs(e.genres@) == genres
    &&& e.year == year
    &&& e.runtime == runtime
}

/// Two evidence films that read the same.
pub open spec fn same_evidence(a: EvidenceFilm, b: EvidenceFilm) -> bool {
    &&& a.title@ == b.title@
    &&& a.rating == b.rating
    &&& a.tmdb_id == b.tmdb_id
    &&& strs(a.people@) == strs(b.people@)
    &&& strs(a.keywords@) == strs(b.keywords@)
    &&& strs(a.genres@) == strs(b.genres@)
    &&& a.year == b.year
    &&& a.runtime == b.runtime
}

/// `o` carries the viewing's signal, age, evidence and genres.
pub open spec fn carries(
    o: FeatureObservation,
    s: ProfileSignal,
    age_years: Option<u32>,
    e: EvidenceFilm,
    genres: Seq<Seq<char>>,
) -> bool {
    &&& o.affinity_preference == s.affinity_preference
    &&& o.preference_weight == s.preference_weight
    &&& o.recommendation_weight == s.recommendation_weight
    &&& o.discovery_strength == s.discovery_strength
    &&& o.age_years == age_years
    &&& o.positive == positive_of(s)
    &&& o.negative == negative_of(s)
    &&& same_evidence(o.evidence, e)
    &&& strs(o.genres@) == genres
}

fn copy_string_slice(v: &[String]) -> (out: Vec<String>)
    ensures
        strs(out@) == strs(v@),
{
    let mut out: Vec<String> = Vec::new();
    let mut i: usize = 0;
    while i < v.len()
        invariant
            i <= v.len(),
            strs(out@) == strs(v@.take(i as int)),
        decreases v.len() - i,
    {
        let ghost before = out@;
        out.push(v[i].clone());
        assert(strs(out@) =~= strs(before).push(v@[i as int]@));
        i += 1;
        assert(strs(v@.take(i as int)) =~= strs(v@.take(i - 1)).push(v@[i - 1]@));
    }
    assert(v@.take(v.len() as int) =~= v@);
    out
}

pub(crate) fn copy_string_vec(v: &Vec<String>) -> (out: Vec<String>)
    ensures
        strs(out@) == strs(v@),
{
    copy_string_slice(v.as_slice())
}

fn credit_name_list(cs: &[Credit]) -> (out: Vec<String>)
    ensures
        strs(out@) == cs@.map_values(|c: Credit| c.name@),
{
    let mut out: Vec<String> = Vec::new();
    let mut i: usize = 0;
    while i < cs.len()
        invariant
            i <= cs.len(),
            strs(out@) == cs@.take(i as int).map_values(|c: Credit| c.name@),
        decreases cs.len() - i,
    {
        let ghost before = out@;
        out.push(cs[i].name.clone());
        assert(strs(out@) =~= strs(before).push(cs@[i as int].name@));
        i += 1;
        assert(cs@.take(i as int).map_values(|c: Credit| c.name@) =~= cs@.take(i - 1).map_values(
            |c: Credit| c.name@,
        ).push(cs@[i - 1].name@));
    }
    assert(cs@.take(cs.len() as int) =~= cs@);
    out
}

fn signal_name_list(ks: &[Keyword]) -> (out: Vec<String>)
    ensures
        strs(out@) == signal_keyword_names(ks@),
{
    let mut out: Vec<String> = Vec::new();
    let mut i: usize = 0;
    while i < ks.len()
        invariant
            i <= ks.len(),
            strs(out@) == signal_keyword_names(ks@.take(i as int)),
        decreases ks.len() - i,
    {
        let ghost before = out@;
        assert(ks@.take(i + 1).drop_last() =~= ks@.take(i as int));
        if keyword_is_taste_signal(ks[i].name.as_str()) {
            out.push(ks[i].name.clone());
            assert(strs(out@) =~= strs(before).push(ks@[i as int].name@));
        }
        i += 1;
    }
    assert(ks@.take(ks.len() as int) =~= ks@);
    out
}

pub(crate) fn copy_evidence_film(e: &EvidenceFilm) -> (c: EvidenceFilm)
    ensures
        same_evidence(c, *e),
{
    EvidenceFilm {
        title: e.title.clone(),
        rating: e.rating,
        tmdb_id: e.tmdb_id,
        people: copy_string_vec(&e.people),
        keywords: copy_string_vec(&e.keywords),
        genres: copy_string_vec(&e.genres),
        year: e.year,
        runtime: e.runtime,
    }
}

/// Appends the observation of `key` made from the viewing.
fn push_observation(
    out: &mut Vec<FeatureObservation>,
    key: FeatureKey,
    s: &ProfileSignal,
    age_years: Option<u32>,
    e: &EvidenceFilm,
    positive: i32,
    negative: i32,
    genres: &[String],
)
    requires
        positive == positive_of(*s),
        negative == negative_of(*s),
    ensures
        final(out)@.len() == old(out)@.len() + 1,
        forall|i: int| 0 <= i < old(out)@.len() ==> final(out)@[i] == old(out)@[i],
        final(out)@.last().key == key,
        carries(final(out)@.last(), *s, age_years, *e, strs(genres@)),
{
    let o = FeatureObservation {
        key,
        affinity_preference: s.affinity_preference,
        preference_weight: s.preference_weight,
        recommendation_weight: s.recommendation_weight,
        discovery_strength: s.discovery_strength,
        age_years,
        evidence: copy_evidence_film(e),
        positive,
        negative,
        genres: copy_string_slice(genres),
    };
    out.push(o);
}

/// The features of a film that are not contextual: its genres, its
/// credited people and its taste-signal keywords.
pub open spec fn primary_keys(
    genres: Seq<Seq<char>>,
    credits: Seq<Credit>,
    keywords: Seq<Keyword>,
) -> Seq<(FeatureFamily, Option<i64>, Seq<char>)> {
    genre_keys(genres) + credit_keys(credits) + keyword_keys(keywords)
}

pub open spec fn key_views(s: Seq<FeatureKey>) -> Seq<(FeatureFamily, Option<i64>, Seq<char>)> {
    s.map_values(|k: FeatureKey| key_view(k))
}

/// The keys of a film's genres, credited people and taste-signal keywords,
/// in that order.
pub fn primary_feature_keys(genres: &[String], credits: &[Credit], keywords: &[Keyword]) -> (out: Vec<
    FeatureKey,
>)
    ensures
        key_views(out@) == primary_keys(strs(genres@), credits@, keywords@),
{
    let ghost gs = strs(genres@);
    let mut out: Vec<FeatureKey> = Vec::new();
    let mut i: usize = 0;
    while i < genres.len()
        invariant
            i <= genres.len(),
            gs == strs(genres@),
            key_views(out@) == genre_keys(gs.take(i as int)),
        decreases genres.len() - i,
    {
        let ghost before = key_views(out@);
        out.push(FeatureKey::new(FeatureFamily::Genre, None, genres[i].as_str()));
        assert(key_views(out@) =~= before.push((FeatureFamily::Genre, None::<i64>, trim(gs[i as int]))));
        i += 1;
        assert(genre_keys(gs.take(i as int)) =~= genre_keys(gs.take(i - 1)).push(
            (FeatureFamily::Genre, None::<i64>, trim(gs[i - 1])),
        ));
    }
    assert(gs.take(genres.len() as int) =~= gs);
    let mut c: usize = 0;
    while c < credits.len()
        invariant
            c <= credits.len(),
            gs == strs(genres@),
            key_views(out@) == genre_keys(gs) + credit_keys(credits@.take(c as int)),
        decreases credits.len() - c,
    {
        assert(credits@.take(c + 1).drop_last() =~= credits@.take(c as int));
        let ghost before = key_views(out@);
        match family_for_job(credits[c].job.as_str()) {
            Some(family) => {
                out.push(FeatureKey::new(family, credits[c].id, credits[c].name.as_str()));
                assert(key_views(out@) =~= before.push(
                    (family, credits@[c as int].id, trim(credits@[c as int].name@)),
                ));
                assert(genre_keys(gs) + credit_keys(credits@.take(c + 1)) =~= before.push(
                    (family, credits@[c as int].id, trim(credits@[c as int].name@)),
                ));
            },
            None => {
                assert(genre_keys(gs) + credit_keys(credits@.take(c + 1)) =~= before);
            },
        }
        c += 1;
    }
    assert(credits@.take(credits.len() as int) =~= credits@);
    let ghost people = genre_keys(gs) + credit_keys(credits@);
    let mut k: usize = 0;
    while k < keywords.len()
        invariant
            k <= keywords.len(),
            gs == strs(genres@),
            people == genre_keys(gs) + credit_keys(credits@),
            key_views(out@) == people + keyword_keys(keywords@.take(k as int)),
        decreases keywords.len() - k,
    {
        assert(keywords@.take(k + 1).drop_last() =~= keywords@.take(k as int));
        let ghost before = key_views(out@);
        if keyword_is_taste_signal(keywords[k].name.as_str()) {
            out.push(FeatureKey::new(FeatureFamily::Keyword, keywords[k].id, keywords[k].name.as_str()));
            let ghost kv = (FeatureFamily::Keyword, keywords@[k as int].id, trim(keywords@[k as int].name@));
            assert(key_views(out@) =~= before.push(kv));
            assert(people + keyword_keys(keywords@.take(k + 1)) =~= before.push(kv));
        } else {
            assert(people + keyword_keys(keywords@.take(k + 1)) =~= before);
        }
        k += 1;
    }
    assert(keywords@.take(keywords.len() as int) =~= keywords@);
    out
}

/// The features a rated film brings to pairing and exception checks: its
/// primary features, none when the film has no signal. These are its
/// observed features without the contextual decade and runtime.
pub fn film_feature_keys(film: &crate::retrieve::FilmRecord) -> (out: Vec<FeatureKey>)
    ensures
        film.signal.is_none() ==> out@.len() == 0,
        film.signal.is_some() ==> key_views(out@) == primary_keys(
            strs(film.genres@),
            film.credits@,
            film.keywords@,
        ),
{
    match film.signal {
        None => Vec::new(),
        Some(_) => primary_feature_keys(film.genres.as_slice(), film.credits.as_slice(), film.keywords.as_slice()),
    }
}

fn copy_feature_key(k: &FeatureKey) -> (c: FeatureKey)
    ensures
        key_view(c) == key_view(*k),
{
    FeatureKey { family: k.family, id: k.id, name: k.name.clone() }
}

/// Everything one rated film says about its features: one observation per
/// genre, per credit whose job names a family, per taste-signal keyword,
/// and for its decade and runtime bucket when known. Each carries the
/// viewing's signal and age, the film as evidence and the film's genres.
pub fn observations_from_film(
    title: &str,
    rating: i32,
    tmdb_id: Option<i64>,
    signal: &ProfileSignal,
    age_years: Option<u32>,
    genres: &[String],
    credits: &[Credit],
    keywords: &[Keyword],
    year: Option<i32>,
    runtime: Option<i32>,
) -> (out: Vec<FeatureObservation>)
    requires
        signal.relative_strength <= 1000,
        signal.absolute > i32::MIN,
    ensures
        out@.len() == observation_keys(strs(genres@), credits@, keywords@, year, runtime).len(),
        forall|i: int|
            0 <= i < out@.len() ==> key_view(#[trigger] out@[i].key) == observation_keys(
                strs(genres@),
                credits@,
                keywords@,
                year,
                runtime,
            )[i],
        forall|i: int|
            0 <= i < out@.len() ==> #[trigger] cites_film(
                out@[i].evidence,
                title@,
                rating,
                tmdb_id,
                strs(genres@),
                credits@,
                keywords@,
                year,
                runtime,
            ),
        forall|i: int|
            0 <= i < out@.len() ==> carries(
                #[trigger] out@[i],
                *signal,
                age_years,
                out@[i].evidence,
                strs(genres@),
            ),
{
    let evidence = EvidenceFilm {
        title: title.to_string(),
        rating,
        tmdb_id,
        people: credit_name_list(credits),
        keywords: signal_name_list(keywords),
        genres: copy_string_slice(genres),
        year,
        runtime,
    };
    let ghost gs = strs(genres@);
    assert(cites_film(evidence, title@, rating, tmdb_id, gs, credits@, keywords@, year, runtime));
    let abs: i64 = signal.absolute as i64;
    let positive: i32 = if abs > 0 {
        let rs: i64 = signal.relative_strength as i64;
        assert(abs * rs <= 2147483647 * 1000) by (nonlinear_arith)
            requires
                0 < abs <= 2147483647,
                0 <= rs <= 1000,
        ;
        assert(abs * rs >= 0) by (nonlinear_arith)
            requires
                0 < abs,
                0 <= rs,
        ;
        let p: i64 = abs * rs / 1000;
        assert(p <= abs) by (nonlinear_arith)
            requires
                p == abs * rs / 1000,
                abs > 0,
                0 <= rs <= 1000,
        ;
        p as i32
    } else {
        0
    };
    let negative: i32 = if abs < 0 {
        (-abs) as i32
    } else {
        0
    };
    let ghost all = observation_keys(gs, credits@, keywords@, year, runtime);
    let mut keys = primary_feature_keys(genres, credits, keywords);
    match year {
        Some(y) => {
            let label = decade_label(y);
            keys.push(FeatureKey::new(FeatureFamily::Decade, None, label.as_str()));
        },
        None => {},
    }
    match runtime {
        Some(rt) => {
            keys.push(FeatureKey::new(FeatureFamily::Runtime, None, runtime_bucket(rt)));
        },
        None => {},
    }
    assert(key_views(keys@) =~= all);
    let mut out: Vec<FeatureObservation> = Vec::new();
    let mut i: usize = 0;
    while i < keys.len()
        invariant
            i <= keys.len(),
            gs == strs(genres@),
            key_views(keys@) == all,
            positive == positive_of(*signal),
            negative == negative_of(*signal),
            cites_film(evidence, title@, rating, tmdb_id, gs, credits@, keywords@, year, runtime),
            out@.len() == i,
            forall|j: int| 0 <= j < out@.len() ==> key_view(#[trigger] out@[j].key) == all[j],
            forall|j: int|
                0 <= j < out@.len() ==> carries(#[trigger] out@[j], *signal, age_years, evidence, gs),
        decreases keys.len() - i,
    {
        let key = copy_feature_key(&keys[i]);
        assert(key_views(keys@)[i as int] == key_view(keys@[i as int]));
        push_observation(&mut out, key, signal, age_years, &evidence, positive, negative, genres);
        i += 1;
    }
    assert forall|j: int| 0 <= j < out@.len() implies #[trigger] cites_film(
        out@[j].evidence,
        title@,
        rating,
        tmdb_id,
        gs,
        credits@,
        keywords@,
        year,
        runtime,
    ) by {
        assert(carries(out@[j], *signal, age_years, evidence, gs));
    }
    out
}

// ---------------------------------------------------------------------------
// Distinct films behind a feature
// ---------------------------------------------------------------------------

/// The identity of the film an observation cites.
pub open spec fn obs_id(o: FeatureObservation) -> Seq<char> {
    evidence_id_of(o.evidence.tmdb_id, o.evidence.title@)
}

pub open spec fn obs_ids(g: Seq<FeatureObservation>) -> Seq<Seq<char>> {
    g.map_values(|o: FeatureObservation| obs_id(o))
}

pub open spec fn char_views(v: Seq<Vec<char>>) -> Seq<Seq<char>> {
    v.map_values(|c: Vec<char>| c@)
}

pub(crate) fn holds_chars(list: &Vec<Vec<char>>, x: &Vec<char>) -> (b: bool)
    ensures
        b == char_views(list@).contains(x@),
{
    let mut i: usize = 0;
    while i < list.len()
        invariant
            i <= list.len(),
            forall|k: int| 0 <= k < i ==> list@[k]@ != x@,
        decreases list.len() - i,
    {
        if crate::text::seq_eq(&list[i], x) {
            assert(char_views(list@)[i as int] == x@);
            return true;
        }
        i += 1;
    }
    assert forall|k: int| 0 <= k < char_views(list@).len() implies char_views(list@)[k] != x@ by {
        assert(list@[k]@ != x@);
    }
    false
}

pub(crate) fn observation_id(o: &FeatureObservation) -> (v: Vec<char>)
    ensures
        v@ == obs_id(*o),
{
    let s = evidence_film_id(&o.evidence);
    crate::text::chars_of(s.as_str())
}

/// How many distinct films the observations cite.
pub fn distinct_film_count(group: &[FeatureObservation]) -> (n: u32)
    requires
        group@.len() <= u32::MAX,
    ensures
        n == obs_ids(group@).to_set().len(),
{
    let mut seen: Vec<Vec<char>> = Vec::new();
    let mut i: usize = 0;
    while i < group.len()
        invariant
            i <= group.len(),
            seen@.len() <= i,
            char_views(seen@).no_duplicates(),
            char_views(seen@).to_set() == obs_ids(group@.take(i as int)).to_set(),
        decreases group.len() - i,
    {
        let id = observation_id(&group[i]);
        let ghost before = char_views(seen@);
        assert(obs_ids(group@.take(i + 1)) =~= obs_ids(group@.take(i as int)).push(id@));
        proof {
            obs_ids(group@.take(i as int)).lemma_push_to_set_commute(id@);
        }
        if !holds_chars(&seen, &id) {
            seen.push(id);
            assert(char_views(seen@) =~= before.push(id@));
            proof {
                before.lemma_push_to_set_commute(id@);
            }
        } else {
            assert(before.to_set().insert(id@) =~= before.to_set());
        }
        i += 1;
    }
    assert(group@.take(group.len() as int) =~= group@);
    proof {
        char_views(seen@).unique_seq_to_set();
    }
    seen.len() as u32
}

// ---------------------------------------------------------------------------
// Shared facets of a feature's liked films
// ---------------------------------------------------------------------------

/// The liked films behind a feature, in order of first liked observation:
/// each film's identity and the genres of that observation.
pub open spec fn liked_films(g: Seq<FeatureObservation>) -> Seq<(Seq<char>, Seq<Seq<char>>)>
    decreases g.len(),
{
    if g.len() == 0 {
        Seq::empty()
    } else {
        let r = liked_films(g.drop_last());
        let o = g.last();
        if o.positive > 0 && !r.map_values(|f: (Seq<char>, Seq<Seq<char>>)| f.0).contains(
            obs_id(o),
        ) {
            r.push((obs_id(o), strs(o.genres@)))
        } else {
            r
        }
    }
}

/// The lower-cased genres of each film.
pub open spec fn genre_facets(films: Seq<(Seq<char>, Seq<Seq<char>>)>) -> Seq<Seq<Seq<char>>> {
    films.map_values(
        |f: (Seq<char>, Seq<Seq<char>>)| f.1.map_values(|g: Seq<char>| crate::text::unicode_lowercase(g)),
    )
}

/// The viewing modes of each film's genres.
pub open spec fn mode_facets(films: Seq<(Seq<char>, Seq<Seq<char>>)>) -> Seq<Seq<Seq<char>>> {
    films.map_values(
        |f: (Seq<char>, Seq<Seq<char>>)| crate::features::modes_from_genres_spec(f.1),
    )
}

/// How many of the films have `x` among their facets.
pub open spec fn films_with(facets: Seq<Seq<Seq<char>>>, x: Seq<char>) -> nat
    decreases facets.len(),
{
    if facets.len() == 0 {
        0
    } else {
        films_with(facets.drop_last(), x) + if facets.last().contains(x) {
            1nat
        } else {
            0nat
        }
    }
}

/// `x` is a facet of more than half of the films.
pub open spec fn majority(facets: Seq<Seq<Seq<char>>>, x: Seq<char>) -> bool {
    2 * films_with(facets, x) > facets.len()
}

pub open spec fn facet_views(v: Seq<Vec<String>>) -> Seq<Seq<Seq<char>>> {
    v.map_values(|f: Vec<String>| strs(f@))
}

proof fn lemma_films_with_bounded(facets: Seq<Seq<Seq<char>>>, x: Seq<char>)
    ensures
        films_with(facets, x) <= facets.len(),
    decreases facets.len(),
{
    if facets.len() > 0 {
        lemma_films_with_bounded(facets.drop_last(), x);
    }
}

proof fn lemma_films_with_witness(facets: Seq<Seq<Seq<char>>>, x: Seq<char>)
    requires
        films_with(facets, x) > 0,
    ensures
        exists|a: int, b: int| 0 <= a < facets.len() && 0 <= b < facets[a].len() && facets[a][b] == x,
    decreases facets.len(),
{
    let last = facets.last();
    if last.contains(x) {
        let b = choose|b: int| 0 <= b < last.len() && last[b] == x;
        assert(facets[facets.len() - 1][b] == x);
    } else {
        lemma_films_with_witness(facets.drop_last(), x);
        let (a, b) = choose|a: int, b: int|
            0 <= a < facets.drop_last().len() && 0 <= b < facets.drop_last()[a].len()
                && facets.drop_last()[a][b] == x;
        assert(facets[a][b] == x);
    }
}

fn string_eq(a: &String, b: &String) -> (r: bool)
    ensures
        r == (a@ == b@),
{
    let x = crate::text::chars_of(a.as_str());
    let y = crate::text::chars_of(b.as_str());
    crate::text::seq_eq(&x, &y)
}

fn holds_string(list: &Vec<String>, x: &String) -> (b: bool)
    ensures
        b == strs(list@).contains(x@),
{
    let mut i: usize = 0;
    while i < list.len()
        invariant
            i <= list.len(),
            forall|k: int| 0 <= k < i ==> list@[k]@ != x@,
        decreases list.len() - i,
    {
        if string_eq(&list[i], x) {
            assert(strs(list@)[i as int] == x@);
            return true;
        }
        i += 1;
    }
    assert forall|k: int| 0 <= k < strs(list@).len() implies strs(list@)[k] != x@ by {
        assert(list@[k]@ != x@);
    }
    false
}

/// How many of the films have `x` among their facets.
fn count_films_with(facets: &Vec<Vec<String>>, x: &String) -> (n: usize)
    ensures
        n == films_with(facet_views(facets@), x@),
{
    let ghost fv = facet_views(facets@);
    let mut n: usize = 0;
    let mut i: usize = 0;
    while i < facets.len()
        invariant
            i <= facets.len(),
            fv == facet_views(facets@),
            n == films_with(fv.take(i as int), x@),
            n <= i,
        decreases facets.len() - i,
    {
        assert(fv.take(i + 1).drop_last() =~= fv.take(i as int));
        assert(fv.take(i + 1).last() == strs(facets@[i as int]@));
        if holds_string(&facets[i], x) {
            n += 1;
        }
        i += 1;
    }
    assert(fv.take(facets.len() as int) =~= fv);
    n
}

/// The facets shared by more than half of the films, each once.
fn majority_facets(facets: &Vec<Vec<String>>) -> (out: Vec<String>)
    ensures
        strs(out@).no_duplicates(),
        forall|x: Seq<char>| strs(out@).contains(x) <==> majority(facet_views(facets@), x),
{
    let ghost fv = facet_views(facets@);
    let n = facets.len();
    let mut out: Vec<String> = Vec::new();
    let mut i: usize = 0;
    while i < facets.len()
        invariant
            i <= facets.len(),
            n == facets.len(),
            fv == facet_views(facets@),
            strs(out@).no_duplicates(),
            forall|x: Seq<char>| strs(out@).contains(x) ==> majority(fv, x),
            forall|a: int, b: int|
                0 <= a < i && 0 <= b < fv[a].len() && majority(fv, #[trigger] fv[a][b])
                    ==> strs(out@).contains(fv[a][b]),
        decreases facets.len() - i,
    {
        let film = &facets[i];
        assert(fv[i as int] == strs(film@));
        let mut j: usize = 0;
        while j < film.len()
            invariant
                i < facets.len(),
                j <= film.len(),
                n == facets.len(),
                film == &facets@[i as int],
                fv == facet_views(facets@),
                fv[i as int] == strs(film@),
                strs(out@).no_duplicates(),
                forall|x: Seq<char>| strs(out@).contains(x) ==> majority(fv, x),
                forall|a: int, b: int|
                    0 <= a < i && 0 <= b < fv[a].len() && majority(fv, #[trigger] fv[a][b])
                        ==> strs(out@).contains(fv[a][b]),
                forall|b: int|
                    0 <= b < j && majority(fv, #[trigger] fv[i as int][b]) ==> strs(out@).contains(
                        fv[i as int][b],
                    ),
            decreases film.len() - j,
        {
            let x = &film[j];
            assert(fv[i as int][j as int] == x@);
            if !holds_string(&out, x) {
                let count = count_films_with(facets, x);
                proof {
                    lemma_films_with_bounded(fv, x@);
                }
                if count > n / 2 {
                    let ghost before = strs(out@);
                    out.push(x.clone());
                    assert(strs(out@) =~= before.push(x@));
                    assert forall|y: Seq<char>| strs(out@).contains(y) implies majority(fv, y) by {
                        if y != x@ {
                            assert(before.contains(y)) by {
                                let k = choose|k: int| 0 <= k < strs(out@).len() && strs(out@)[k] == y;
                                assert(before[k] == y);
                            }
                        }
                    }
                    assert forall|a: int, b: int|
                        0 <= a < i && 0 <= b < fv[a].len() && majority(fv, #[trigger] fv[a][b])
                            implies strs(out@).contains(fv[a][b]) by {
                        let k = choose|k: int| 0 <= k < before.len() && before[k] == fv[a][b];
                        assert(strs(out@)[k] == fv[a][b]);
                    }
                    assert forall|b: int|
                        0 <= b <= j && majority(fv, #[trigger] fv[i as int][b]) implies strs(
                            out@,
                        ).contains(fv[i as int][b]) by {
                        if b < j {
                            let k = choose|k: int| 0 <= k < before.len() && before[k] == fv[i as int][b];
                            assert(strs(out@)[k] == fv[i as int][b]);
                        } else {
                            assert(strs(out@)[before.len() as int] == x@);
                        }
                    }
                } else {
                    assert(!majority(fv, x@));
                }
            }
            j += 1;
        }
        i += 1;
    }
    assert forall|x: Seq<char>| majority(fv, x) implies strs(out@).contains(x) by {
        lemma_films_with_witness(fv, x);
        let (a, b) = choose|a: int, b: int| 0 <= a < fv.len() && 0 <= b < fv[a].len() && fv[a][b] == x;
        assert(majority(fv, fv[a][b]));
    }
    out
}

fn lower_strings(v: &Vec<String>) -> (out: Vec<String>)
    ensures
        strs(out@) == strs(v@).map_values(|g: Seq<char>| crate::text::unicode_lowercase(g)),
{
    let mut out: Vec<String> = Vec::new();
    let mut i: usize = 0;
    while i < v.len()
        invariant
            i <= v.len(),
            strs(out@) == strs(v@.take(i as int)).map_values(
                |g: Seq<char>| crate::text::unicode_lowercase(g),
            ),
        decreases v.len() - i,
    {
        let ghost before = strs(out@);
        let c = crate::text::chars_of(v[i].as_str());
        let l = crate::text::unicode_lower(&c);
        out.push(crate::text::string_of(&l));
        assert(strs(out@) =~= before.push(crate::text::unicode_lowercase(v@[i as int]@)));
        i += 1;
        assert(strs(v@.take(i as int)).map_values(|g: Seq<char>| crate::text::unicode_lowercase(g))
            =~= strs(v@.take(i - 1)).map_values(|g: Seq<char>| crate::text::unicode_lowercase(g)).push(
            crate::text::unicode_lowercase(v@[i - 1]@),
        ));
    }
    assert(v@.take(v.len() as int) =~= v@);
    out
}

fn empty_cluster() -> (c: EvidenceCluster)
    ensures
        c.empty(),
{
    EvidenceCluster { genres: Vec::new(), modes: Vec::new(), keywords: Vec::new() }
}

/// The portable facets shared by a majority of a person's or keyword's
/// liked films: the lower-cased genres and the viewing modes that more than
/// half of them have. Each liked film counts once, with the genres of its
/// first liked observation. Other features, and features with fewer than
/// two liked films, get an empty cluster.
pub fn cluster_from_group(key: &FeatureKey, group: &[FeatureObservation]) -> (c: EvidenceCluster)
    ensures
        !key.family.person_or_keyword() || liked_films(group@).len() < 2 ==> c.empty(),
        key.family.person_or_keyword() && liked_films(group@).len() >= 2 ==> {
            &&& strs(c.genres@).no_duplicates()
            &&& forall|x: Seq<char>|
                strs(c.genres@).contains(x) <==> majority(genre_facets(liked_films(group@)), x)
            &&& strs(c.modes@).no_duplicates()
            &&& forall|x: Seq<char>|
                strs(c.modes@).contains(x) <==> majority(mode_facets(liked_films(group@)), x)
            &&& c.keywords@.len() == 0
        },
{
    if !key.is_person_or_keyword() {
        return empty_cluster();
    }
    let mut ids: Vec<Vec<char>> = Vec::new();
    let mut lists: Vec<Vec<String>> = Vec::new();
    let mut i: usize = 0;
    while i < group.len()
        invariant
            i <= group.len(),
            ids@.len() == liked_films(group@.take(i as int)).len(),
            lists@.len() == ids@.len(),
            forall|k: int|
                0 <= k < ids@.len() ==> (#[trigger] ids@[k])@ == liked_films(group@.take(i as int))[k].0,
            forall|k: int|
                0 <= k < lists@.len() ==> strs((#[trigger] lists@[k])@) == liked_films(
                    group@.take(i as int),
                )[k].1,
        decreases group.len() - i,
    {
        let ghost lf = liked_films(group@.take(i as int));
        assert(group@.take(i + 1).drop_last() =~= group@.take(i as int));
        assert(char_views(ids@) =~= lf.map_values(|f: (Seq<char>, Seq<Seq<char>>)| f.0));
        if group[i].positive > 0 {
            let id = observation_id(&group[i]);
            if !holds_chars(&ids, &id) {
                ids.push(id);
                lists.push(copy_string_vec(&group[i].genres));
            }
        }
        i += 1;
    }
    assert(group@.take(group.len() as int) =~= group@);
    let ghost films = liked_films(group@);
    if ids.len() < 2 {
        return empty_cluster();
    }
    let mut genre_lists: Vec<Vec<String>> = Vec::new();
    let mut mode_lists: Vec<Vec<String>> = Vec::new();
    let mut f: usize = 0;
    while f < lists.len()
        invariant
            f <= lists.len(),
            lists@.len() == films.len(),
            forall|k: int| 0 <= k < lists@.len() ==> strs((#[trigger] lists@[k])@) == films[k].1,
            facet_views(genre_lists@) == genre_facets(films.take(f as int)),
            facet_views(mode_lists@) == mode_facets(films.take(f as int)),
        decreases lists.len() - f,
    {
        let ghost gb = facet_views(genre_lists@);
        let ghost mb = facet_views(mode_lists@);
        genre_lists.push(lower_strings(&lists[f]));
        mode_lists.push(crate::features::modes_from_genres(lists[f].as_slice()));
        assert(facet_views(genre_lists@) =~= gb.push(
            films[f as int].1.map_values(|g: Seq<char>| crate::text::unicode_lowercase(g)),
        ));
        assert(facet_views(mode_lists@) =~= mb.push(
            crate::features::modes_from_genres_spec(films[f as int].1),
        ));
        f += 1;
        assert(genre_facets(films.take(f as int)) =~= genre_facets(films.take(f - 1)).push(
            films[f - 1].1.map_values(|g: Seq<char>| crate::text::unicode_lowercase(g)),
        ));
        assert(mode_facets(films.take(f as int)) =~= mode_facets(films.take(f - 1)).push(
            crate::features::modes_from_genres_spec(films[f - 1].1),
        ));
    }
    assert(films.take(lists.len() as int) =~= films);
    EvidenceCluster {
        genres: majority_facets(&genre_lists),
        modes: majority_facets(&mode_lists),
        keywords: Vec::new(),
    }
}

// ---------------------------------------------------------------------------
// What reviews add
// ---------------------------------------------------------------------------

/// The weight a review's praise or criticism adds: a fifth of the
/// preference's size, taken between 0.35 and 1 (thousandths).
pub open spec fn review_supplement(affinity_preference: int) -> int {
    let a = if affinity_preference < 0 {
        -affinity_preference
    } else {
        affinity_preference
    };
    let strength = if a < 350 {
        350
    } else if a > 1000 {
        1000
    } else {
        a
    };
    strength * 200 / 1000
}

pub open spec fn clamp_unit(x: int) -> int {
    if x < -1000 {
        -1000
    } else if x > 1000 {
        1000
    } else {
        x
    }
}

pub open spec fn saturating(x: int) -> i32 {
    if x > i32::MAX {
        i32::MAX
    } else {
        x as i32
    }
}

/// An observation after the viewer's review is read: when the review names
/// the feature (up to ASCII case) and the feature is praise or criticism
/// of execution, the preference moves that way by the supplement (kept
/// within ±1) and the supplement is added to the positive or negative
/// weight; otherwise the observation is unchanged.
pub open spec fn reviewed(o: FeatureObservation, review_keywords: Seq<Keyword>) -> FeatureObservation {
    let named = crate::features::any_eq_ic(crate::features::keyword_names(review_keywords), o.key.name@);
    match crate::features::polarity_of(o.key.name@) {
        Some(p) => if named {
            let s = review_supplement(o.affinity_preference as int);
            if p > 0 {
                FeatureObservation {
                    affinity_preference: clamp_unit(o.affinity_preference + s) as i32,
                    positive: saturating(o.positive + s),
                    ..o
                }
            } else {
                FeatureObservation {
                    affinity_preference: clamp_unit(o.affinity_preference - s) as i32,
                    negative: saturating(o.negative + s),
                    ..o
                }
            }
        } else {
            o
        },
        None => o,
    }
}

fn review_one(o: FeatureObservation, review_keywords: &[Keyword]) -> (r: FeatureObservation)
    ensures
        r == reviewed(o, review_keywords@),
{
    let name = crate::text::chars_of(o.key.name.as_str());
    let named = crate::features::any_keyword_eq_ignore_case(review_keywords, &name);
    let polarity = crate::features::execution_signal_polarity(o.key.name.as_str());
    match polarity {
        Some(p) => {
            if !named {
                return o;
            }
            let ap: i64 = o.affinity_preference as i64;
            let a: i64 = if ap < 0 {
                -ap
            } else {
                ap
            };
            let strength: i64 = if a < 350 {
                350
            } else if a > 1000 {
                1000
            } else {
                a
            };
            let s: i64 = strength * 200 / 1000;
            let mut r = o;
            if p > 0 {
                let m: i64 = ap + s;
                r.affinity_preference = if m > 1000 {
                    1000
                } else if m < -1000 {
                    -1000
                } else {
                    m as i32
                };
                let w: i64 = r.positive as i64 + s;
                r.positive = if w > i32::MAX as i64 {
                    i32::MAX
                } else {
                    w as i32
                };
            } else {
                let m: i64 = ap - s;
                r.affinity_preference = if m > 1000 {
                    1000
                } else if m < -1000 {
                    -1000
                } else {
                    m as i32
                };
                let w: i64 = r.negative as i64 + s;
                r.negative = if w > i32::MAX as i64 {
                    i32::MAX
                } else {
                    w as i32
                };
            }
            r
        },
        None => o,
    }
}

/// Reads the viewer's review into a film's observations: each feature the
/// review names as praise or criticism of execution is moved that way.
pub fn apply_review_language(obs: Vec<FeatureObservation>, review_keywords: &[Keyword]) -> (out: Vec<
    FeatureObservation,
>)
    ensures
        out@.len() == obs@.len(),
        forall|i: int| 0 <= i < out@.len() ==> out@[i] == reviewed(obs@[i], review_keywords@),
{
    let ghost all = obs@;
    let mut rest = obs;
    let mut out: Vec<FeatureObservation> = Vec::new();
    let n = rest.len();
    let mut t: usize = 0;
    while t < n
        invariant
            t <= n,
            all.len() == n,
            rest@ == all.skip(t as int),
            out@.len() == t,
            forall|i: int| 0 <= i < t ==> out@[i] == reviewed(all[i], review_keywords@),
        decreases n - t,
    {
        let ghost before = rest@;
        let o = rest.remove(0);
        assert(o == all[t as int]);
        out.push(review_one(o, review_keywords));
        t += 1;
        assert(rest@ =~= all.skip(t as int)) by {
            assert forall|k: int| 0 <= k < rest@.len() implies rest@[k] == all.skip(t as int)[k] by {
                assert(rest@[k] == before[k + 1]);
            }
        }
    }
    out
}

// ---------------------------------------------------------------------------
// Laws
// ---------------------------------------------------------------------------

/// However many times one film is observed for a feature (rewatches,
/// repeated credit rows), it counts as one film.
pub proof fn lemma_one_film_counts_once(group: Seq<FeatureObservation>)
    requires
        group.len() > 0,
        forall|i: int| 0 <= i < group.len() ==> obs_id(#[trigger] group[i]) == obs_id(group[0]),
    ensures
        obs_ids(group).to_set().len() == 1,
{
    let id = obs_id(group[0]);
    assert(obs_ids(group)[0] == id);
    assert(obs_ids(group).to_set() =~= set![id]);
    assert(set![id].len() == 1) by {
        assert(set![id] =~= Set::<Seq<char>>::empty().insert(id));
    }
}

/// With two liked films, "more than half" means both: a facet is shared
/// only when both films have it.
pub proof fn lemma_two_films_majority_means_both(facets: Seq<Seq<Seq<char>>>, x: Seq<char>)
    requires
        facets.len() == 2,
    ensures
        majority(facets, x) <==> (facets[0].contains(x) && facets[1].contains(x)),
{
    let d = facets.drop_last();
    assert(d.drop_last().len() == 0);
    assert(d.last() == facets[0]);
    assert(films_with(d.drop_last(), x) == 0);
    assert(films_with(d, x) == if facets[0].contains(x) {
        1nat
    } else {
        0nat
    });
    assert(films_with(facets, x) == films_with(d, x) + if facets[1].contains(x) {
        1nat
    } else {
        0nat
    });
}

/// Reading a review never takes a preference outside [-1, 1].
pub proof fn lemma_review_keeps_preference_in_range(o: FeatureObservation, review_keywords: Seq<Keyword>)
    requires
        -1000 <= o.affinity_preference <= 1000,
    ensures
        -1000 <= reviewed(o, review_keywords).affinity_preference <= 1000,
{
}

} // verus!
