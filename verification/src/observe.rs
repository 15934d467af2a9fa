//! Which films of the library speak to the profile and what they say: the
//! execution language the counted reviews share, each film's review
//! keywords, and the observations of every rated film with a signal.
use vstd::prelude::*;
use crate::features::{
    execution_keywords_for_review, keyword_names, repeated_execution_signals, review_keywords_upto,
    signals_upto, str_views, strs, Keyword, LEXICON_LEN,
};
use crate::profile::{
    apply_review_language, carries, cites_film, key_view, observation_keys, observations_from_film,
    reviewed, FeatureObservation, ProfileSignal,
};
use crate::retrieve::FilmRecord;

verus! {

/// The reviews that count towards shared execution language: those of the
/// rated films that have a signal (`counted`), in library order.
pub open spec fn counted_reviews(films: Seq<FilmRecord>, counted: Seq<bool>) -> Seq<Seq<char>>
    decreases films.len(),
{
    if films.len() == 0 {
        Seq::empty()
    } else {
        let r = counted_reviews(films.drop_last(), counted);
        let f = films.last();
        let i = films.len() - 1;
        if f.rating is Some && counted[i] && f.review is Some {
            r.push(f.review->0@)
        } else {
            r
        }
    }
}

/// The review keywords of one film: the shared labels its review names.
pub open spec fn review_names(f: FilmRecord, shared: Seq<Seq<char>>) -> Seq<Seq<char>> {
    match f.review {
        Some(t) => review_keywords_upto(t@, shared, LEXICON_LEN as int),
        None => Seq::empty(),
    }
}

/// The review language of a library: the execution labels at least two
/// counted reviews share, and each film's review keywords (without ids).
pub fn review_language(films: &[FilmRecord], counted: &[bool]) -> (r: (Vec<String>, Vec<Vec<Keyword>>))
    requires
        counted@.len() == films@.len(),
    ensures
        strs(r.0@) == signals_upto(counted_reviews(films@, counted@), LEXICON_LEN as int),
        r.1@.len() == films@.len(),
        forall|i: int| 0 <= i < films@.len() ==> keyword_names(#[trigger] r.1@[i]@) == review_names(films@[i], strs(r.0@)),
        forall|i: int, k: int| 0 <= i < films@.len() && 0 <= k < r.1@[i]@.len() ==> (#[trigger] r.1@[i]@[k]).id is None,
{
    let mut texts: Vec<&str> = Vec::new();
    let mut i: usize = 0;
    while i < films.len()
        invariant
            i <= films.len(),
            counted@.len() == films@.len(),
            str_views(texts@) == counted_reviews(films@.take(i as int), counted@),
        decreases films.len() - i,
    {
        let f = &films[i];
        assert(films@.take(i + 1).drop_last() =~= films@.take(i as int));
        assert(films@.take(i + 1).last() == films@[i as int]);
        if f.rating.is_some() && counted[i] {
            match &f.review {
                Some(t) => {
                    let ghost before = texts@;
                    texts.push(t.as_str());
                    assert(str_views(texts@) =~= str_views(before).push(t@));
                },
                None => {},
            }
        }
        i += 1;
    }
    assert(films@.take(films.len() as int) =~= films@);
    let shared = repeated_execution_signals(&texts);
    let mut per: Vec<Vec<Keyword>> = Vec::new();
    let mut j: usize = 0;
    while j < films.len()
        invariant
            j <= films.len(),
            per@.len() == j,
            forall|x: int| 0 <= x < j ==> keyword_names(#[trigger] per@[x]@) == review_names(films@[x], strs(shared@)),
            forall|x: int, k: int| 0 <= x < j && 0 <= k < per@[x]@.len() ==> (#[trigger] per@[x]@[k]).id is None,
        decreases films.len() - j,
    {
        let kws = match &films[j].review {
            Some(t) => execution_keywords_for_review(t.as_str(), &shared),
            None => {
                let v: Vec<Keyword> = Vec::new();
                assert(keyword_names(v@) =~= Seq::<Seq<char>>::empty());
                v
            },
        };
        let ghost before = per@;
        per.push(kws);
        assert forall|x: int| 0 <= x < j + 1 implies keyword_names(#[trigger] per@[x]@) == review_names(films@[x], strs(shared@)) by {
            if x < j {
                assert(per@[x] == before[x]);
            }
        }
        assert forall|x: int, k: int| 0 <= x < j + 1 && 0 <= k < per@[x]@.len() implies (#[trigger] per@[x]@[k]).id is None by {
            if x < j {
                assert(per@[x] == before[x]);
            }
        }
        j += 1;
    }
    (shared, per)
}

/// The age a film's observations carry: its age in thousandths of a year,
/// none below zero.
pub open spec fn obs_age(f: FilmRecord) -> Option<u32> {
    match f.age_years {
        Some(a) => Some(if a < 0 {
            0u32
        } else {
            a as u32
        }),
        None => None,
    }
}

/// `out` is what a rated film says about its features (see
/// `observations_from_film`), given its keywords `kw`.
pub open spec fn observed(out: Seq<FeatureObservation>, f: FilmRecord, s: ProfileSignal, kw: Seq<Keyword>) -> bool {
    let keys = observation_keys(strs(f.genres@), f.credits@, kw, f.year, f.runtime);
    &&& f.rating is Some
    &&& out.len() == keys.len()
    &&& forall|i: int| 0 <= i < out.len() ==> key_view(#[trigger] out[i].key) == keys[i]
    &&& forall|i: int|
        0 <= i < out.len() ==> #[trigger] cites_film(
            out[i].evidence,
            f.title@,
            f.rating->0,
            f.tmdb_id,
            strs(f.genres@),
            f.credits@,
            kw,
            f.year,
            f.runtime,
        )
    &&& forall|i: int|
        0 <= i < out.len() ==> carries(#[trigger] out[i], s, obs_age(f), out[i].evidence, strs(f.genres@))
}

/// `out` is a rated film's observations, with its review keywords `rk`
/// added to its keywords and its review read in.
pub open spec fn observed_with(out: Seq<FeatureObservation>, f: FilmRecord, s: ProfileSignal, rk: Seq<Keyword>) -> bool {
    exists|raw: Seq<FeatureObservation>|
        observed(raw, f, s, f.keywords@ + rk) && out.len() == raw.len() && forall|i: int|
            0 <= i < out.len() ==> #[trigger] out[i] == reviewed(raw[i], rk)
}

fn copy_keyword_list(v: &Vec<Keyword>, extra: &Vec<Keyword>) -> (out: Vec<Keyword>)
    ensures
        out@ == v@ + extra@,
{
    let mut out: Vec<Keyword> = Vec::new();
    let mut i: usize = 0;
    while i < v.len()
        invariant
            i <= v.len(),
            out@ == v@.take(i as int),
        decreases v.len() - i,
    {
        out.push(Keyword { id: v[i].id, name: v[i].name.clone() });
        assert(out@ =~= v@.take(i + 1));
        i += 1;
    }
    let mut j: usize = 0;
    while j < extra.len()
        invariant
            j <= extra.len(),
            out@ == v@ + extra@.take(j as int),
        decreases extra.len() - j,
    {
        out.push(Keyword { id: extra[j].id, name: extra[j].name.clone() });
        assert(out@ =~= v@ + extra@.take(j + 1));
        j += 1;
    }
    assert(v@.take(v.len() as int) =~= v@);
    assert(extra@.take(extra.len() as int) =~= extra@);
    out
}

/// What one rated film says about its features, with its review keywords
/// added to its keywords and its review read in.
pub fn film_observations(f: &FilmRecord, s: &ProfileSignal, rk: &Vec<Keyword>) -> (out: Vec<FeatureObservation>)
    requires
        f.rating is Some,
        s.relative_strength <= 1000,
        s.absolute > i32::MIN,
    ensures
        observed_with(out@, *f, *s, rk@),
{
    let rating = match f.rating {
        Some(r) => r,
        None => 0,
    };
    let age: Option<u32> = match f.age_years {
        Some(a) => Some(if a < 0 {
            0u32
        } else {
            a as u32
        }),
        None => None,
    };
    let kw = copy_keyword_list(&f.keywords, rk);
    let raw = observations_from_film(
        f.title.as_str(),
        rating,
        f.tmdb_id,
        s,
        age,
        &f.genres,
        &f.credits,
        &kw,
        f.year,
        f.runtime,
    );
    let ghost raw_v = raw@;
    let out = apply_review_language(raw, rk);
    assert(observed(raw_v, *f, *s, f.keywords@ + rk@));
    out
}

/// The flattened observations of the films, in order.
pub open spec fn flatten(per: Seq<Seq<FeatureObservation>>) -> Seq<FeatureObservation>
    decreases per.len(),
{
    if per.len() == 0 {
        Seq::empty()
    } else {
        flatten(per.drop_last()) + per.last()
    }
}

/// Which films are counted: those with a signal.
pub open spec fn has_signal(signals: Seq<Option<ProfileSignal>>) -> Seq<bool> {
    signals.map_values(|s: Option<ProfileSignal>| s is Some)
}

/// What film `f` contributes: nothing unless it is rated and has a signal;
/// else its observations with the review keywords named `names`.
pub open spec fn film_part(
    out: Seq<FeatureObservation>,
    f: FilmRecord,
    sig: Option<ProfileSignal>,
    names: Seq<Seq<char>>,
) -> bool {
    if f.rating is None || sig is None {
        out.len() == 0
    } else {
        exists|rk: Seq<Keyword>|
            keyword_names(rk) == names && (forall|k: int| 0 <= k < rk.len() ==> (#[trigger] rk[k]).id is None)
                && observed_with(out, f, sig->0, rk)
    }
}

/// The observations of a library: for each rated film with a signal, in
/// library order, what it says about its features, with the execution
/// language its review shares with at least one other counted review read
/// in.
pub fn observations_from_films(films: &[FilmRecord], signals: &[Option<ProfileSignal>]) -> (out: Vec<
    FeatureObservation,
>)
    requires
        signals@.len() == films@.len(),
        forall|i: int|
            0 <= i < signals@.len() && #[trigger] signals@[i] is Some ==> signals@[i]->0.relative_strength
                <= 1000 && signals@[i]->0.absolute > i32::MIN,
    ensures
        exists|per: Seq<Seq<FeatureObservation>>|
            per.len() == films@.len() && out@ == flatten(per) && forall|i: int|
                0 <= i < films@.len() ==> #[trigger] film_part(
                    per[i],
                    films@[i],
                    signals@[i],
                    review_names(
                        films@[i],
                        signals_upto(counted_reviews(films@, has_signal(signals@)), LEXICON_LEN as int),
                    ),
                ),
{
    let mut counted: Vec<bool> = Vec::new();
    let mut c: usize = 0;
    while c < signals.len()
        invariant
            c <= signals.len(),
            counted@ == has_signal(signals@).take(c as int),
        decreases signals.len() - c,
    {
        counted.push(signals[c].is_some());
        assert(counted@ =~= has_signal(signals@).take(c + 1));
        c += 1;
    }
    assert(counted@ =~= has_signal(signals@));
    let (shared, rks) = review_language(films, &counted);
    let ghost names = signals_upto(counted_reviews(films@, has_signal(signals@)), LEXICON_LEN as int);
    assert(strs(shared@) == names);
    let mut out: Vec<FeatureObservation> = Vec::new();
    let ghost mut per: Seq<Seq<FeatureObservation>> = Seq::empty();
    let mut i: usize = 0;
    while i < films.len()
        invariant
            i <= films.len(),
            signals@.len() == films@.len(),
            forall|x: int|
                0 <= x < signals@.len() && #[trigger] signals@[x] is Some ==> signals@[x]->0.relative_strength
                    <= 1000 && signals@[x]->0.absolute > i32::MIN,
            rks@.len() == films@.len(),
            forall|x: int| 0 <= x < films@.len() ==> keyword_names(#[trigger] rks@[x]@) == review_names(films@[x], names),
            forall|x: int, k: int| 0 <= x < films@.len() && 0 <= k < rks@[x]@.len() ==> (#[trigger] rks@[x]@[k]).id is None,
            per.len() == i,
            out@ == flatten(per),
            forall|x: int| 0 <= x < i ==> #[trigger] film_part(per[x], films@[x], signals@[x], review_names(films@[x], names)),
        decreases films.len() - i,
    {
        let f = &films[i];
        let ghost before = per;
        let part: Vec<FeatureObservation> = match (f.rating, &signals[i]) {
            (Some(_), Some(s)) => {
                assert(signals@[i as int] is Some);
                let v = film_observations(f, s, &rks[i]);
                let ghost rk = rks@[i as int]@;
                assert(keyword_names(rk) == review_names(films@[i as int], names));
                assert(forall|k: int| 0 <= k < rk.len() ==> (#[trigger] rk[k]).id is None);
                assert(observed_with(v@, films@[i as int], signals@[i as int]->0, rk));
                v
            },
            _ => Vec::new(),
        };
        proof {
            per = per.push(part@);
            assert(per.drop_last() =~= before);
        }
        let ghost prev = out@;
        let mut part = part;
        out.append(&mut part);
        assert(out@ =~= flatten(per));
        assert forall|x: int| 0 <= x < i + 1 implies #[trigger] film_part(per[x], films@[x], signals@[x], review_names(films@[x], names)) by {
            if x < i {
                assert(per[x] == before[x]);
            }
        }
        i += 1;
    }
    out
}

} // verus!
