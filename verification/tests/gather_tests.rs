use taste::features::{
    Credit, EvidenceCluster, FeatureAffinity, FeatureFamily, FeatureKey, FeatureProfile,
};
use taste::gather::{retrieve_with_coverage, seed_indices, PersonCredit};
use taste::pool::RelatedItem;
use taste::retrieve::{
    consolidate_films, eligible_positive_like, identity_key, seen_keys, Candidate, FilmRecord,
    FilmSignal, MediaKind, RetrievalKind, RetrievalSource,
};

/// The signal of a liked film: a 5-star rating in a library averaging 4
/// stars, watched recently, once, without a heart.
fn liked_signal() -> FilmSignal {
    FilmSignal {
        absolute: 1000,
        affinity_preference: 967,
        familiarity_strength: 0,
        recommendation_weight: 1230,
    }
}

/// The signal of a 4.5-star rating in the same library.
fn four_and_a_half_signal() -> FilmSignal {
    FilmSignal {
        absolute: 750,
        affinity_preference: 678,
        familiarity_strength: 0,
        recommendation_weight: 1230,
    }
}

/// The signal of a 1-star rating in the same library.
fn hated_signal() -> FilmSignal {
    FilmSignal {
        absolute: -1000,
        affinity_preference: -1000,
        familiarity_strength: 0,
        recommendation_weight: 1230,
    }
}

fn neighbor(id: i64, title: &str) -> RelatedItem {
    RelatedItem {
        id: format!("tmdb:{id}"),
        title: title.into(),
        year: Some(2000),
        poster: None,
    }
}

fn test_seed(title: &str, credits: Vec<Credit>) -> FilmRecord {
    FilmRecord {
        key: title.into(),
        title: title.into(),
        year: Some(2011),
        tmdb_id: Some(1),
        rating: Some(5000),
        liked: true,
        watched: true,
        watchlist: false,
        viewings: 1,
        last_date: None,
        genres: vec!["Drama".into()],
        credits,
        keywords: vec![],
        recommendations: vec![RelatedItem {
            id: "tmdb:99".into(),
            title: "Dirty".into(),
            year: Some(2005),
            poster: None,
        }],
        similar: vec![],
        runtime: None,
        poster: None,
        vote_count: None,
        review: None,
        signal: Some(liked_signal()),
        age_years: Some(400),
    }
}

fn empty_profile() -> FeatureProfile {
    FeatureProfile {
        affinities: vec![],
        polarizing: vec![],
        shifts: vec![],
        dimensions: vec![],
        modes: vec![],
        mode_shifts: vec![],
    }
}

fn person(family: FeatureFamily, id: i64, name: &str, appearances: u32, mean: i32) -> FeatureAffinity {
    FeatureAffinity {
        key: FeatureKey::new(family, Some(id), name),
        appearances,
        weighted_mean: mean,
        preference_mean: mean,
        recommendation_mean: mean,
        weighted_variance: 0,
        positive_weight: 900,
        negative_weight: 0,
        recent_weight: 0,
        long_term_weight: 0,
        confidence: 700,
        feature_strength: 400,
        portability: 1000,
        positive_evidence: vec![],
        negative_evidence: vec![],
        evidence_cluster: EvidenceCluster {
            genres: vec![],
            modes: vec![],
            keywords: vec![],
        },
    }
}

#[test]
fn retrieve_membership_follows_current_seeds_not_a_union() {
    let dp = Credit {
        id: Some(77),
        name: "Greig Fraser".into(),
        job: "Director of Photography".into(),
    };
    let mut batman = test_seed("The Batman", vec![dp.clone()]);
    batman.signal = Some(four_and_a_half_signal());
    batman.rating = Some(4500);
    batman.tmdb_id = Some(1);
    batman.recommendations = vec![neighbor(808, "Only From Batman")];
    let mut dune = test_seed("Dune", vec![dp]);
    dune.signal = Some(four_and_a_half_signal());
    dune.rating = Some(4500);
    dune.tmdb_id = Some(2);
    dune.recommendations = vec![neighbor(909, "Only From Dune")];
    let profile = empty_profile();
    let both = retrieve_with_coverage(&[batman.clone(), dune.clone()], &profile, &[], &[], vec![]);
    assert!(both.candidates.iter().any(|c| c.tmdb_id == Some(909)));
    assert!(both.candidates.iter().any(|c| c.tmdb_id == Some(808)));
    let without_dune = retrieve_with_coverage(&[batman], &profile, &[], &[], vec![]);
    assert!(
        without_dune.candidates.iter().all(|c| c.tmdb_id != Some(909)),
        "removed seed must not leave a candidate union, got {:?}",
        without_dune.candidates.iter().map(|c| &c.title).collect::<Vec<_>>()
    );
}

#[test]
fn held_out_liked_neighbor_is_retrieved() {
    let profile = empty_profile();
    let mut seed = test_seed("The Batman", vec![]);
    seed.tmdb_id = Some(1);
    seed.recommendations = vec![neighbor(414_906, "Dune analog")];
    let seen = vec![identity_key(Some(1), "The Batman", Some(2011))];
    let out = retrieve_with_coverage(&[seed], &profile, &seen, &[], vec![]);
    assert!(
        out.candidates.iter().any(|c| c.tmdb_id == Some(414_906)),
        "a held-out liked neighbor of an eligible seed must re-enter the pool"
    );
    let related = out
        .candidates
        .iter()
        .filter(|c| c.sources.iter().any(|s| s.kind == RetrievalKind::RelatedRecommendations))
        .count();
    assert!(related >= 1);
}

#[test]
fn fifty_first_eligible_seed_still_expands() {
    let profile = empty_profile();
    let mut films = Vec::new();
    for i in 0..51 {
        let mut seed = test_seed(&format!("Liked {i}"), vec![]);
        seed.tmdb_id = Some(1000 + i);
        seed.rating = Some(4500);
        seed.signal = Some(four_and_a_half_signal());
        seed.recommendations = vec![neighbor(5000 + i, &format!("N{i}"))];
        films.push(seed);
    }
    let out = retrieve_with_coverage(&films, &profile, &[], &[], vec![]);
    assert!(
        out.candidates.iter().any(|c| c.tmdb_id == Some(5050)),
        "51st eligible seed must still contribute a neighbor"
    );
    assert_eq!(out.coverage.eligible_seeds, 51);
}

#[test]
fn disliked_seed_does_not_expand() {
    let profile = empty_profile();
    let mut seed = test_seed("Hated", vec![]);
    seed.rating = Some(1000);
    seed.signal = Some(hated_signal());
    seed.recommendations = vec![neighbor(77, "From hated")];
    let out = retrieve_with_coverage(&[seed], &profile, &[], &[], vec![]);
    assert!(
        out.candidates.iter().all(|c| c.tmdb_id != Some(77)),
        "disliked films must not seed neighbors"
    );
}

#[test]
fn composer_seed_uses_recommendations_and_bounded_similar() {
    let composer = Credit {
        id: Some(12),
        name: "Michael Giacchino".into(),
        job: "Original Music Composer".into(),
    };
    let profile = empty_profile();
    let mut seed = test_seed("The Batman", vec![composer]);
    seed.recommendations = vec![neighbor(11, "From recs")];
    seed.similar = vec![neighbor(22, "From similar")];
    let out = retrieve_with_coverage(&[seed], &profile, &[], &[], vec![]);
    assert!(out.candidates.iter().any(|c| c.tmdb_id == Some(11)));
    assert!(out.candidates.iter().any(|c| c.tmdb_id == Some(22)));
}

#[test]
fn familiar_and_tv_movie_seeds_do_not_expand() {
    let mut rewatch = test_seed("The Batman", vec![]);
    rewatch.signal = Some(FilmSignal {
        familiarity_strength: 600,
        ..liked_signal()
    });
    assert!(!eligible_positive_like(&rewatch), "familiar films must not flood related");
    let mut tv = test_seed("Christmas", vec![]);
    tv.genres = vec!["TV Movie".into()];
    assert!(!eligible_positive_like(&tv));
    let mut family = test_seed("Teen Beach 2", vec![]);
    family.genres = vec!["Family".into(), "Comedy".into()];
    assert!(eligible_positive_like(&family), "family/kids seeds may expand");
    let mut unrated = test_seed("Unrated", vec![]);
    unrated.rating = None;
    assert!(!eligible_positive_like(&unrated));
}

#[test]
fn seeds_go_strongest_first_then_by_id_then_title() {
    let mut a = test_seed("B", vec![]);
    a.tmdb_id = Some(5);
    let mut b = test_seed("A", vec![]);
    b.tmdb_id = Some(5);
    let mut c = test_seed("C", vec![]);
    c.tmdb_id = Some(2);
    let mut d = test_seed("D", vec![]);
    d.signal = Some(FilmSignal {
        recommendation_weight: 2000,
        ..liked_signal()
    });
    let mut e = test_seed("E", vec![]);
    e.tmdb_id = None;
    let mut hated = test_seed("H", vec![]);
    hated.signal = Some(hated_signal());
    let order = seed_indices(&[a, b, c, d, e, hated]);
    assert_eq!(order, vec![3, 2, 1, 0, 4]);
}

#[test]
fn similar_titles_come_from_the_first_forty_seeds_only() {
    let profile = empty_profile();
    let mut films = Vec::new();
    for i in 0..42i64 {
        let mut seed = test_seed(&format!("S{i}"), vec![]);
        seed.tmdb_id = Some(i);
        seed.recommendations = vec![];
        seed.similar = (0..5).map(|k| neighbor(10_000 + i * 10 + k, &format!("s{i}-{k}"))).collect();
        films.push(seed);
    }
    let out = retrieve_with_coverage(&films, &profile, &[], &[], vec![]);
    // 40 seeds, three similar titles each
    assert_eq!(out.candidates.len(), 120);
    assert!(out.candidates.iter().all(|c| c.tmdb_id.unwrap() < 10_000 + 40 * 10));
    assert!(out.candidates.iter().all(|c| (c.tmdb_id.unwrap() % 10) < 3));
    assert_eq!(out.coverage.eligible_seeds, 42);
    assert_eq!(out.coverage.seeds_with_usable_related, 42);
    assert_eq!(out.coverage.seeds_refreshed, 0);
}

#[test]
fn recommendations_are_capped_at_eight_per_seed_and_seen_titles_skipped() {
    let profile = empty_profile();
    let mut seed = test_seed("S", vec![]);
    seed.recommendations = (0..12).map(|k| neighbor(100 + k, &format!("r{k}"))).collect();
    let seen = vec![identity_key(Some(101), "r1", Some(2000))];
    let out = retrieve_with_coverage(&[seed], &profile, &seen, &[], vec![]);
    let mut ids: Vec<i64> = out.candidates.iter().map(|c| c.tmdb_id.unwrap()).collect();
    ids.sort();
    assert_eq!(ids, vec![100, 102, 103, 104, 105, 106, 107]);
    let c = out.candidates.iter().find(|c| c.tmdb_id == Some(100)).unwrap();
    assert_eq!(c.sources[0].label, "recommended from S");
    assert_eq!(c.sources[0].seed_tmdb_id, Some(1));
    assert_eq!(c.sources[0].seed_rating, Some(5000));
    assert_eq!(c.tmdb_related, 1000);
}

#[test]
fn filmographies_keep_the_affinity_job_up_to_the_cap() {
    let mut profile = empty_profile();
    profile.affinities = vec![
        person(FeatureFamily::Director, 7, "Denis Villeneuve", 3, 400),
        person(FeatureFamily::Actor, 8, "Barely Liked", 3, 10),
    ];
    let mut credits = vec![PersonCredit {
        tmdb_id: 1,
        title: "Produced Only".into(),
        year: Some(2000),
        job: "Producer".into(),
    }];
    for k in 0..14 {
        credits.push(PersonCredit {
            tmdb_id: 100 + k,
            title: format!("Directed {k}"),
            year: Some(2001),
            job: "Director".into(),
        });
    }
    let person_credits = vec![
        (7i64, credits),
        (
            8i64,
            vec![PersonCredit {
                tmdb_id: 999,
                title: "Acted".into(),
                year: None,
                job: "Actor".into(),
            }],
        ),
    ];
    let out = retrieve_with_coverage(&[], &profile, &[], &person_credits, vec![]);
    assert_eq!(out.candidates.len(), 12);
    assert!(out.candidates.iter().all(|c| c.tmdb_id != Some(1) && c.tmdb_id != Some(999)));
    let c = &out.candidates[0];
    assert_eq!(c.sources[0].kind, RetrievalKind::Filmography);
    assert_eq!(c.sources[0].label, "Denis Villeneuve");
    assert_eq!(c.credits[0].id, Some(7));
    assert_eq!(c.credits[0].job, "Director");
}

#[test]
fn unwatched_watchlist_and_friends_join_the_pool() {
    let profile = empty_profile();
    let mut want = test_seed("Want", vec![]);
    want.watchlist = true;
    want.watched = false;
    want.signal = None;
    want.tmdb_id = Some(55);
    want.genres = vec!["Drama".into()];
    let mut done = test_seed("Done", vec![]);
    done.watchlist = true;
    done.watched = true;
    done.signal = None;
    done.tmdb_id = Some(56);
    let friend = Candidate {
        tmdb_id: Some(55),
        title: "Want".into(),
        year: Some(2011),
        poster: Some("f.jpg".into()),
        genres: vec![],
        credits: vec![],
        keywords: vec![],
        runtime: None,
        vote_count: None,
        watchlist: false,
        sources: vec![RetrievalSource::new(RetrievalKind::Friend, "ann".into(), None)],
        friend_affinity: 800,
        tmdb_related: 0,
        media_kind: MediaKind::Movie,
    };
    let out = retrieve_with_coverage(&[want, done], &profile, &[], &[], vec![friend]);
    assert_eq!(out.candidates.len(), 1);
    let c = &out.candidates[0];
    assert!(c.watchlist);
    assert_eq!(c.genres, vec!["Drama".to_string()]);
    assert_eq!(c.friend_affinity, 800);
    assert_eq!(c.poster.as_deref(), Some("f.jpg"));
    assert_eq!(c.sources.len(), 2);
    assert_eq!(c.sources[0].label, "watchlist");
}

fn record(viewings: u32, rating: Option<i32>) -> FilmRecord {
    FilmRecord {
        key: "tmdb:1571662".into(),
        title: "Tuner".into(),
        year: Some(2025),
        tmdb_id: Some(1571662),
        rating,
        liked: false,
        watched: true,
        watchlist: false,
        viewings,
        last_date: Some("2025-01-01".into()),
        genres: vec![],
        credits: vec![],
        keywords: vec![],
        recommendations: vec![],
        similar: vec![],
        runtime: None,
        poster: None,
        vote_count: None,
        review: None,
        signal: None,
        age_years: None,
    }
}

#[test]
fn consolidates_duplicate_source_records() {
    let films = consolidate_films(vec![record(1, None), record(0, Some(4500))]);
    assert_eq!(films.len(), 1);
    assert_eq!(films[0].viewings, 1);
    assert_eq!(films[0].rating, Some(4500));
}

#[test]
fn newer_duplicates_bring_their_date_rating_and_flags() {
    let mut old = record(2, Some(3000));
    old.key = "k".into();
    old.last_date = Some("2020-05-01".into());
    let mut newer = record(1, Some(4500));
    newer.key = "k".into();
    newer.last_date = Some("2024-01-01".into());
    newer.liked = true;
    newer.review = Some("great".into());
    let mut other = record(3, None);
    other.key = "other".into();
    let films = consolidate_films(vec![old, other, newer]);
    assert_eq!(films.len(), 2);
    assert_eq!(films[0].key, "k");
    assert_eq!(films[0].viewings, 3);
    assert_eq!(films[0].rating, Some(4500));
    assert_eq!(films[0].last_date.as_deref(), Some("2024-01-01"));
    assert!(films[0].liked);
    assert_eq!(films[0].review.as_deref(), Some("great"));
    assert_eq!(films[1].key, "other");
}

#[test]
fn seen_keys_cover_watched_or_rated_films() {
    let mut watched = record(1, None);
    watched.title = "Heat".into();
    watched.tmdb_id = None;
    watched.year = Some(1995);
    let mut rated = record(0, Some(4000));
    rated.watched = false;
    rated.tmdb_id = Some(7);
    let mut neither = record(0, None);
    neither.watched = false;
    assert_eq!(seen_keys(&[watched, rated, neither]), vec!["heat|1995".to_string(), "tmdb:7".to_string()]);
}
