use taste::diagnostics::{exception_for, may_be_exception, rank_exceptions, TasteException};
use taste::features::{
    Credit, EvidenceCluster, EvidenceFilm, FeatureAffinity, FeatureFamily, FeatureKey,
    FeatureProfile, Keyword,
};
use taste::profile::{apply_review_language, observations_from_film, ProfileSignal};
use taste::retrieve::{FilmRecord, FilmSignal};

fn evidence(title: &str) -> EvidenceFilm {
    EvidenceFilm {
        title: title.into(),
        rating: 4500,
        tmdb_id: None,
        people: vec![],
        keywords: vec![],
        genres: vec![],
        year: None,
        runtime: None,
    }
}

fn affinity(
    family: FeatureFamily,
    id: Option<i64>,
    name: &str,
    appearances: u32,
    mean: i32,
    confidence: i32,
    liked: &[&str],
    disliked: &[&str],
) -> FeatureAffinity {
    FeatureAffinity {
        key: FeatureKey::new(family, id, name),
        appearances,
        weighted_mean: mean,
        preference_mean: mean,
        recommendation_mean: mean,
        weighted_variance: 0,
        positive_weight: 0,
        negative_weight: 0,
        recent_weight: 0,
        long_term_weight: 0,
        confidence,
        feature_strength: 0,
        portability: 1000,
        positive_evidence: liked.iter().map(|t| evidence(t)).collect(),
        negative_evidence: disliked.iter().map(|t| evidence(t)).collect(),
        evidence_cluster: EvidenceCluster { genres: vec![], modes: vec![], keywords: vec![] },
    }
}

fn profile(affinities: Vec<FeatureAffinity>) -> FeatureProfile {
    FeatureProfile {
        affinities,
        polarizing: vec![],
        shifts: vec![],
        dimensions: vec![],
        modes: vec![],
        mode_shifts: vec![],
    }
}

fn film(preference: i32) -> FilmRecord {
    FilmRecord {
        key: "x".into(),
        title: "Odd One".into(),
        year: Some(2015),
        tmdb_id: Some(77),
        rating: Some(1500),
        liked: false,
        watched: true,
        watchlist: false,
        viewings: 1,
        last_date: None,
        genres: vec!["Drama".into()],
        credits: vec![Credit { id: Some(5), name: "Auteur".into(), job: "Director".into() }],
        keywords: vec![Keyword { id: Some(9), name: "neo-noir".into() }],
        recommendations: vec![],
        similar: vec![],
        runtime: Some(100),
        poster: None,
        vote_count: None,
        review: None,
        signal: Some(FilmSignal {
            absolute: preference,
            affinity_preference: preference,
            familiarity_strength: 0,
            recommendation_weight: 1000,
        }),
        age_years: None,
    }
}

fn liked_profile() -> FeatureProfile {
    profile(vec![
        affinity(FeatureFamily::Director, Some(5), "Auteur", 3, 800, 900, &["A", "B"], &[]),
        affinity(FeatureFamily::Actor, Some(6), "Star", 4, 900, 900, &["Z"], &[]),
        affinity(FeatureFamily::Genre, None, "Drama", 10, 700, 900, &["B", "C"], &["Q"]),
        affinity(FeatureFamily::Keyword, Some(9), "neo-noir", 2, 900, 900, &["D", "E", "F", "G", "H"], &[]),
        affinity(FeatureFamily::Decade, None, "2010s", 9, 900, 900, &["I"], &[]),
    ])
}

#[test]
fn disliking_a_film_the_profile_predicts_is_an_exception() {
    let e = exception_for(&film(-800), &liked_profile()).expect("an exception");
    assert_eq!(e.title, "Odd One");
    assert_eq!(e.tmdb_id, Some(77));
    assert_eq!(e.rating, 1500);
    assert_eq!(e.observed_preference, -800);
    // (800·900 + 700·900 + 900·900) / (1000 · 3) = 720.
    assert_eq!(e.expected_preference, 720);
    assert_eq!(e.residual, -1520);
    assert_eq!(e.matching_features, vec!["Auteur", "Drama", "neo-noir"]);
    assert_eq!(e.evidence_domains, vec!["authorial", "narrative"]);
    assert_eq!(e.supporting_films, vec!["A", "B", "C", "D", "E", "F"]);
    assert_eq!(e.opposing_films, vec!["Q"]);
}

#[test]
fn agreeing_with_the_profile_is_no_exception() {
    assert!(exception_for(&film(600), &liked_profile()).is_none());
}

#[test]
fn mild_preferences_are_not_checked() {
    let f = film(-300);
    assert!(!may_be_exception(&f));
    assert!(exception_for(&f, &liked_profile()).is_none());
    assert!(may_be_exception(&film(-350)));
    let mut unrated = film(-900);
    unrated.rating = None;
    assert!(!may_be_exception(&unrated));
    assert!(exception_for(&unrated, &liked_profile()).is_none());
}

#[test]
fn too_few_matching_features_is_no_exception() {
    let p = profile(vec![
        affinity(FeatureFamily::Director, Some(5), "Auteur", 3, 800, 900, &[], &[]),
        affinity(FeatureFamily::Genre, None, "Drama", 10, 700, 900, &[], &[]),
        // A single film's keyword is not cited.
        affinity(FeatureFamily::Keyword, Some(9), "neo-noir", 1, 900, 900, &[], &[]),
    ]);
    assert!(exception_for(&film(-800), &p).is_none());
}

#[test]
fn one_kind_of_evidence_is_no_exception() {
    let mut f = film(-800);
    f.credits.clear();
    f.genres.push("Thriller".into());
    let p = profile(vec![
        affinity(FeatureFamily::Genre, None, "Drama", 10, 700, 900, &[], &[]),
        affinity(FeatureFamily::Genre, None, "Thriller", 10, 700, 900, &[], &[]),
        affinity(FeatureFamily::Keyword, Some(9), "neo-noir", 2, 900, 900, &[], &[]),
    ]);
    assert!(exception_for(&f, &p).is_none());
}

fn exception(title: &str, residual: i64) -> TasteException {
    TasteException {
        title: title.into(),
        tmdb_id: None,
        rating: 3000,
        observed_preference: 0,
        expected_preference: 0,
        residual,
        matching_features: vec![],
        evidence_domains: vec![],
        supporting_films: vec![],
        opposing_films: vec![],
    }
}

#[test]
fn exceptions_rank_by_distance_and_keep_eight() {
    let found: Vec<TasteException> = vec![
        exception("a", 500),
        exception("b", -900),
        exception("c", 900),
        exception("d", 460),
        exception("e", 1200),
        exception("f", -470),
        exception("g", 700),
        exception("h", 480),
        exception("i", 1000),
        exception("j", -450),
    ];
    let ranked = rank_exceptions(found);
    let titles: Vec<&str> = ranked.iter().map(|e| e.title.as_str()).collect();
    assert_eq!(titles, vec!["e", "i", "b", "c", "g", "a", "h", "f"]);
}

fn signal(preference: i32) -> ProfileSignal {
    ProfileSignal {
        absolute: preference,
        relative_strength: 1000,
        affinity_preference: preference,
        preference_weight: 1000,
        recommendation_weight: 1000,
        discovery_strength: 1000,
    }
}

#[test]
fn review_praise_lifts_the_named_execution_feature() {
    let keywords = vec![
        Keyword { id: None, name: "tight pacing".into() },
        Keyword { id: None, name: "overlong".into() },
        Keyword { id: None, name: "strong dialogue".into() },
    ];
    let obs = observations_from_film(
        "F",
        4000,
        None,
        &signal(100),
        None,
        &["Drama".to_string()],
        &[],
        &keywords,
        None,
        None,
    );
    let review = vec![
        Keyword { id: None, name: "Tight Pacing".into() },
        Keyword { id: None, name: "overlong".into() },
    ];
    let out = apply_review_language(obs, &review);
    let by_name = |n: &str| out.iter().find(|o| o.key.name == n).unwrap().clone();
    // Unnamed or not execution language: unchanged.
    assert_eq!(by_name("Drama").affinity_preference, 100);
    assert_eq!(by_name("strong dialogue").affinity_preference, 100);
    // Praise: strength 0.35 → supplement 70.
    let pacing = by_name("tight pacing");
    assert_eq!(pacing.affinity_preference, 170);
    assert_eq!(pacing.positive, 170);
    assert_eq!(pacing.negative, 0);
    // Criticism moves the other way.
    let long = by_name("overlong");
    assert_eq!(long.affinity_preference, 30);
    assert_eq!(long.negative, 70);
    assert_eq!(long.positive, 100);
}

#[test]
fn review_language_stays_within_one() {
    let keywords = vec![Keyword { id: None, name: "tight pacing".into() }];
    let obs = observations_from_film("F", 5000, None, &signal(950), None, &[], &[], &keywords, None, None);
    let out = apply_review_language(obs, &keywords);
    assert_eq!(out[0].affinity_preference, 1000);
    assert_eq!(out[0].positive, 950 + 190);
}
