use taste::features::{Credit, FeatureFamily, FeatureKey, Keyword};
use taste::profile::{
    cluster_from_group, distinct_film_count, observations_from_film, FeatureObservation,
    ProfileSignal,
};

fn liked() -> ProfileSignal {
    ProfileSignal {
        absolute: 1000,
        relative_strength: 750,
        affinity_preference: 750,
        preference_weight: 1200,
        recommendation_weight: 1100,
        discovery_strength: 1000,
    }
}

fn disliked() -> ProfileSignal {
    ProfileSignal {
        absolute: -500,
        relative_strength: 600,
        affinity_preference: -500,
        preference_weight: 900,
        recommendation_weight: 900,
        discovery_strength: 1000,
    }
}

fn strings(v: &[&str]) -> Vec<String> {
    v.iter().map(|s| s.to_string()).collect()
}

fn film(
    title: &str,
    tmdb_id: Option<i64>,
    signal: &ProfileSignal,
    genres: &[&str],
    credits: &[Credit],
) -> Vec<FeatureObservation> {
    observations_from_film(
        title,
        4500,
        tmdb_id,
        signal,
        Some(1000),
        &strings(genres),
        credits,
        &[],
        Some(2008),
        None,
    )
}

fn of_key(obs: &[FeatureObservation], name: &str) -> Vec<FeatureObservation> {
    obs.iter().filter(|o| o.key.name == name).cloned().collect()
}

fn powell() -> Credit {
    Credit { id: Some(50), name: "John Powell".into(), job: "Original Music Composer".into() }
}

#[test]
fn observations_follow_genres_people_keywords_decade_runtime() {
    let credits = vec![
        Credit { id: Some(1), name: " Greta Gerwig ".into(), job: "Director".into() },
        Credit { id: Some(2), name: "Someone".into(), job: "Producer".into() },
        Credit { id: Some(3), name: "Hoyte van Hoytema".into(), job: "Director of Photography".into() },
    ];
    let keywords = vec![
        Keyword { id: Some(9), name: "neo-noir".into() },
        Keyword { id: Some(10), name: "duringcreditsstinger".into() },
    ];
    let obs = observations_from_film(
        "Film",
        4000,
        Some(7),
        &liked(),
        Some(500),
        &strings(&["Drama", "Comedy"]),
        &credits,
        &keywords,
        Some(1994),
        Some(95),
    );
    let keys: Vec<(FeatureFamily, Option<i64>, String)> =
        obs.iter().map(|o| (o.key.family, o.key.id, o.key.name.clone())).collect();
    assert_eq!(
        keys,
        vec![
            (FeatureFamily::Genre, None, "Drama".to_string()),
            (FeatureFamily::Genre, None, "Comedy".to_string()),
            (FeatureFamily::Director, Some(1), "Greta Gerwig".to_string()),
            (FeatureFamily::Cinematographer, Some(3), "Hoyte van Hoytema".to_string()),
            (FeatureFamily::Keyword, Some(9), "neo-noir".to_string()),
            (FeatureFamily::Decade, None, "1990s".to_string()),
            (FeatureFamily::Runtime, None, "90-119".to_string()),
        ]
    );
    for o in &obs {
        assert_eq!(o.positive, 750);
        assert_eq!(o.negative, 0);
        assert_eq!(o.preference_weight, 1200);
        assert_eq!(o.recommendation_weight, 1100);
        assert_eq!(o.age_years, Some(500));
        assert_eq!(o.evidence.title, "Film");
        assert_eq!(o.evidence.rating, 4000);
        assert_eq!(o.evidence.people, strings(&[" Greta Gerwig ", "Someone", "Hoyte van Hoytema"]));
        assert_eq!(o.evidence.keywords, strings(&["neo-noir"]));
        assert_eq!(o.evidence.year, Some(1994));
        assert_eq!(o.evidence.runtime, Some(95));
        assert_eq!(o.genres, strings(&["Drama", "Comedy"]));
    }
}

#[test]
fn disliked_viewing_speaks_against_its_features() {
    let obs = film("Bad", Some(3), &disliked(), &["Horror"], &[]);
    assert_eq!(obs.len(), 2);
    assert_eq!(obs[0].positive, 0);
    assert_eq!(obs[0].negative, 500);
}

#[test]
fn positive_scales_by_relative_strength() {
    let s = ProfileSignal { absolute: 333, relative_strength: 999, ..liked() };
    let obs = film("Ok", Some(4), &s, &["Drama"], &[]);
    // 333 * 999 / 1000 = 332.667, rounded toward zero.
    assert_eq!(obs[0].positive, 332);
}

#[test]
fn four_viewings_of_one_film_count_once() {
    let hillenburg = Credit { id: Some(10), name: "Stephen Hillenburg".into(), job: "Director".into() };
    let mut obs = Vec::new();
    for _ in 0..4 {
        obs.extend(film("The SpongeBob SquarePants Movie", Some(1), &liked(), &["Comedy", "Family"], &[hillenburg.clone()]));
    }
    let group = of_key(&obs, "Stephen Hillenburg");
    assert_eq!(group.len(), 4);
    assert_eq!(distinct_film_count(&group), 1);
}

#[test]
fn films_without_ids_are_told_apart_by_title() {
    let mut obs = film("  Alpha ", None, &liked(), &["Drama"], &[]);
    obs.extend(film("alpha", None, &liked(), &["Drama"], &[]));
    obs.extend(film("Beta", None, &liked(), &["Drama"], &[]));
    let group = of_key(&obs, "Drama");
    assert_eq!(distinct_film_count(&group), 2);
    assert_eq!(distinct_film_count(&[]), 0);
}

#[test]
fn powell_cluster_is_shared_comedy() {
    let mut obs = film("Kung Fu Panda", Some(1), &liked(), &["Comedy", "Animation", "Family"], &[powell()]);
    obs.extend(film("Minions & Monsters", Some(2), &liked(), &["Comedy", "Animation", "Family"], &[powell()]));
    let group = of_key(&obs, "John Powell");
    let key = group[0].key.clone();
    let c = cluster_from_group(&key, &group);
    let mut genres = c.genres.clone();
    genres.sort();
    assert_eq!(genres, strings(&["animation", "comedy", "family"]));
    assert_eq!(c.modes, strings(&["comedy"]));
    assert!(c.keywords.is_empty());
    assert!(c.overlaps(&strings(&["Comedy", "Animation"]), &[], &strings(&["comedy"])));
    assert!(!c.overlaps(&strings(&["Drama", "Thriller"]), &[], &strings(&["intensity", "story"])));
}

#[test]
fn unrelated_genres_give_an_empty_cluster() {
    let dp = Credit { id: Some(77), name: "Greig Fraser".into(), job: "Director of Photography".into() };
    let mut obs = film("The Batman", Some(1), &liked(), &["Crime"], &[dp.clone()]);
    obs.extend(film("Project Hail Mary", Some(2), &liked(), &["Science Fiction"], &[dp]));
    let group = of_key(&obs, "Greig Fraser");
    let c = cluster_from_group(&group[0].key, &group);
    assert!(c.is_empty());
}

#[test]
fn majority_of_three_needs_two() {
    let mut obs = film("A", Some(1), &liked(), &["Drama", "Thriller"], &[powell()]);
    obs.extend(film("B", Some(2), &liked(), &["Drama"], &[powell()]));
    obs.extend(film("C", Some(3), &liked(), &["Comedy"], &[powell()]));
    let group = of_key(&obs, "John Powell");
    let c = cluster_from_group(&group[0].key, &group);
    assert_eq!(c.genres, strings(&["drama"]));
    assert_eq!(c.modes, strings(&["story"]));
}

#[test]
fn disliked_and_repeated_films_do_not_count_toward_the_cluster() {
    let mut obs = film("A", Some(1), &liked(), &["Drama"], &[powell()]);
    obs.extend(film("A", Some(1), &liked(), &["Horror"], &[powell()]));
    obs.extend(film("B", Some(2), &disliked(), &["Horror"], &[powell()]));
    obs.extend(film("C", Some(3), &liked(), &["Drama", "Horror"], &[powell()]));
    let group = of_key(&obs, "John Powell");
    let c = cluster_from_group(&group[0].key, &group);
    // Liked films: A (with its first genres, Drama) and C.
    assert_eq!(c.genres, strings(&["drama"]));
    assert_eq!(c.modes, strings(&["story"]));
}

#[test]
fn single_liked_film_or_genre_key_gives_no_cluster() {
    let obs = film("A", Some(1), &liked(), &["Drama"], &[powell()]);
    let group = of_key(&obs, "John Powell");
    assert!(cluster_from_group(&group[0].key, &group).is_empty());
    let mut obs = film("A", Some(1), &liked(), &["Drama"], &[]);
    obs.extend(film("B", Some(2), &liked(), &["Drama"], &[]));
    let group = of_key(&obs, "Drama");
    let key = FeatureKey::new(FeatureFamily::Genre, None, "Drama");
    assert!(cluster_from_group(&key, &group).is_empty());
}
