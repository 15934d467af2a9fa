use taste::features::Credit;
use taste::observe::{observations_from_films, review_language};
use taste::profile::ProfileSignal;
use taste::retrieve::FilmRecord;

fn film(title: &str, rating: Option<i32>, review: Option<&str>) -> FilmRecord {
    FilmRecord {
        key: title.into(),
        title: title.into(),
        year: None,
        tmdb_id: None,
        rating,
        liked: false,
        watched: true,
        watchlist: false,
        viewings: 1,
        last_date: None,
        genres: vec!["Drama".into()],
        credits: vec![Credit { id: Some(5), name: "Dir".into(), job: "Director".into() }],
        keywords: vec![],
        recommendations: vec![],
        similar: vec![],
        runtime: None,
        poster: None,
        vote_count: None,
        review: review.map(String::from),
        signal: None,
        age_years: Some(-20),
    }
}

fn signal() -> ProfileSignal {
    ProfileSignal {
        absolute: 600,
        relative_strength: 500,
        affinity_preference: 400,
        preference_weight: 1000,
        recommendation_weight: 1000,
        discovery_strength: 1000,
    }
}

#[test]
fn shared_review_language_needs_two_counted_reviews() {
    let films = vec![
        film("A", Some(4000), Some("Great acting throughout.")),
        film("B", Some(3500), Some("The acting was great.")),
        film("C", None, Some("Beautiful cinematography.")),
    ];
    let (shared, per) = review_language(&films, &[true, true, true]);
    assert_eq!(shared, vec!["strong performances".to_string()]);
    assert_eq!(per[0].len(), 1);
    assert_eq!(per[0][0].name, "strong performances");
    assert_eq!(per[0][0].id, None);
    assert!(per[2].is_empty());
    let (shared, _) = review_language(&films, &[true, false, true]);
    assert!(shared.is_empty());
}

#[test]
fn only_rated_films_with_a_signal_give_observations() {
    let films = vec![
        film("A", Some(4000), Some("Great acting.")),
        film("B", Some(3000), Some("Strong acting here.")),
        film("C", Some(4500), None),
        film("D", None, None),
    ];
    let obs = observations_from_films(&films, &[Some(signal()), Some(signal()), None, Some(signal())]);
    // A and B each give Drama, the director and the shared review keyword.
    assert_eq!(obs.len(), 6);
    assert_eq!(obs[0].evidence.title, "A");
    assert_eq!(obs[3].evidence.title, "B");
    assert_eq!(obs[2].key.name, "strong performances");
    assert_eq!(obs[0].age_years, Some(0));
    assert!(obs.iter().all(|o| o.evidence.title != "C" && o.evidence.title != "D"));
}
