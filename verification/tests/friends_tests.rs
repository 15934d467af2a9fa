use taste::features::{Credit, FeatureFamily, Keyword};
use taste::friends::{friend_candidates, friend_pairs, friend_rating, FriendRating, payload_title_year};
use taste::profile::film_feature_keys;
use taste::retrieve::{FilmRecord, FilmSignal, MediaKind, RetrievalKind};

fn library_film(title: &str, tmdb_id: Option<i64>, rating: Option<i32>) -> FilmRecord {
    FilmRecord {
        key: title.into(),
        title: title.into(),
        year: Some(2010),
        tmdb_id,
        rating,
        liked: false,
        watched: true,
        watchlist: false,
        viewings: 1,
        last_date: None,
        genres: vec!["Drama".into(), "Mystery".into()],
        credits: vec![
            Credit { id: Some(5), name: "Dir".into(), job: "Director".into() },
            Credit { id: Some(6), name: "Grip".into(), job: "Key Grip".into() },
        ],
        keywords: vec![
            Keyword { id: Some(1), name: "neo-noir".into() },
            Keyword { id: Some(2), name: "aftercreditsstinger".into() },
        ],
        recommendations: vec![],
        similar: vec![],
        runtime: Some(130),
        poster: None,
        vote_count: None,
        review: None,
        signal: Some(FilmSignal {
            absolute: 500,
            affinity_preference: 400,
            familiarity_strength: 0,
            recommendation_weight: 1000,
        }),
        age_years: None,
    }
}

fn row(friend: &str, rating: i32, tmdb_id: Option<i64>, title: &str) -> FriendRating {
    FriendRating {
        friend_id: friend.into(),
        username: format!("{friend}-name"),
        rating,
        tmdb_id,
        title: title.into(),
        year: Some(2001),
    }
}

#[test]
fn friend_rating_prefers_catalog_title_and_id() {
    let r = friend_rating(
        "f1".into(),
        "ann".into(),
        4500,
        None,
        r#"{"tmdb_id": 42, "title": "x"}"#,
        Some("".into()),
        "From Payload".into(),
        Some(1999),
    );
    assert_eq!(r.tmdb_id, Some(42));
    assert_eq!(r.title, "From Payload");
    assert_eq!(r.year, Some(1999));
    let r = friend_rating(
        "f1".into(),
        "ann".into(),
        4500,
        Some(7),
        r#"{"tmdb_id": 42}"#,
        Some("Catalog".into()),
        "From Payload".into(),
        None,
    );
    assert_eq!(r.tmdb_id, Some(7));
    assert_eq!(r.title, "Catalog");
    let r = friend_rating("f1".into(), "ann".into(), 4500, None, "not json", None, "T".into(), None);
    assert_eq!(r.tmdb_id, None);
    let r = friend_rating("f1".into(), "ann".into(), 4500, None, r#"{"tmdb_id": "9"}"#, None, "T".into(), None);
    assert_eq!(r.tmdb_id, None);
}

#[test]
fn pairs_follow_the_viewers_last_rating_of_each_film() {
    let films = vec![
        library_film("A", Some(1), Some(4000)),
        library_film("B", Some(2), None),
        library_film("A again", Some(1), Some(2500)),
        library_film("C", Some(3), Some(5000)),
    ];
    let rows = vec![
        row("f1", 3000, Some(1), "A"),
        row("f2", 4500, Some(3), "C"),
        row("f1", 5000, Some(2), "B"),
        row("f1", 1500, Some(3), "C"),
        row("f2", 4000, None, "Unknown"),
    ];
    let out = friend_pairs(&films, &rows);
    assert_eq!(out.len(), 2);
    assert_eq!(out[0].friend_id, "f1");
    assert_eq!(out[0].username, "f1-name");
    assert_eq!(out[0].pairs, vec![(2500, 3000), (5000, 1500)]);
    assert_eq!(out[1].friend_id, "f2");
    assert_eq!(out[1].pairs, vec![(5000, 4500)]);
}

#[test]
fn loved_unseen_films_become_friend_candidates() {
    let rows = vec![
        row("f1", 4500, Some(10), "Ten"),
        row("f2", 3000, Some(11), "Eleven"),
        row("f2", 5000, Some(10), "Ten (again)"),
        row("f1", 4000, Some(12), "Seen"),
        row("f3", 3500, None, "  Untitled "),
    ];
    let sims = vec![("f1".to_string(), 800), ("f2".to_string(), -400)];
    let seen = vec!["tmdb:12".to_string()];
    let out = friend_candidates(&rows, &sims, &seen);
    assert_eq!(out.len(), 2);
    let ten = &out[0];
    assert_eq!(ten.tmdb_id, Some(10));
    assert_eq!(ten.title, "Ten");
    assert_eq!(ten.sources.len(), 1);
    assert_eq!(ten.sources[0].kind, RetrievalKind::Friend);
    assert_eq!(ten.sources[0].label, "loved by 2 friend(s)");
    // f1: (4500 - 3000) / 2 = 750, × 0.8 = 600; f2: 1000 × -0.4 = -400.
    assert_eq!(ten.friend_affinity, 200);
    assert_eq!(ten.media_kind, MediaKind::Movie);
    assert!(ten.genres.is_empty());
    let untitled = &out[1];
    assert_eq!(untitled.tmdb_id, None);
    assert_eq!(untitled.title, "  Untitled ");
    assert_eq!(untitled.sources[0].label, "loved by 1 friend(s)");
    // f3 has no similarity: no pull.
    assert_eq!(untitled.friend_affinity, 0);
}

#[test]
fn friend_affinity_is_clamped() {
    let rows = vec![
        row("a", 5000, Some(1), "X"),
        row("b", 5000, Some(1), "X"),
    ];
    let sims = vec![("a".to_string(), 900), ("b".to_string(), 900)];
    let out = friend_candidates(&rows, &sims, &[]);
    assert_eq!(out.len(), 1);
    assert_eq!(out[0].friend_affinity, 1000);
    let sims = vec![("a".to_string(), -900), ("b".to_string(), -900)];
    let out = friend_candidates(&rows, &sims, &[]);
    assert_eq!(out[0].friend_affinity, -1000);
}

#[test]
fn negative_pull_rounds_toward_zero() {
    let rows = vec![row("a", 3501, Some(1), "X")];
    // (3501 - 3000) / 2 = 250, × -0.003 = -0.75, toward zero: 0.
    let sims = vec![("a".to_string(), -3)];
    let out = friend_candidates(&rows, &sims, &[]);
    assert_eq!(out[0].friend_affinity, 0);
}

#[test]
fn film_feature_keys_are_the_primary_features() {
    let f = library_film("A", Some(1), Some(4000));
    let keys = film_feature_keys(&f);
    let names: Vec<(FeatureFamily, String)> = keys.iter().map(|k| (k.family, k.name.clone())).collect();
    assert_eq!(
        names,
        vec![
            (FeatureFamily::Genre, "Drama".to_string()),
            (FeatureFamily::Genre, "Mystery".to_string()),
            (FeatureFamily::Director, "Dir".to_string()),
            (FeatureFamily::Keyword, "neo-noir".to_string()),
        ]
    );
    let mut unsignalled = f.clone();
    unsignalled.signal = None;
    assert!(film_feature_keys(&unsignalled).is_empty());
}

#[test]
fn payload_gives_title_and_year_when_they_fit() {
    let (t, y) = payload_title_year(r#"{"title":"Heat","year":1995,"tmdb_id":949}"#);
    assert_eq!(t, "Heat");
    assert_eq!(y, Some(1995));
    let (t, y) = payload_title_year(r#"{"title":7,"year":99999999999}"#);
    assert_eq!(t, "");
    assert_eq!(y, None);
    let (t, y) = payload_title_year("not json");
    assert_eq!(t, "");
    assert_eq!(y, None);
}
