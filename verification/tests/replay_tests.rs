use taste::replay::replay_split;
use taste::retrieve::FilmRecord;

fn film(title: &str, tmdb_id: Option<i64>, rating: Option<i32>, date: Option<&str>, watched: bool) -> FilmRecord {
    FilmRecord {
        key: title.into(),
        title: title.into(),
        year: Some(2000),
        tmdb_id,
        rating,
        liked: false,
        watched,
        watchlist: false,
        viewings: 1,
        last_date: date.map(|d| d.to_string()),
        genres: vec![],
        credits: vec![],
        keywords: vec![],
        recommendations: vec![],
        similar: vec![],
        runtime: None,
        poster: None,
        vote_count: None,
        review: None,
        signal: None,
        age_years: None,
    }
}

#[test]
fn newest_positive_films_are_held_out() {
    let films = vec![
        film("old love", Some(1), Some(5000), Some("2020-01-01"), true),
        film("new love", Some(2), Some(4500), Some("2024-05-01"), true),
        film("newer meh", Some(3), Some(3000), Some("2025-01-01"), true),
        film("undated love", Some(4), Some(4000), None, true),
        film("mid love", Some(5), Some(4000), Some("2022-03-03"), true),
        film("watchlist", Some(6), None, None, false),
        film("new love again", Some(2), Some(5000), Some("2024-05-01"), true),
    ];
    let split = replay_split(&films, 2);
    // By date: undated, 2020, 2022, 2024 (library order among equals).
    assert_eq!(split.held_out, vec!["tmdb:2", "tmdb:2"]);
    assert_eq!(split.training, vec![0, 2, 3, 4, 5]);
    assert_eq!(split.seen, vec!["tmdb:1", "tmdb:3", "tmdb:4", "tmdb:5"]);
    let split = replay_split(&films, 3);
    assert_eq!(split.held_out, vec!["tmdb:2", "tmdb:2", "tmdb:5"]);
    assert_eq!(split.training, vec![0, 2, 3, 5]);
}

#[test]
fn nothing_to_hold_out() {
    let films = vec![film("meh", None, Some(3000), None, true)];
    let split = replay_split(&films, 5);
    assert!(split.held_out.is_empty());
    assert_eq!(split.training, vec![0]);
    assert_eq!(split.seen, vec!["meh|2000"]);
}
