use std::collections::HashSet;

use taste::features::Credit;
use taste::pool::{push_related, select_fair_pool, tmdb_id_from_item, upsert_candidate, RelatedItem};
use taste::retrieve::{identity_key, Candidate, MediaKind, RetrievalKind, RetrievalSource};
use taste::text::parse_i64;

fn bare(tmdb_id: Option<i64>, title: &str, kind: MediaKind) -> Candidate {
    Candidate {
        tmdb_id,
        title: title.into(),
        year: Some(2020),
        poster: None,
        genres: vec![],
        credits: vec![],
        keywords: vec![],
        runtime: None,
        vote_count: None,
        watchlist: false,
        sources: vec![],
        friend_affinity: 0,
        tmdb_related: 0,
        media_kind: kind,
    }
}

fn neighbor(id: i64, title: &str) -> RelatedItem {
    RelatedItem {
        id: format!("tmdb:{id}"),
        title: title.into(),
        year: Some(2000),
        poster: None,
    }
}

fn chars(s: &str) -> Vec<char> {
    s.chars().collect()
}

#[test]
fn upsert_drops_non_movies() {
    let mut pool: Vec<(String, Candidate)> = Vec::new();
    upsert_candidate(&mut pool, bare(Some(1), "A Show", MediaKind::TvSeries));
    upsert_candidate(&mut pool, bare(Some(2), "A Movie", MediaKind::Movie));
    assert_eq!(pool.len(), 1);
    assert_eq!(pool[0].1.title, "A Movie");
}

#[test]
fn upsert_merges_sources_from_every_seed() {
    let mut pool: Vec<(String, Candidate)> = Vec::new();
    for seed_id in [1i64, 2, 3, 4, 5] {
        push_related(
            &mut pool,
            &[],
            Some(seed_id),
            Some(5000),
            neighbor(50, "Shared"),
            RetrievalKind::RelatedRecommendations,
            format!("recommended from {seed_id}"),
        );
    }
    assert_eq!(pool.len(), 1);
    assert_eq!(pool[0].1.sources.len(), 5, "got {:?}", pool[0].1.sources);
}

#[test]
fn fair_pool_keeps_a_neighbor_per_seed() {
    let mut pool: Vec<(String, Candidate)> = Vec::new();
    for i in 0..80i64 {
        push_related(
            &mut pool,
            &[],
            Some(i),
            Some(5000),
            neighbor(10_000 + i, &format!("only-{i}")),
            RetrievalKind::RelatedRecommendations,
            format!("recommended from {i}"),
        );
        for extra in 0..20 {
            push_related(
                &mut pool,
                &[],
                Some(i),
                Some(5000),
                neighbor(20_000 + i * 20 + extra, &format!("pad-{i}-{extra}")),
                RetrievalKind::RelatedRecommendations,
                format!("recommended from {i}"),
            );
        }
    }
    let selected = select_fair_pool(pool, 100);
    let mut seeds_kept = HashSet::new();
    for c in &selected {
        for s in &c.sources {
            if let Some(id) = s.seed_tmdb_id {
                seeds_kept.insert(id);
            }
        }
    }
    assert_eq!(
        seeds_kept.len(),
        80,
        "fair cap must keep at least one neighbor per seed, kept {}",
        seeds_kept.len()
    );
}

#[test]
fn fair_pool_respects_the_cap_and_keeps_small_pools_whole() {
    let mut pool: Vec<(String, Candidate)> = Vec::new();
    for i in 0..30i64 {
        push_related(
            &mut pool,
            &[],
            Some(i % 3),
            None,
            neighbor(100 + i, &format!("n-{i}")),
            RetrievalKind::RelatedSimilar,
            format!("similar to {}", i % 3),
        );
    }
    assert_eq!(pool.len(), 30);
    let all = select_fair_pool(pool.clone(), 50);
    assert_eq!(all.len(), 30);
    let some = select_fair_pool(pool, 7);
    assert_eq!(some.len(), 7);
}

#[test]
fn fair_pool_keeps_watchlist_titles_first() {
    let mut pool: Vec<(String, Candidate)> = Vec::new();
    for i in 0..10i64 {
        let mut c = bare(Some(i), &format!("t{i}"), MediaKind::Movie);
        c.watchlist = i == 9;
        c.sources = vec![RetrievalSource::new(
            RetrievalKind::Exploration,
            "explore".into(),
            None,
        )];
        upsert_candidate(&mut pool, c);
    }
    let kept = select_fair_pool(pool, 1);
    assert_eq!(kept.len(), 1);
    assert_eq!(kept[0].title, "t9");
}

#[test]
fn seen_neighbors_are_not_filed() {
    let mut pool: Vec<(String, Candidate)> = Vec::new();
    let seen = vec![identity_key(Some(7), "Seen", Some(2000))];
    push_related(
        &mut pool,
        &seen,
        Some(1),
        None,
        neighbor(7, "Seen"),
        RetrievalKind::Related,
        "related to x".into(),
    );
    assert!(pool.is_empty());
    push_related(
        &mut pool,
        &seen,
        Some(1),
        None,
        neighbor(8, "Fresh"),
        RetrievalKind::Related,
        "related to x".into(),
    );
    assert_eq!(pool.len(), 1);
    assert_eq!(pool[0].0, "tmdb:8");
    assert_eq!(pool[0].1.tmdb_id, Some(8));
    assert_eq!(pool[0].1.tmdb_related, 1000);
    assert_eq!(pool[0].1.sources[0].seed_tmdb_id, Some(1));
}

#[test]
fn upsert_merges_fields_into_the_first_entry() {
    let mut pool: Vec<(String, Candidate)> = Vec::new();
    let mut first = bare(None, " Heat ", MediaKind::Movie);
    first.year = Some(1995);
    first.friend_affinity = 400;
    first.tmdb_related = 200;
    first.sources = vec![RetrievalSource::new(RetrievalKind::Friend, "friend".into(), None)];
    upsert_candidate(&mut pool, first);
    assert_eq!(pool[0].0, "heat|1995");

    let mut second = bare(None, "heat", MediaKind::Movie);
    second.year = Some(1995);
    second.friend_affinity = 300;
    second.tmdb_related = 900;
    second.watchlist = true;
    second.poster = Some("p.jpg".into());
    second.genres = vec!["Crime".into()];
    second.credits = vec![Credit {
        id: Some(10),
        name: "Michael Mann".into(),
        job: "Director".into(),
    }];
    second.sources = vec![
        RetrievalSource::new(RetrievalKind::Friend, "friend".into(), None),
        RetrievalSource::new(RetrievalKind::Watchlist, "watchlist".into(), None),
    ];
    upsert_candidate(&mut pool, second);

    assert_eq!(pool.len(), 1);
    let c = &pool[0].1;
    assert_eq!(c.title, " Heat ");
    assert_eq!(c.friend_affinity, 700);
    assert_eq!(c.tmdb_related, 900);
    assert!(c.watchlist);
    assert_eq!(c.poster.as_deref(), Some("p.jpg"));
    assert_eq!(c.genres, vec!["Crime".to_string()]);
    assert_eq!(c.credits.len(), 1);
    assert_eq!(c.sources.len(), 2);
    assert_eq!(c.sources[1].kind, RetrievalKind::Watchlist);
}

#[test]
fn friend_affinity_saturates() {
    let mut pool: Vec<(String, Candidate)> = Vec::new();
    let mut a = bare(Some(3), "x", MediaKind::Movie);
    a.friend_affinity = i32::MAX - 1;
    let mut b = bare(Some(3), "x", MediaKind::Movie);
    b.friend_affinity = 10;
    upsert_candidate(&mut pool, a);
    upsert_candidate(&mut pool, b);
    assert_eq!(pool[0].1.friend_affinity, i32::MAX);
}

#[test]
fn item_ids_parse_like_std() {
    assert_eq!(tmdb_id_from_item(&neighbor(603, "The Matrix")), Some(603));
    let odd = RelatedItem {
        id: "imdb:tt0133093".into(),
        title: "x".into(),
        year: None,
        poster: None,
    };
    assert_eq!(tmdb_id_from_item(&odd), None);
    for s in ["0", "42", "-17", "+8", "9223372036854775807", "-9223372036854775808"] {
        assert_eq!(parse_i64(&chars(s)), s.parse::<i64>().ok(), "{s}");
    }
    for s in ["", "-", "+", "1a", " 1", "9223372036854775808", "-9223372036854775809", "99999999999999999999999"] {
        assert_eq!(parse_i64(&chars(s)), None, "{s}");
        assert!(s.parse::<i64>().is_err());
    }
}
