use std::collections::hash_map::DefaultHasher;
use std::hash::{Hash, Hasher};
use taste::cache::{
    bind_catalog_fingerprint, candidate_input_fingerprint, catalog_fingerprint_matches,
    catalog_payload_fingerprint, catalog_payload_ids, credit_sig, fingerprints, hash_parts,
    library_state_fingerprint, milli_string, profile_fingerprint, scoring_fingerprint,
    snapshot_usable, CatalogRow,
};
use taste::features::{Credit, Keyword};
use taste::retrieve::{Candidate, FilmRecord, MediaKind, RetrievalKind, RetrievalSource};

fn strings(v: &[&str]) -> Vec<String> {
    v.iter().map(|s| s.to_string()).collect()
}

#[test]
fn hash_is_sixteen_hex_digits_and_order_sensitive() {
    let a = hash_parts(&strings(&["a", "b"]));
    let b = hash_parts(&strings(&["b", "a"]));
    assert_eq!(a.len(), 16);
    assert!(a.chars().all(|c| c.is_ascii_hexdigit() && !c.is_ascii_uppercase()));
    assert_ne!(a, b);
    assert_ne!(hash_parts(&strings(&["ab"])), hash_parts(&strings(&["a", "b"])));
    assert_eq!(a, hash_parts(&strings(&["a", "b"])));
}

#[test]
fn hash_matches_std_string_hashing() {
    let mut h = DefaultHasher::new();
    "x".hash(&mut h);
    "yz".hash(&mut h);
    assert_eq!(hash_parts(&strings(&["x", "yz"])), format!("{:016x}", h.finish()));
}

#[test]
fn scoring_fingerprint_depends_on_the_algorithm_version() {
    assert_ne!(scoring_fingerprint("v1"), scoring_fingerprint("v2"));
    assert_eq!(scoring_fingerprint("v1"), scoring_fingerprint("v1"));
}

#[test]
fn bound_fingerprint_matches_its_payload() {
    let stored = bind_catalog_fingerprint("retrieve", "payload");
    assert_eq!(stored, "retrieve:payload");
    assert!(catalog_fingerprint_matches(&stored, "payload"));
    assert!(!catalog_fingerprint_matches(&stored, "other"));
}

#[test]
fn mutated_cached_credits_break_catalog_fingerprint() {
    let before = catalog_payload_fingerprint(&[CatalogRow {
        tmdb_id: 7,
        credits_json: Some("[]".into()),
        keywords_json: Some("[]".into()),
    }]);
    let after = catalog_payload_fingerprint(&[CatalogRow {
        tmdb_id: 7,
        credits_json: Some("[{\"name\":\"Nolan\"}]".into()),
        keywords_json: Some("[]".into()),
    }]);
    assert_ne!(before, after);
    let stored = format!("retrieve:{before}");
    assert!(!catalog_fingerprint_matches(&stored, &after));
    assert!(catalog_fingerprint_matches(&stored, &before));
}

#[test]
fn payload_ids_are_sorted_and_unique() {
    assert_eq!(catalog_payload_ids(&[5, 1, 5, 3, 1]), vec![1, 3, 5]);
    assert!(catalog_payload_ids(&[]).is_empty());
}

#[test]
fn snapshot_reuse_rules() {
    let f = fingerprints("v1", "p".into(), "l".into(), "r:cat".into(), "m", true);
    assert_eq!(f.scoring_fingerprint, scoring_fingerprint("v1"));
    let until = "2999-01-01T00:00:00+00:00";
    let now = "2026-01-01T00:00:00+00:00";
    assert!(snapshot_usable(&f, until, "v1", "p", "l", now, "cat", true));
    assert!(!snapshot_usable(&f, until, "v2", "p", "l", now, "cat", true));
    assert!(!snapshot_usable(&f, until, "v1", "p2", "l", now, "cat", true));
    assert!(!snapshot_usable(&f, "2000-01-01T00:00:00Z", "v1", "p", "l", now, "cat", true));
    assert!(!snapshot_usable(&f, until, "v1", "p", "l", now, "other", true));
    assert!(!snapshot_usable(&f, until, "v1", "p", "l", now, "cat", false));
    let mut g = f.clone();
    g.scoring_fingerprint = "other".into();
    assert!(!snapshot_usable(&g, until, "v1", "p", "l", now, "cat", true));
}

#[test]
fn narrative_key_tracks_model_and_web() {
    let a = fingerprints("v1", "p".into(), "l".into(), "c".into(), "m", true);
    let b = fingerprints("v1", "p".into(), "l".into(), "c".into(), "m", false);
    let c = fingerprints("v1", "p".into(), "l".into(), "c".into(), "n", true);
    assert_ne!(a.narrative_key, b.narrative_key);
    assert_ne!(a.narrative_key, c.narrative_key);
    assert_eq!(a.profile_fingerprint, "p");
}

#[test]
fn mismatched_scoring_fingerprint_is_not_usable() {
    let payload = catalog_payload_fingerprint(&[]);
    let stored = bind_catalog_fingerprint("retrieve", &payload);
    let mut snap = fingerprints("v1", "p".into(), "l".into(), stored, "m", true);
    snap.scoring_fingerprint = "other".into();
    let until = "2999-01-01T00:00:00+00:00";
    let now = "2026-01-01T00:00:00+00:00";
    assert!(!snapshot_usable(&snap, until, "v1", "p", "l", now, &payload, true));
}

#[test]
fn expired_catalog_valid_until_refuses_warm_skip() {
    let payload = catalog_payload_fingerprint(&[]);
    let stored = bind_catalog_fingerprint("retrieve", &payload);
    let snap = fingerprints("v1", "p".into(), "l".into(), stored, "m", true);
    let now = "2026-01-01T00:00:00+00:00";
    assert!(snapshot_usable(&snap, "2999-01-01T00:00:00Z", "v1", "p", "l", now, &payload, true));
    assert!(!snapshot_usable(&snap, "2000-01-01T00:00:00Z", "v1", "p", "l", now, &payload, true));
}

fn cand(id: i64, name: &str) -> Candidate {
    Candidate {
        tmdb_id: Some(id),
        title: name.into(),
        year: Some(2000),
        poster: None,
        genres: vec![],
        credits: vec![],
        keywords: vec![],
        runtime: None,
        vote_count: None,
        watchlist: false,
        sources: vec![],
        friend_affinity: 0,
        tmdb_related: 0,
        media_kind: MediaKind::Movie,
    }
}

#[test]
fn mutating_credits_changes_candidate_input_fingerprint() {
    let a = vec![cand(1, "A")];
    let mut b = cand(1, "A");
    b.credits.push(Credit {
        id: Some(9),
        name: "Nolan".into(),
        job: "Director".into(),
    });
    assert_ne!(candidate_input_fingerprint(&a), candidate_input_fingerprint(&[b]));
}

#[test]
fn ids_alone_are_not_the_fingerprint() {
    let a = cand(1, "A");
    let mut b = cand(1, "A");
    b.keywords.push(Keyword {
        id: None,
        name: "neo-noir".into(),
    });
    assert_ne!(candidate_input_fingerprint(&[a]), candidate_input_fingerprint(&[b]));
}

fn film(review: Option<&str>) -> FilmRecord {
    FilmRecord {
        key: "film".into(),
        title: "Film".into(),
        year: Some(2000),
        tmdb_id: Some(1),
        rating: Some(4500),
        liked: true,
        watched: true,
        watchlist: false,
        viewings: 1,
        last_date: Some("2024-01-01".into()),
        genres: vec![],
        credits: vec![],
        keywords: vec![],
        recommendations: vec![],
        similar: vec![],
        runtime: None,
        poster: None,
        vote_count: None,
        review: review.map(str::to_string),
        signal: None,
        age_years: None,
    }
}

#[test]
fn importing_a_review_changes_the_profile_fingerprint() {
    assert_ne!(
        profile_fingerprint("v1", &[film(None)]),
        profile_fingerprint("v1", &[film(Some("beautifully shot"))])
    );
}

#[test]
fn ratings_are_written_as_decimals() {
    let text = |r: i32| milli_string(r).into_iter().collect::<String>();
    assert_eq!(text(4500), "4.5");
    assert_eq!(text(4000), "4");
    assert_eq!(text(3750), "3.75");
    assert_eq!(text(125), "0.125");
    assert_eq!(text(-2500), "-2.5");
    assert_eq!(text(0), "0");
    for r in [4500, 4000, 3750, 125, -2500, 0, 1] {
        assert_eq!(text(r), format!("{}", r as f32 / 1000.0));
    }
}

#[test]
fn profile_fingerprint_lists_rated_films_in_id_order() {
    let mut a = film(Some("x"));
    a.tmdb_id = Some(2);
    a.credits = vec![
        Credit { id: None, name: "Zed".into(), job: "Writer".into() },
        Credit { id: None, name: "Ann".into(), job: "Director".into() },
    ];
    a.keywords = vec![Keyword { id: None, name: "heist".into() }, Keyword { id: None, name: "art".into() }];
    let b = film(None);
    let mut unrated = film(None);
    unrated.rating = None;
    unrated.tmdb_id = Some(0);
    assert_eq!(credit_sig(&a).into_iter().collect::<String>(), "Director:Ann,Writer:Zed|art,heist");
    let expected = hash_parts(&strings(&["v1", "1:4.5:|:review:", "2:4.5:Director:Ann,Writer:Zed|art,heist:review:x"]));
    assert_eq!(profile_fingerprint("v1", &[a, unrated, b]), expected);
}

#[test]
fn library_fingerprint_lists_films_then_sorted_friends() {
    let mut a = film(None);
    a.tmdb_id = None;
    a.watchlist = true;
    a.watched = false;
    a.rating = None;
    let b = film(Some("r"));
    let friends = strings(&["zoe:1", "al:2"]);
    let expected = hash_parts(&strings(&["0:w0:l1:r0:review:", "1:w1:l0:r1:review:r", "al:2", "zoe:1"]));
    assert_eq!(library_state_fingerprint(&[b, a], &friends), expected);
}

#[test]
fn candidate_fingerprint_puts_untracked_titles_last() {
    let mut untracked = cand(0, "B");
    untracked.tmdb_id = None;
    let mut c = cand(5, "A");
    c.credits = vec![Credit { id: None, name: "Ann".into(), job: "Director".into() }];
    c.sources = vec![RetrievalSource::new(RetrievalKind::RelatedSimilar, "similar to X".into(), Some(3))];
    c.watchlist = true;
    c.friend_affinity = 250;
    c.tmdb_related = 1000;
    c.runtime = Some(120);
    let expected = hash_parts(&strings(&[
        "5|Director:Ann||RelatedSimilar:similar to X|true|250|1000|Movie|120|0",
        "0||||false|0|0|Movie|0|0",
    ]));
    assert_eq!(candidate_input_fingerprint(&[untracked, c]), expected);
}
