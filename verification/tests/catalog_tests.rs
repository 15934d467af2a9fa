use taste::catalog::{
    credits_from_entries, credits_from_lines, identity_review, json_vec, keywords_from_entries,
    parse_credits, parse_keywords, related_lists,
};
use taste::features::Credit;

fn views(cs: &[Credit]) -> Vec<(Option<i64>, String, String)> {
    cs.iter().map(|c| (c.id, c.name.clone(), c.job.clone())).collect()
}

#[test]
fn credits_object_gives_crew_then_first_eight_cast() {
    let cast: Vec<String> = (0..10)
        .map(|i| format!(r#"{{"id": {i}, "name": "Actor {i}", "character": "x"}}"#))
        .collect();
    let raw = format!(
        r#"{{"crew": [{{"id": 1, "name": "Dir", "job": "Director"}}, {{"id": 2, "job": "Writer"}}, {{"name": "NoJob"}}], "cast": [{}]}}"#,
        cast.join(",")
    );
    let out = parse_credits(Some(&raw), Some(r#"["Ignored as Role"]"#), None);
    let v = views(&out);
    assert_eq!(v[0], (Some(1), "Dir".to_string(), "Director".to_string()));
    assert_eq!(v[1], (None, "NoJob".to_string(), String::new()));
    assert_eq!(v.len(), 2 + 8);
    assert_eq!(v[2], (Some(0), "Actor 0".to_string(), "Actor".to_string()));
    assert_eq!(v[9], (Some(7), "Actor 7".to_string(), "Actor".to_string()));
}

#[test]
fn name_lists_are_the_fallback() {
    let crew = r#"["Greta Gerwig (Director)", "Someone (Writer (Story))", "NoJob"]"#;
    let cast = r#"["Margot Robbie as Barbie", "  Ryan Gosling   as Ken", " as Nobody", "Solo"]"#;
    // An empty credits object names no one.
    let out = parse_credits(Some(r#"{"crew": [], "cast": []}"#), Some(cast), Some(crew));
    assert_eq!(
        views(&out),
        vec![
            (None, "Greta Gerwig".to_string(), "Director".to_string()),
            (None, "Someone (Writer".to_string(), "Story".to_string()),
            (None, "Margot Robbie".to_string(), "Actor".to_string()),
            (None, "Ryan Gosling".to_string(), "Actor".to_string()),
            (None, "Solo".to_string(), "Actor".to_string()),
        ]
    );
    // Malformed or missing columns give nothing.
    assert!(parse_credits(Some("not json"), Some("[1, 2]"), None).is_empty());
    assert!(parse_credits(None, None, None).is_empty());
}

#[test]
fn credits_from_entries_and_lines_directly() {
    let crew = vec![
        (Some(3), Some("A".to_string()), None),
        (Some(4), None, Some("Director".to_string())),
    ];
    let cast = vec![(Some(5), Some("B".to_string()), Some("ignored".to_string()))];
    assert_eq!(
        views(&credits_from_entries(&crew, &cast)),
        vec![
            (Some(3), "A".to_string(), String::new()),
            (Some(5), "B".to_string(), "Actor".to_string()),
        ]
    );
    let lines = credits_from_lines(&["X (Composer))".to_string()], &[]);
    assert_eq!(views(&lines), vec![(None, "X".to_string(), "Composer".to_string())]);
}

#[test]
fn keywords_keep_named_entries() {
    let out = parse_keywords(Some(r#"[{"id": 10, "name": "heist"}, {"id": 11}, {"name": "noir"}]"#.to_string()));
    let v: Vec<(Option<i64>, String)> = out.iter().map(|k| (k.id, k.name.clone())).collect();
    assert_eq!(v, vec![(Some(10), "heist".to_string()), (None, "noir".to_string())]);
    assert!(parse_keywords(Some(r#"{"id": 1}"#.to_string())).is_empty());
    assert!(parse_keywords(None).is_empty());
    let direct = keywords_from_entries(&[(Some(1), Some("a".to_string())), (Some(2), None)]);
    assert_eq!(direct.len(), 1);
}

#[test]
fn json_string_lists() {
    assert_eq!(json_vec(Some(r#"["Drama", "Comedy"]"#.to_string())), vec!["Drama", "Comedy"]);
    assert!(json_vec(Some("Drama".to_string())).is_empty());
    assert!(json_vec(None).is_empty());
}

#[test]
fn review_comes_from_the_source_identity() {
    assert_eq!(
        identity_review(Some(r#"{"title": "X", "review": "Loved the pacing."}"#.to_string())),
        Some("Loved the pacing.".to_string())
    );
    assert_eq!(identity_review(Some(r#"{"review": "   "}"#.to_string())), None);
    assert_eq!(identity_review(Some(r#"{"review": 5}"#.to_string())), None);
    assert_eq!(identity_review(Some("not json".to_string())), None);
    assert_eq!(identity_review(None), None);
}

fn bare_candidate() -> taste::retrieve::Candidate {
    taste::retrieve::Candidate {
        tmdb_id: Some(5),
        title: "Old Title".into(),
        year: None,
        poster: Some("kept.jpg".into()),
        genres: vec![],
        credits: vec![Credit { id: None, name: "Kept".into(), job: "Director".into() }],
        keywords: vec![taste::features::Keyword { id: None, name: "kept".into() }],
        runtime: None,
        vote_count: Some(3),
        watchlist: true,
        sources: vec![],
        friend_affinity: 0,
        tmdb_related: 0,
        media_kind: taste::retrieve::MediaKind::Movie,
    }
}

#[test]
fn catalog_row_fills_what_is_missing() {
    let mut c = bare_candidate();
    taste::catalog::fill_from_catalog(
        &mut c,
        taste::catalog::CatalogRow {
            genres: Some(r#"["Drama"]"#.into()),
            credits: Some(r#"{"crew": [{"id": 9, "name": "New", "job": "Director"}]}"#.into()),
            cast: None,
            crew: None,
            keywords: Some(r#"[{"id": 1, "name": "heist"}]"#.into()),
            runtime: Some(101),
            vote_count: Some(999),
            poster: Some("new.jpg".into()),
            title: Some("Catalog Title".into()),
            year: Some(1999),
        },
    );
    assert_eq!(c.genres, vec!["Drama"]);
    assert_eq!(views(&c.credits), vec![(Some(9), "New".to_string(), "Director".to_string())]);
    assert_eq!(c.keywords[0].name, "kept");
    assert_eq!(c.runtime, Some(101));
    assert_eq!(c.vote_count, Some(3));
    assert_eq!(c.poster.as_deref(), Some("kept.jpg"));
    assert_eq!(c.title, "Catalog Title");
    assert_eq!(c.year, Some(1999));
    assert!(c.watchlist);
    let mut d = bare_candidate();
    taste::catalog::fill_from_catalog(
        &mut d,
        taste::catalog::CatalogRow {
            genres: None,
            credits: None,
            cast: None,
            crew: None,
            keywords: None,
            runtime: None,
            vote_count: None,
            poster: None,
            title: Some(String::new()),
            year: None,
        },
    );
    assert_eq!(d.title, "Old Title");
    assert_eq!(d.credits[0].name, "Kept");
    assert!(d.genres.is_empty());
}

#[test]
fn parse_related_lists_keeps_provenance() {
    let tagged = r#"{"recommendations":[{"id":"tmdb:1","title":"Rec","year":2020}],"similar":[{"id":"tmdb:2","title":"Sim","year":2019}]}"#;
    let (recs, similar) = related_lists(Some(tagged.to_string()));
    assert_eq!(recs[0].title, "Rec");
    assert_eq!(similar[0].title, "Sim");
    let legacy = r#"[{"id":"tmdb:3","title":"Old","year":2010}]"#;
    let (recs, similar) = related_lists(Some(legacy.to_string()));
    assert_eq!(recs[0].title, "Old");
    assert!(similar.is_empty());
}

#[test]
fn related_lists_skip_entries_without_id_and_blank_columns() {
    let raw = r#"{"similar":[{"title":"No id"},{"id":"tmdb:4","year":99999999999,"poster":"/p.jpg"}]}"#;
    let (recs, similar) = related_lists(Some(raw.to_string()));
    assert!(recs.is_empty());
    assert_eq!(similar.len(), 1);
    assert_eq!(similar[0].id, "tmdb:4");
    assert_eq!(similar[0].title, "");
    assert_eq!(similar[0].year, None);
    assert_eq!(similar[0].poster.as_deref(), Some("/p.jpg"));
    let (a, b) = related_lists(Some("   ".to_string()));
    assert!(a.is_empty() && b.is_empty());
    let (a, b) = related_lists(None);
    assert!(a.is_empty() && b.is_empty());
    let (a, b) = related_lists(Some("not json".to_string()));
    assert!(a.is_empty() && b.is_empty());
    let (a, b) = related_lists(Some(r#"{"other":[{"id":"x"}]}"#.to_string()));
    assert!(a.is_empty() && b.is_empty());
}
