use taste::picks::{evidence_items_for, matching_assessment, matching_pick, pick_origin, pick_reasons};
use taste::reason::{CandidateAssessment, CriticReport};
use taste::retrieve::{FilmRecord, RetrievalKind, RetrievalSource};

fn evidence_film(key: &str, title: &str, tmdb_id: Option<i64>, poster: Option<&str>) -> FilmRecord {
    FilmRecord {
        key: key.into(),
        title: title.into(),
        year: Some(2000),
        tmdb_id,
        rating: Some(4500),
        liked: true,
        watched: true,
        watchlist: false,
        viewings: 1,
        last_date: None,
        genres: vec![],
        credits: vec![],
        keywords: vec![],
        recommendations: vec![],
        similar: vec![],
        runtime: Some(100),
        poster: poster.map(str::to_string),
        vote_count: Some(100),
        review: None,
        signal: None,
        age_years: None,
    }
}

#[test]
fn evidence_items_prefer_related_seeds_and_skip_ambiguous_titles() {
    let films = vec![
        evidence_film("seed-id", "Seed", Some(1), Some("seed-poster")),
        evidence_film("duplicate-a", "Duplicate", Some(2), Some("duplicate-a-poster")),
        evidence_film("duplicate-b", "Duplicate", Some(3), Some("duplicate-b-poster")),
        evidence_film("unique-id", "Unique", None, Some("unique-poster")),
    ];
    let sources = vec![RetrievalSource::new(
        RetrievalKind::Related,
        "similar to Seed".into(),
        Some(1),
    )];
    let evidence = vec!["Duplicate".into(), "Unique".into()];

    let items = evidence_items_for(&sources, &evidence, &films);

    assert_eq!(items.len(), 2);
    assert_eq!(items[0].title, "Seed");
    assert_eq!(items[0].film_id.as_deref(), Some("seed-id"));
    assert_eq!(items[0].tmdb_id, Some(1));
    assert_eq!(items[0].poster.as_deref(), Some("seed-poster"));
    assert_eq!(items[1].title, "Unique");
    assert_eq!(items[1].film_id.as_deref(), Some("unique-id"));
    assert_eq!(items[1].tmdb_id, None);
}

#[test]
fn evidence_items_stop_at_two_and_never_repeat_a_film() {
    let films = vec![
        evidence_film("a", "Alpha", Some(1), None),
        evidence_film("b", "Beta", Some(2), None),
        evidence_film("c", "Gamma", Some(3), None),
    ];
    let sources = vec![
        RetrievalSource::new(RetrievalKind::RelatedRecommendations, "x".into(), Some(1)),
        RetrievalSource::new(RetrievalKind::RelatedSimilar, "y".into(), Some(1)),
        RetrievalSource::new(RetrievalKind::Filmography, "z".into(), Some(2)),
    ];
    let evidence = vec!["  alpha ".into(), "GAMMA".into(), "beta".into()];
    let items = evidence_items_for(&sources, &evidence, &films);
    let titles: Vec<_> = items.iter().map(|e| e.title.as_str()).collect();
    assert_eq!(titles, vec!["Alpha", "Gamma"]);
}

fn view(tmdb_id: Option<i64>, title: &str) -> taste::score::CandidateView {
    taste::score::CandidateView {
        tmdb_id,
        title: title.into(),
        year: Some(2000),
        poster: None,
        watchlist: false,
        sources: vec![],
        directors: vec![],
        genres: vec![],
        modes: vec![],
        media_kind: taste::retrieve::MediaKind::Movie,
        runtime: None,
        vote_count: None,
    }
}

fn scored(tmdb_id: Option<i64>, title: &str) -> taste::score::ScoredCandidate {
    taste::score::ScoredCandidate {
        candidate: view(tmdb_id, title),
        score: taste::score::CandidateScore {
            content: 0,
            tmdb_related: 0,
            friend_affinity: 0,
            recent_taste: 0,
            watchlist: 0,
            novelty: 0,
            negative_evidence: 0,
            semantic_fit: 500,
            semantic_coverage: false,
            total: 0,
        },
        reasons: vec!["because A".into(), "Because a".into(), "B".into()],
        evidence: vec![],
        positive_features: vec![],
        negative_features: vec![],
        contextual_only: false,
        person_keys: vec![],
        display_reasons: vec![],
        scoring_reasons: vec![],
        matched_features: vec![],
        hidden_features: vec![],
        eligibility: taste::explain::EligibilityTrace {
            portable_evidence_required: false,
            passed: true,
            passed_because: vec![],
            candidate_fit: 0,
            evidence_grade: taste::explain::EvidenceGrade::Medium,
        },
    }
}

fn pick(id: &str, title: &str) -> taste::reason::ReasonerPick {
    taste::reason::ReasonerPick {
        id: id.into(),
        title: title.into(),
        year: None,
        why: String::new(),
        mode: String::new(),
        rhymes_with: vec![],
    }
}

#[test]
fn picks_match_by_tmdb_reference_or_title() {
    let c = view(Some(603), "The Matrix");
    let picks = vec![pick("tmdb:1", "Other"), pick("", "the matrix"), pick("tmdb:603", "x")];
    assert_eq!(matching_pick(&c, &picks), Some(1));
    let picks = vec![pick("tmdb:1", "Other"), pick("tmdb:603", "x")];
    assert_eq!(matching_pick(&c, &picks), Some(1));
    let untracked = view(None, "Heat");
    assert_eq!(matching_pick(&untracked, &[pick("tmdb:603", "x")]), None);
}

#[test]
fn origin_and_assessment_follow_tmdb_ids() {
    let c = view(Some(7), "Seven");
    assert_eq!(pick_origin(&c, &[scored(Some(7), "elsewhere")]), "discovery");
    assert_eq!(pick_origin(&c, &[scored(Some(8), "Seven")]), "shortlist");
    assert_eq!(pick_origin(&view(None, "x"), &[scored(None, "x")]), "shortlist");
    let critic = CriticReport {
        candidate_assessments: vec![
            CandidateAssessment {
                id: "tmdb:70".into(),
                fit: "weak".into(),
                reason: String::new(),
                concerns: vec![],
            },
            CandidateAssessment {
                id: "tmdb:7".into(),
                fit: "strong".into(),
                reason: String::new(),
                concerns: vec![],
            },
        ],
        taste_gaps: vec![],
        discovery_queries: vec![],
    };
    assert_eq!(matching_assessment(&c, &critic), Some(1));
    assert_eq!(matching_assessment(&view(None, "Seven"), &critic), None);
}

#[test]
fn pick_reasons_fall_back_to_scoring_reasons() {
    let mut s = scored(Some(1), "x");
    assert_eq!(pick_reasons(&s), vec!["because A".to_string(), "B".to_string()]);
    s.display_reasons = vec!["Shown".into()];
    assert_eq!(pick_reasons(&s), vec!["Shown".to_string()]);
}

#[test]
fn a_pick_carries_its_row_and_the_reasoner_mode() {
    let s = scored(Some(603), "The Matrix");
    let mut rp = pick("tmdb:603", "The Matrix");
    rp.mode = "deep cut".into();
    let p = taste::report::taste_pick(
        &s,
        Some(&rp),
        Some("/m.jpg".into()),
        Some("film-1".into()),
        "shortlist",
        vec!["Heat".into()],
        vec![],
        60,
    );
    assert_eq!(p.title, "The Matrix");
    assert_eq!(p.tmdb_id, Some(603));
    assert_eq!(p.source, "shortlist");
    assert_eq!(p.mode.as_deref(), Some("deep cut"));
    assert_eq!(p.reasons, vec!["because A".to_string(), "B".to_string()]);
    assert_eq!(p.rhymes_with, vec!["Heat".to_string()]);
    assert_eq!(p.origin.as_deref(), Some("unknown"));
    assert_eq!(p.origin_label, None);
    assert_eq!(p.origin_display, None);
    assert_eq!(p.why, "");
    assert!(p.match_score <= 100);
    assert_eq!(p.semantic_fit, 500);
    let bare = taste::report::taste_pick(&s, None, None, None, "discovery", vec![], vec![], 60);
    assert_eq!(bare.mode, None);
    assert_eq!(bare.source, "discovery");
}

#[test]
fn a_trace_records_mode_and_critic_view() {
    let s = scored(Some(603), "The Matrix");
    let mut rp = pick("tmdb:603", "The Matrix");
    rp.mode = "Deep-Cut".into();
    let a = CandidateAssessment {
        id: "tmdb:603".into(),
        fit: "strong".into(),
        reason: "r".into(),
        concerns: vec!["long".into()],
    };
    let t = taste::report::provenance_trace(&s, Some(&rp), "shortlist", Some(&a));
    assert_eq!(t.llm_mode, taste::provenance::RecommendationMode::DeepCut);
    assert_eq!(t.call1_fit.as_deref(), Some("strong"));
    assert_eq!(t.call1_concerns, vec!["long".to_string()]);
    assert_eq!(t.origin, taste::provenance::RecommendationOrigin::Shortlist);
    let t = taste::report::provenance_trace(&s, None, "discovery", None);
    assert_eq!(t.llm_mode, taste::provenance::RecommendationMode::Discovery);
    assert_eq!(t.call1_fit, None);
    assert!(t.call1_concerns.is_empty());
}
