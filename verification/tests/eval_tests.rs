use std::collections::HashSet;
use taste::dimensions::{film_in_dimension, predicted_modes, ExperienceDimension};
use taste::discover::{keeps_discovery, matches_sparse_facet, parse_search_titles};
use taste::eval::{board_quality_at, ids_of, source_mix, Workspace};
use taste::explain::{EligibilityTrace, EvidenceGrade};
use taste::features::{Credit, FeatureAffinity, Keyword};
use taste::feedback::{content_key, hide_ids, prepare_feedback, validate_action, TasteFeedback};
use taste::provenance::{origin_from_sources, RecommendationMode, RecommendationOrigin};
use taste::reason::empty_critic;
use taste::retrieve::{MediaKind, RetrievalKind, RetrievalSource};
use taste::score::{CandidateScore, CandidateView, ScoredCandidate};

fn src(kind: RetrievalKind) -> RetrievalSource {
    RetrievalSource { kind, label: "x".into(), seed_tmdb_id: None, seed_rating: None }
}

fn scored(id: Option<i64>, watchlist: bool, sources: Vec<RetrievalSource>) -> ScoredCandidate {
    ScoredCandidate {
        candidate: CandidateView {
            tmdb_id: id,
            title: "Film".into(),
            year: Some(2000),
            poster: None,
            watchlist,
            sources,
            directors: vec!["Nolan".into()],
            genres: vec!["Drama".into()],
            modes: vec![],
            media_kind: MediaKind::Movie,
            runtime: Some(110),
            vote_count: Some(400),
        },
        score: CandidateScore {
            content: 0,
            tmdb_related: 0,
            friend_affinity: 0,
            recent_taste: 0,
            watchlist: 0,
            novelty: 0,
            negative_evidence: 0,
            semantic_fit: 0,
            semantic_coverage: false,
            total: 50,
        },
        reasons: vec![],
        evidence: vec![],
        positive_features: vec![],
        negative_features: vec![],
        contextual_only: false,
        person_keys: vec![],
        display_reasons: vec![],
        scoring_reasons: vec![],
        matched_features: vec![],
        hidden_features: vec![],
        eligibility: EligibilityTrace {
            portable_evidence_required: false,
            passed: true,
            passed_because: vec![],
            candidate_fit: 1000,
            evidence_grade: EvidenceGrade::Medium,
        },
    }
}

#[test]
fn ids_of_skips_rows_without_tmdb_id() {
    let rows = vec![scored(Some(4), false, vec![]), scored(None, false, vec![]), scored(Some(-2), false, vec![])];
    assert_eq!(ids_of(&rows), vec!["tmdb:4".to_string(), "tmdb:-2".into()]);
    assert!(ids_of(&[]).is_empty());
}

#[test]
fn source_mix_counts_each_kind() {
    let rows = vec![
        scored(Some(1), false, vec![src(RetrievalKind::RelatedRecommendations), src(RetrievalKind::Friend)]),
        scored(Some(2), false, vec![src(RetrievalKind::Filmography)]),
        scored(Some(3), true, vec![src(RetrievalKind::Filmography)]),
        scored(Some(4), false, vec![src(RetrievalKind::RelatedSimilar), src(RetrievalKind::Related)]),
    ];
    let m = source_mix(&rows);
    assert_eq!(m.related_recommendations, 1);
    assert_eq!(m.related_similar, 1);
    assert_eq!(m.related_legacy, 1);
    assert_eq!(m.filmography_only, 1);
    assert_eq!(m.watchlist, 1);
    assert_eq!(m.friend, 1);
    assert_eq!(source_mix(&[]).filmography_only, 0);
}

#[test]
fn board_quality_counts_leaks_and_overlap() {
    let ws = Workspace {
        new_picks: vec![scored(Some(1), false, vec![src(RetrievalKind::Related)]), scored(Some(2), true, vec![])],
        explore_picks: vec![scored(Some(1), false, vec![src(RetrievalKind::Friend)])],
        watchlist_picks: vec![scored(Some(3), true, vec![]), scored(None, true, vec![])],
    };
    let seen: HashSet<i64> = [3].into_iter().collect();
    let q = board_quality_at(&ws, &seen, 2026, &[40, 95], &[75]);
    assert_eq!(q.new_count, 2);
    assert_eq!(q.explore_count, 1);
    assert_eq!(q.watchlist_count, 2);
    assert_eq!(q.new_related_only, 1);
    assert_eq!(q.seen_leakage, 1);
    assert_eq!(q.board_overlap, 1);
    assert_eq!(q.watchlist_on_discovery_boards, 1);
    assert_eq!(q.new_below_floor, 1);
}

#[test]
fn dimensions_and_modes() {
    let genres = vec!["Drama".to_string(), "Thriller".to_string()];
    let credits = vec![Credit { id: Some(1), name: "Deakins".into(), job: "Director of Photography".into() }];
    let keywords = vec![Keyword { id: None, name: "Neo-Noir".into() }];
    assert!(film_in_dimension(ExperienceDimension::Visual, &genres, &credits, &[], 0));
    assert!(film_in_dimension(ExperienceDimension::Atmosphere, &[], &[], &keywords, 0));
    assert!(!film_in_dimension(ExperienceDimension::Comfort, &genres, &credits, &keywords, 599));
    assert!(film_in_dimension(ExperienceDimension::Comfort, &[], &[], &[], 600));
    assert_eq!(
        predicted_modes(&genres, &credits, &keywords),
        vec!["visual".to_string(), "story".into(), "intensity".into(), "atmosphere".into()]
    );
    assert_eq!(ExperienceDimension::all().len(), 7);
    assert_eq!(ExperienceDimension::Comfort.as_str(), "comfort");
}

#[test]
fn feedback_rules() {
    assert_eq!(content_key(42), "movie:tmdb:42");
    assert!(validate_action("seen").is_ok());
    assert_eq!(validate_action("meh").unwrap_err(), "unknown feedback action: meh");
    assert!(prepare_feedback("rejected", None).is_ok());
    let row = |id: i64, action: &str| TasteFeedback {
        content_key: content_key(id),
        tmdb_id: id,
        media_kind: "movie".into(),
        action: action.into(),
        reason: None,
        created_at: String::new(),
        updated_at: String::new(),
    };
    let hidden = hide_ids(&[row(1, "rejected"), row(2, "interested"), row(3, "seen")]);
    assert!(hidden.contains(&1) && hidden.contains(&3) && !hidden.contains(&2));
}

#[test]
fn provenance_and_modes() {
    assert_eq!(RecommendationMode::parse("Deep Cut"), RecommendationMode::DeepCut);
    assert_eq!(RecommendationMode::parse("whatever"), RecommendationMode::Core);
    assert_eq!(origin_from_sources(&[src(RetrievalKind::Discovery)]), RecommendationOrigin::Discovery);
    assert_eq!(origin_from_sources(&[src(RetrievalKind::Related)]), RecommendationOrigin::Shortlist);
    assert!(empty_critic().taste_gaps.is_empty());
}

#[test]
fn discovery_titles_and_keeping() {
    let entries = vec![
        ("  Zodiac ".to_string(), Some(2007i64)),
        ("   ".to_string(), None),
        ("The Insider".to_string(), None),
    ];
    let t = parse_search_titles(&entries);
    assert_eq!(t, vec![("Zodiac".to_string(), Some(2007)), ("The Insider".to_string(), None)]);
    let many: Vec<(String, Option<i64>)> = (0..12).map(|i| (format!("T{i}"), None)).collect();
    assert_eq!(parse_search_titles(&many).len(), 8);
    let c = scored(Some(1), false, vec![src(RetrievalKind::Discovery)]);
    let none: Vec<FeatureAffinity> = vec![];
    assert!(!matches_sparse_facet(&none, &c));
    assert!(!keeps_discovery(&none, &c));
}

#[test]
fn rejects_unknown_action() {
    assert!(prepare_feedback("love", None).is_err());
}

#[test]
fn hide_ids_are_rejected_and_seen_only() {
    let row = |id: i64, action: &str| TasteFeedback {
        content_key: content_key(id),
        tmdb_id: id,
        media_kind: "movie".into(),
        action: action.into(),
        reason: None,
        created_at: String::new(),
        updated_at: String::new(),
    };
    let hide = hide_ids(&[row(1, "interested"), row(2, "rejected"), row(3, "seen")]);
    assert!(!hide.contains(&1));
    assert!(hide.contains(&2));
    assert!(hide.contains(&3));
}
