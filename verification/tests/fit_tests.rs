use taste::explain::{EligibilityTrace, EvidenceGrade, MatchedFeatureView};
use taste::fit::{candidate_from_detail, fit_at, fit_gate, fit_without_profile, DetailPerson, FilmTasteFit};
use taste::picks::cited_features;
use taste::retrieve::MediaKind;
use taste::score::{CandidateScore, CandidateView, ScoredCandidate};

fn scored(grade: EvidenceGrade) -> ScoredCandidate {
    ScoredCandidate {
        candidate: CandidateView {
            tmdb_id: Some(1),
            title: "F".into(),
            year: Some(2000),
            poster: None,
            watchlist: false,
            sources: vec![],
            directors: vec![],
            genres: vec![],
            modes: vec![],
            media_kind: MediaKind::Movie,
            runtime: None,
            vote_count: None,
        },
        score: CandidateScore {
            content: 0,
            tmdb_related: 0,
            friend_affinity: 0,
            recent_taste: 0,
            watchlist: 0,
            novelty: 0,
            negative_evidence: 0,
            semantic_fit: 640,
            semantic_coverage: true,
            total: 0,
        },
        reasons: vec![],
        evidence: (0..8).map(|i| format!("e{i}")).collect(),
        positive_features: vec![],
        negative_features: vec!["n1".into(), "n2".into(), "n3".into(), "n4".into()],
        contextual_only: false,
        person_keys: vec![],
        display_reasons: vec!["r1".into(), "r2".into()],
        scoring_reasons: vec![],
        matched_features: vec![],
        hidden_features: vec![],
        eligibility: EligibilityTrace {
            portable_evidence_required: false,
            passed: true,
            passed_because: vec![],
            candidate_fit: 1000,
            evidence_grade: grade,
        },
    }
}

#[test]
fn gates_before_scoring() {
    let f: FilmTasteFit = fit_gate(7, true, true).unwrap();
    assert!(!f.available);
    assert_eq!(f.band, "notEnoughEvidence");
    assert_eq!(f.unavailable_reason.as_deref(), Some("Rate at least 8 films to see a Taste fit."));
    assert!(f.watched);
    let f = fit_gate(8, false, false).unwrap();
    assert_eq!(
        f.unavailable_reason.as_deref(),
        Some("This film needs TMDB details before Studio can compare it to your taste.")
    );
    assert!(fit_gate(8, true, false).is_none());
    assert_eq!(fit_without_profile(false).semantic_fit, 500);
}

#[test]
fn bands_and_lists() {
    let s = scored(EvidenceGrade::Medium);
    let f = fit_at(&s, 70, false);
    assert_eq!((f.available, f.score, f.band.as_str()), (true, Some(70), "strong"));
    assert_eq!(f.evidence_grade, "medium");
    assert_eq!(f.supporting_signals, vec!["r1", "r2"]);
    assert_eq!(f.counter_signals, vec!["n1", "n2", "n3"]);
    assert_eq!(f.evidence_titles.len(), 6);
    assert_eq!(f.semantic_fit, 640);
    assert!(f.unavailable_reason.is_none());
    assert_eq!(fit_at(&s, 55, false).band, "mixed");
    assert_eq!(fit_at(&s, 54, false).band, "weak");
    let f = fit_at(&scored(EvidenceGrade::Ungraded), 90, true);
    assert_eq!((f.available, f.score, f.band.as_str()), (false, None, "notEnoughEvidence"));
    assert_eq!(f.evidence_grade, "none");
}

fn feature(name: &str, cited: bool, mean: i32) -> MatchedFeatureView {
    MatchedFeatureView {
        feature_key: String::new(),
        name: name.into(),
        family: "director".into(),
        appearances: 3,
        recommendation_mean: mean,
        scoring_affinity: mean,
        confidence: 500,
        portability: 1000,
        citeable: true,
        cited,
    }
}

#[test]
fn attribution_features() {
    let mut s = scored(EvidenceGrade::Strong);
    s.matched_features = vec![feature("A", true, 300), feature("B", false, 300), feature("C", true, -10)];
    s.hidden_features = vec![feature("N1", false, -300), feature("Z", false, -300)];
    let (pos, neg) = cited_features(&s);
    assert_eq!(pos.iter().map(|f| f.name.as_str()).collect::<Vec<_>>(), vec!["A"]);
    assert_eq!(neg.iter().map(|f| f.name.as_str()).collect::<Vec<_>>(), vec!["N1"]);
}

#[test]
fn detail_becomes_a_candidate_with_sixteen_actors() {
    let person = |n: usize, job: &str| DetailPerson { tmdb_id: Some(n as i64), name: format!("P{n}"), job: job.to_string() };
    let crew = vec![person(1, "Director"), person(2, "Screenplay")];
    let cast: Vec<DetailPerson> = (10..30).map(|n| person(n, "Neo")).collect();
    let c = candidate_from_detail(
        Some(603),
        "The Matrix".to_string(),
        Some(1999),
        None,
        vec!["Action".to_string()],
        &crew,
        &cast,
        &["simulation".to_string()],
        Some(136),
        Some(25000),
    );
    assert_eq!(c.credits.len(), 18);
    assert_eq!(c.credits[1].job, "Screenplay");
    assert_eq!(c.credits[2].name, "P10");
    assert_eq!(c.credits[2].job, "Actor");
    assert_eq!(c.credits[17].name, "P25");
    assert_eq!(c.keywords[0].name, "simulation");
    assert_eq!(c.keywords[0].id, None);
    assert_eq!(c.vote_count, Some(25000));
    assert!(!c.watchlist && c.sources.is_empty());
}
