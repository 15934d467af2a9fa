use taste::explain::{EligibilityTrace, EvidenceGrade, MatchedFeatureView};
use taste::features::{EvidenceCluster, FeatureAffinity, FeatureFamily, FeatureKey, FeatureProfile};
use taste::reason::{CandidateAssessment, CriticReport};
use taste::retrieve::{FilmRecord, MediaKind};
use taste::sampling::{
    affinity_selection, candidate_id, contextual_selection, critic_verdict, evidence_limited,
    history_sample,
};
use taste::score::{CandidateScore, CandidateView, ScoredCandidate};

fn film(title: &str, tmdb_id: Option<i64>, rating: Option<i32>) -> FilmRecord {
    FilmRecord {
        key: title.into(),
        title: title.into(),
        year: None,
        tmdb_id,
        rating,
        liked: false,
        watched: true,
        watchlist: false,
        viewings: 1,
        last_date: None,
        genres: vec![],
        credits: vec![],
        keywords: vec![],
        recommendations: vec![],
        similar: vec![],
        runtime: None,
        poster: None,
        vote_count: None,
        review: None,
        signal: None,
        age_years: None,
    }
}

#[test]
fn history_sample_bands_in_history_order() {
    let films = vec![
        film("b-fav", Some(2), Some(5000)),
        film("unrated", Some(9), None),
        film("a-fav", Some(1), Some(5000)),
        film("liked", Some(3), Some(4000)),
        film("mixed", Some(4), Some(3000)),
        film("edge-mixed", Some(5), Some(2600)),
        film("hated", Some(6), Some(1000)),
        film("meh-hated", Some(7), Some(2500)),
        film("no-id-fav", None, Some(4500)),
        film("almost-fav", Some(8), Some(4499)),
    ];
    let s = history_sample(&films);
    // Same rating: missing id first, then by id.
    assert_eq!(s.favorites, vec![2, 0, 8]);
    assert_eq!(s.liked, vec![9, 3]);
    assert_eq!(s.mixed, vec![4, 5]);
    // Disliked come lowest first.
    assert_eq!(s.disliked, vec![6, 7]);
}

#[test]
fn history_sample_caps_each_band() {
    let films: Vec<FilmRecord> = (0..15).map(|i| film(&format!("f{i:02}"), Some(i), Some(5000))).collect();
    let s = history_sample(&films);
    assert_eq!(s.favorites, (0..10).collect::<Vec<usize>>());
    assert!(s.liked.is_empty() && s.mixed.is_empty() && s.disliked.is_empty());
}

#[test]
fn equal_ratings_and_ids_go_by_title() {
    let films = vec![film("Zed", None, Some(4000)), film("Alpha", None, Some(4000))];
    assert_eq!(history_sample(&films).liked, vec![1, 0]);
}

fn affinity(family: FeatureFamily, name: &str, appearances: u32, rec: i32, pref: i32, pos: i32, neg: i32) -> FeatureAffinity {
    FeatureAffinity {
        key: FeatureKey::new(family, None, name),
        appearances,
        weighted_mean: pref,
        preference_mean: pref,
        recommendation_mean: rec,
        weighted_variance: 0,
        positive_weight: pos,
        negative_weight: neg,
        recent_weight: 0,
        long_term_weight: 0,
        confidence: 500,
        feature_strength: 0,
        portability: 1000,
        positive_evidence: vec![],
        negative_evidence: vec![],
        evidence_cluster: EvidenceCluster { genres: vec![], modes: vec![], keywords: vec![] },
    }
}

#[test]
fn affinities_aversions_and_context_shown() {
    let profile = FeatureProfile {
        affinities: vec![
            affinity(FeatureFamily::Genre, "Drama", 5, 300, 300, 900, 100),
            affinity(FeatureFamily::Genre, "Western", 5, 80, 80, 100, 50),
            affinity(FeatureFamily::Director, "One-Off", 1, 900, 900, 900, 0),
            affinity(FeatureFamily::Genre, "Horror", 5, -400, -400, 0, 700),
            affinity(FeatureFamily::Genre, "Musical", 5, 50, -50, 100, 200),
            affinity(FeatureFamily::Decade, "1990s", 9, 500, 500, 900, 0),
        ],
        polarizing: vec![],
        shifts: vec![],
        dimensions: vec![],
        modes: vec![],
        mode_shifts: vec![],
    };
    assert_eq!(affinity_selection(&profile, true), vec![0]);
    assert_eq!(affinity_selection(&profile, false), vec![3, 4]);
    assert_eq!(contextual_selection(&profile), vec![5]);
}

#[test]
fn aversions_keep_eight() {
    let affinities: Vec<FeatureAffinity> = (0..11)
        .map(|i| affinity(FeatureFamily::Genre, &format!("g{i}"), 5, -500, -500, 0, 500))
        .collect();
    let profile = FeatureProfile {
        affinities,
        polarizing: vec![],
        shifts: vec![],
        dimensions: vec![],
        modes: vec![],
        mode_shifts: vec![],
    };
    assert_eq!(affinity_selection(&profile, false).len(), 8);
}

fn scored(tmdb_id: Option<i64>, title: &str) -> ScoredCandidate {
    ScoredCandidate {
        candidate: CandidateView {
            tmdb_id,
            title: title.into(),
            year: None,
            poster: None,
            watchlist: false,
            sources: vec![],
            directors: vec![],
            genres: vec![],
            modes: vec![],
            media_kind: MediaKind::Movie,
            runtime: None,
            vote_count: None,
        },
        score: CandidateScore {
            content: 0,
            tmdb_related: 0,
            friend_affinity: 0,
            recent_taste: 0,
            watchlist: 0,
            novelty: 0,
            negative_evidence: 0,
            semantic_fit: 500,
            semantic_coverage: false,
            total: 0,
        },
        reasons: vec![],
        evidence: vec![],
        positive_features: vec![],
        negative_features: vec![],
        contextual_only: false,
        person_keys: vec![],
        display_reasons: vec![],
        scoring_reasons: vec![],
        matched_features: vec![],
        hidden_features: vec![],
        eligibility: EligibilityTrace {
            portable_evidence_required: false,
            passed: true,
            passed_because: vec![],
            candidate_fit: 1000,
            evidence_grade: EvidenceGrade::Medium,
        },
    }
}

fn verdict(id: &str) -> CandidateAssessment {
    CandidateAssessment { id: id.into(), fit: "strong".into(), reason: String::new(), concerns: vec![] }
}

#[test]
fn candidates_are_referred_to_by_id_or_title() {
    assert_eq!(candidate_id(&scored(Some(42), "Heat").candidate), "tmdb:42");
    assert_eq!(candidate_id(&scored(None, "Heat").candidate), "Heat");
    let critic = CriticReport {
        candidate_assessments: vec![verdict("tmdb:7"), verdict("HEAT"), verdict("tmdb:42")],
        taste_gaps: vec![],
        discovery_queries: vec![],
    };
    assert_eq!(critic_verdict(&scored(Some(42), "Heat").candidate, &critic), Some(1));
    assert_eq!(critic_verdict(&scored(Some(42), "Ronin").candidate, &critic), Some(2));
    assert_eq!(critic_verdict(&scored(None, "Ronin").candidate, &critic), None);
}

#[test]
fn limited_evidence_flag() {
    let mut s = scored(Some(1), "X");
    assert!(!evidence_limited(&s));
    s.matched_features.push(MatchedFeatureView {
        feature_key: String::new(),
        name: "Someone".into(),
        family: "director".into(),
        appearances: 2,
        recommendation_mean: 0,
        scoring_affinity: 0,
        confidence: 0,
        portability: 0,
        citeable: true,
        cited: false,
    });
    assert!(!evidence_limited(&s));
    s.matched_features[0].cited = true;
    assert!(evidence_limited(&s));
    let mut t = scored(Some(1), "X");
    t.display_reasons.push("Director match (limited evidence)".into());
    assert!(evidence_limited(&t));
}
