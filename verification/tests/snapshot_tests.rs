use taste::features::{EvidenceCluster, FeatureAffinity, FeatureFamily, FeatureKey, FeatureProfile};
use taste::retrieve::FilmRecord;
use taste::snapshot::snapshot_of;

fn rated(title: &str, rating: Option<i32>) -> FilmRecord {
    FilmRecord {
        key: title.into(),
        title: title.into(),
        year: None,
        tmdb_id: None,
        rating,
        liked: false,
        watched: true,
        watchlist: false,
        viewings: 1,
        last_date: None,
        genres: vec![],
        credits: vec![],
        keywords: vec![],
        recommendations: vec![],
        similar: vec![],
        runtime: None,
        poster: None,
        vote_count: None,
        review: None,
        signal: None,
        age_years: None,
    }
}

fn affinity(family: FeatureFamily, name: &str, mean: i32, portability: i32) -> FeatureAffinity {
    FeatureAffinity {
        key: FeatureKey::new(family, None, name),
        appearances: 3,
        weighted_mean: mean,
        preference_mean: mean,
        recommendation_mean: mean,
        weighted_variance: 0,
        positive_weight: 0,
        negative_weight: 0,
        recent_weight: 0,
        long_term_weight: 0,
        confidence: 500,
        feature_strength: 0,
        portability,
        positive_evidence: vec![],
        negative_evidence: vec![],
        evidence_cluster: EvidenceCluster { genres: vec![], modes: vec![], keywords: vec![] },
    }
}

#[test]
fn counts_and_mean_rating() {
    let films = vec![
        rated("a", Some(5000)),
        rated("b", Some(4500)),
        rated("c", Some(2500)),
        rated("d", None),
        rated("e", Some(3000)),
    ];
    let s = snapshot_of(&films, None);
    assert_eq!(s.rated_count, 4);
    assert_eq!(s.loved_count, 2);
    assert_eq!(s.hated_count, 1);
    // (5 + 4.5 + 2.5 + 3) / 4 = 3.75.
    assert_eq!(s.avg_rating, Some(3750));
    assert!(s.genres.is_empty() && s.directors.is_empty());
}

#[test]
fn mean_rating_rounds_to_hundredths() {
    let films = vec![rated("a", Some(4000)), rated("b", Some(3500)), rated("c", Some(3500))];
    // 11 / 3 = 3.666… → 3.67.
    assert_eq!(snapshot_of(&films, None).avg_rating, Some(3670));
    assert_eq!(snapshot_of(&[rated("x", None)], None).avg_rating, None);
}

#[test]
fn stats_list_family_features_in_profile_order() {
    let profile = FeatureProfile {
        affinities: vec![
            affinity(FeatureFamily::Genre, "Drama", 634, 1000),
            affinity(FeatureFamily::Decade, "1990s", 500, 399),
            affinity(FeatureFamily::Director, "Varda", -455, 1000),
            affinity(FeatureFamily::Decade, "2000s", 500, 400),
            affinity(FeatureFamily::Genre, "Comedy", 300, 1000),
        ],
        polarizing: vec![],
        shifts: vec![],
        dimensions: vec![],
        modes: vec![],
        mode_shifts: vec![],
    };
    let s = snapshot_of(&[], Some(&profile));
    assert_eq!(s.rated_count, 0);
    let genres: Vec<&str> = s.genres.iter().map(|g| g.label.as_str()).collect();
    assert_eq!(genres, vec!["Drama", "Comedy"]);
    assert_eq!(s.genres[0].avg, 630);
    assert_eq!(s.genres[0].count, 3);
    // 634 × 500 × 350 × 1000 / 10⁹ = 110.95 → 110 → 110.
    assert_eq!(s.genres[0].affinity, Some(110));
    // Only the portable decade is listed.
    let decades: Vec<&str> = s.decades.iter().map(|g| g.label.as_str()).collect();
    assert_eq!(decades, vec!["2000s"]);
    // Rounding is half away from zero: -455 → -460.
    assert_eq!(s.directors[0].avg, -460);
    assert!(s.actors.is_empty());
}

#[test]
fn at_most_sixteen_per_family() {
    let affinities: Vec<FeatureAffinity> = (0..20)
        .map(|i| affinity(FeatureFamily::Actor, &format!("actor {i}"), 100, 1000))
        .collect();
    let profile = FeatureProfile {
        affinities,
        polarizing: vec![],
        shifts: vec![],
        dimensions: vec![],
        modes: vec![],
        mode_shifts: vec![],
    };
    let s = snapshot_of(&[], Some(&profile));
    assert_eq!(s.actors.len(), 16);
    assert_eq!(s.actors[15].label, "actor 15");
}
