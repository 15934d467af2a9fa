use taste::assemble::{
    assemble_profile, evidence_lists, group_indices, polarizing_features, recent_shifts,
    sort_affinities,
};
use taste::features::{EvidenceCluster, EvidenceFilm, FeatureAffinity, FeatureFamily, FeatureKey};
use taste::profile::FeatureObservation;

fn film(title: &str, tmdb: i64) -> EvidenceFilm {
    EvidenceFilm {
        title: title.to_string(),
        rating: 8,
        tmdb_id: Some(tmdb),
        people: vec![],
        keywords: vec![],
        genres: vec![],
        year: Some(2000),
        runtime: None,
    }
}

fn obs(name: &str, title: &str, tmdb: i64, positive: i32, negative: i32, age: Option<u32>) -> FeatureObservation {
    FeatureObservation {
        key: FeatureKey::new(FeatureFamily::Genre, None, name),
        affinity_preference: 500,
        preference_weight: 1000,
        recommendation_weight: 1000,
        discovery_strength: 1000,
        age_years: age,
        evidence: film(title, tmdb),
        positive,
        negative,
        genres: vec![name.to_string()],
    }
}

fn affinity(family: FeatureFamily, name: &str, mean: i32) -> FeatureAffinity {
    FeatureAffinity {
        key: FeatureKey::new(family, None, name),
        appearances: 4,
        weighted_mean: mean,
        preference_mean: mean,
        recommendation_mean: mean,
        weighted_variance: 0,
        positive_weight: 0,
        negative_weight: 0,
        recent_weight: 0,
        long_term_weight: 0,
        confidence: 1000,
        feature_strength: 0,
        portability: 1000,
        positive_evidence: vec![],
        negative_evidence: vec![],
        evidence_cluster: EvidenceCluster { genres: vec![], modes: vec![], keywords: vec![] },
    }
}

#[test]
fn evidence_keeps_first_film_per_side_up_to_six() {
    let mut group = vec![
        obs("Drama", "A", 1, 800, 0, None),
        obs("Drama", "A again", 1, 900, 0, None),
        obs("Drama", "B", 2, 0, 700, None),
        obs("Drama", "B", 2, 0, 600, None),
    ];
    for i in 3..10 {
        group.push(obs("Drama", "More", i, 500, 0, None));
    }
    let (pos, neg) = evidence_lists(&group);
    assert_eq!(pos.len(), 6);
    assert_eq!(pos[0].title, "A");
    assert_eq!(pos[1].tmdb_id, Some(3));
    assert_eq!(neg.len(), 1);
    assert_eq!(neg[0].title, "B");
}

#[test]
fn groups_follow_first_appearance() {
    let all = vec![
        obs("Drama", "A", 1, 1, 0, None),
        obs("Crime", "B", 2, 1, 0, None),
        obs("drama", "C", 3, 1, 0, None),
        obs("Crime", "D", 4, 1, 0, None),
    ];
    let g = group_indices(&all);
    assert_eq!(g, vec![vec![0, 2], vec![1, 3]]);
}

#[test]
fn affinities_sort_by_score_then_family_then_name() {
    let mut v = vec![
        affinity(FeatureFamily::Genre, "Crime", 300),
        affinity(FeatureFamily::Genre, "Drama", 900),
        affinity(FeatureFamily::Genre, "Action", 300),
        affinity(FeatureFamily::Director, "Zed", 300),
    ];
    sort_affinities(&mut v);
    let names: Vec<&str> = v.iter().map(|a| a.key.name.as_str()).collect();
    assert_eq!(names, vec!["Drama", "Zed", "Action", "Crime"]);
}

#[test]
fn polarizing_needs_variance_and_both_sides_and_stops_at_twelve() {
    let mut v = Vec::new();
    for i in 0..15 {
        let mut a = affinity(FeatureFamily::Genre, &format!("g{i}"), 100);
        a.weighted_variance = if i == 0 { 119 } else { 200 };
        a.positive_evidence = vec![film("P", 1)];
        a.negative_evidence = if i == 1 { vec![] } else { vec![film("N", 2)] };
        v.push(a);
    }
    let p = polarizing_features(&v);
    assert_eq!(p.len(), 12);
    assert_eq!(p[0].feature, "g2");
    assert_eq!(p[11].feature, "g13");
    assert_eq!(p[0].variance, 200);
}

fn shifting_obs() -> Vec<FeatureObservation> {
    let mut all = Vec::new();
    for i in 0..8 {
        all.push(obs("Horror", "Recent", 100 + i, 800, 0, Some(500)));
    }
    for i in 0..20 {
        all.push(obs("Drama", "Old", 200 + i, 800, 0, Some(5000)));
    }
    all
}

#[test]
fn recent_shift_needs_the_window_confidence_and_change() {
    let mut horror = affinity(FeatureFamily::Genre, "Horror", 500);
    horror.recent_weight = 800;
    horror.long_term_weight = 100;
    let mut small = affinity(FeatureFamily::Genre, "Drama", 500);
    small.recent_weight = 300;
    small.long_term_weight = 100;
    let all = shifting_obs();
    let s = recent_shifts(&[horror.clone(), small.clone()], &all);
    assert_eq!(s.len(), 1);
    assert_eq!(s[0].feature, "Horror");
    assert_eq!(s[0].delta, 700);
    assert_eq!(s[0].recent_evidence.len(), 6);
    let mut unsure = horror.clone();
    unsure.confidence = 399;
    assert!(recent_shifts(&[unsure], &all).is_empty());
    // Too few older observations: no shifts at all.
    assert!(recent_shifts(&[horror], &all[..20]).is_empty());
}

#[test]
fn assembled_profile_orders_and_leaves_dimensions_empty() {
    let mut horror = affinity(FeatureFamily::Genre, "Horror", 100);
    horror.recent_weight = -300;
    horror.long_term_weight = 400;
    let drama = affinity(FeatureFamily::Genre, "Drama", 900);
    let p = assemble_profile(vec![horror, drama], &shifting_obs());
    assert_eq!(p.affinities[0].key.name, "Drama");
    assert_eq!(p.shifts.len(), 1);
    assert_eq!(p.shifts[0].delta, -700);
    assert!(p.polarizing.is_empty());
    assert!(p.dimensions.is_empty() && p.modes.is_empty() && p.mode_shifts.is_empty());
}
