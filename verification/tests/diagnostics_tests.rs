use taste::diagnostics::{append_unique, evidence_domain, positive_combinations};
use taste::features::{
    EvidenceCluster, FeatureAffinity, FeatureFamily, FeatureKey, FeatureProfile,
};
use taste::retrieve::{FilmRecord, FilmSignal};

fn film(title: &str, rating: i32, liked: bool) -> FilmRecord {
    FilmRecord {
        key: title.into(),
        title: title.into(),
        year: Some(2000),
        tmdb_id: None,
        rating: Some(rating),
        liked,
        watched: true,
        watchlist: false,
        viewings: 1,
        last_date: None,
        genres: vec![],
        credits: vec![],
        keywords: vec![],
        recommendations: vec![],
        similar: vec![],
        runtime: None,
        poster: None,
        vote_count: None,
        review: None,
        signal: Some(FilmSignal {
            absolute: 500,
            affinity_preference: if liked { 600 } else { -200 },
            familiarity_strength: 0,
            recommendation_weight: 1000,
        }),
        age_years: None,
    }
}

fn affinity(family: FeatureFamily, id: i64, name: &str, mean: i32) -> FeatureAffinity {
    FeatureAffinity {
        key: FeatureKey::new(family, Some(id), name),
        appearances: 4,
        weighted_mean: mean,
        preference_mean: mean,
        recommendation_mean: mean,
        weighted_variance: 0,
        positive_weight: 900,
        negative_weight: 0,
        recent_weight: 0,
        long_term_weight: 0,
        confidence: 700,
        feature_strength: 400,
        portability: 1000,
        positive_evidence: vec![],
        negative_evidence: vec![],
        evidence_cluster: EvidenceCluster {
            genres: vec![],
            modes: vec![],
            keywords: vec![],
        },
    }
}

fn profile(affinities: Vec<FeatureAffinity>) -> FeatureProfile {
    FeatureProfile {
        affinities,
        polarizing: vec![],
        shifts: vec![],
        dimensions: vec![],
        modes: vec![],
        mode_shifts: vec![],
    }
}

#[test]
fn domains_group_families() {
    assert_eq!(evidence_domain(FeatureFamily::Director), "authorial");
    assert_eq!(evidence_domain(FeatureFamily::Writer), "authorial");
    assert_eq!(evidence_domain(FeatureFamily::Cinematographer), "visual");
    assert_eq!(evidence_domain(FeatureFamily::Composer), "sound");
    assert_eq!(evidence_domain(FeatureFamily::Actor), "performance");
    assert_eq!(evidence_domain(FeatureFamily::Keyword), "narrative");
    assert_eq!(evidence_domain(FeatureFamily::Decade), "contextual");
}

#[test]
fn append_unique_keeps_first_occurrences() {
    let mut target = vec!["a".to_string(), "b".to_string()];
    append_unique(&mut target, vec!["b".into(), "c".into(), "c".into(), "a".into(), "d".into()]);
    assert_eq!(target, vec!["a", "b", "c", "d"]);
}

#[test]
fn pairs_need_three_liked_films_and_cited_features() {
    let villeneuve = FeatureKey::new(FeatureFamily::Director, Some(1), "Denis Villeneuve");
    let deakins = FeatureKey::new(FeatureFamily::Cinematographer, Some(2), "Roger Deakins");
    let zimmer = FeatureKey::new(FeatureFamily::Composer, Some(3), "Hans Zimmer");
    let disliked = FeatureKey::new(FeatureFamily::Actor, Some(4), "Someone");
    let p = profile(vec![
        affinity(FeatureFamily::Director, 1, "Denis Villeneuve", 400),
        affinity(FeatureFamily::Cinematographer, 2, "Roger Deakins", 300),
        affinity(FeatureFamily::Composer, 3, "Hans Zimmer", 300),
        affinity(FeatureFamily::Actor, 4, "Someone", -300),
    ]);
    let films = vec![
        film("Sicario", 4500, true),
        film("Prisoners", 4000, true),
        film("Blade Runner 2049", 5000, true),
        film("Arrival", 4500, true),
        film("Enemy", 3500, true),
        film("Dune", 4500, false),
    ];
    let all = vec![villeneuve.clone(), deakins.clone(), zimmer.clone(), disliked.clone()];
    let film_keys = vec![
        vec![villeneuve.clone(), deakins.clone(), disliked.clone()],
        vec![deakins.clone(), villeneuve.clone(), villeneuve.clone()],
        all.clone(),
        vec![villeneuve.clone(), zimmer.clone()],
        all.clone(),
        all.clone(),
    ];
    let out = positive_combinations(&films, &film_keys, &p);
    assert_eq!(out.len(), 1, "{out:?}");
    let c = &out[0];
    assert_eq!(c.supporting_films, vec!["Sicario", "Prisoners", "Blade Runner 2049"]);
    // storage keys order the pair: "Cinematographer:…" before "Director:…"
    assert_eq!(c.first_feature, "Roger Deakins");
    assert_eq!(c.second_feature, "Denis Villeneuve");
    assert_eq!(c.first_family, "visual");
    assert_eq!(c.second_family, "authorial");
}

#[test]
fn combinations_sort_by_support_then_names() {
    let a = FeatureKey::new(FeatureFamily::Director, Some(1), "A");
    let b = FeatureKey::new(FeatureFamily::Director, Some(2), "B");
    let c = FeatureKey::new(FeatureFamily::Director, Some(3), "C");
    let p = profile(vec![
        affinity(FeatureFamily::Director, 1, "A", 400),
        affinity(FeatureFamily::Director, 2, "B", 400),
        affinity(FeatureFamily::Director, 3, "C", 400),
    ]);
    let films: Vec<FilmRecord> = (0..5).map(|i| film(&format!("f{i}"), 4500, true)).collect();
    let film_keys = vec![
        vec![a.clone(), b.clone(), c.clone()],
        vec![a.clone(), b.clone(), c.clone()],
        vec![a.clone(), b.clone(), c.clone()],
        vec![b.clone(), c.clone()],
        vec![],
    ];
    let out = positive_combinations(&films, &film_keys, &p);
    let names: Vec<(String, String, usize)> = out
        .iter()
        .map(|c| (c.first_feature.clone(), c.second_feature.clone(), c.supporting_films.len()))
        .collect();
    assert_eq!(
        names,
        vec![
            ("B".to_string(), "C".to_string(), 4),
            ("A".to_string(), "B".to_string(), 3),
            ("A".to_string(), "C".to_string(), 3),
        ]
    );
}
