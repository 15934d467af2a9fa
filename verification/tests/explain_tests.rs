use taste::explain::{
    canonicalize_reason_lines, format_display_reason, format_provenance, ground_why,
    select_display_reasons, MatchedFeatureView,
};
use taste::features::{EvidenceCluster, FeatureAffinity, FeatureFamily, FeatureKey};
use taste::retrieve::{RetrievalKind, RetrievalSource};

fn src(kind: RetrievalKind, label: &str, seed: Option<i64>) -> RetrievalSource {
    RetrievalSource { kind, label: label.into(), seed_tmdb_id: seed, seed_rating: None }
}

fn aff(family: FeatureFamily, name: &str, n: u32) -> FeatureAffinity {
    FeatureAffinity {
        key: FeatureKey::new(family, Some(1), name),
        appearances: n,
        weighted_mean: 400,
        preference_mean: 400,
        recommendation_mean: 400,
        weighted_variance: 0,
        positive_weight: 900,
        negative_weight: 0,
        recent_weight: 0,
        long_term_weight: 0,
        confidence: 700,
        feature_strength: 400,
        portability: 1000,
        positive_evidence: vec![],
        negative_evidence: vec![],
        evidence_cluster: EvidenceCluster { genres: vec![], modes: vec![], keywords: vec![] },
    }
}

fn two_film_keyword(name: &str) -> FeatureAffinity {
    aff(FeatureFamily::Keyword, name, 2)
}

fn two_film_person(name: &str, family: FeatureFamily) -> FeatureAffinity {
    aff(family, name, 2)
}

#[test]
fn family_trope_loses_display_to_creature_keyword() {
    let family = two_film_keyword("dysfunctional family");
    let creature = two_film_keyword("creature");
    let display = select_display_reasons(&[&family, &creature], &[]);
    assert!(display[0].to_lowercase().contains("creature"), "{display:?}");
    assert!(!display[0].to_lowercase().contains("dysfunctional"), "{display:?}");
}

#[test]
fn thin_person_display_names_sample_size() {
    let giacchino = two_film_person("Michael Giacchino", FeatureFamily::Composer);
    let line = format_display_reason(&giacchino);
    assert!(line.contains("2 films"), "{line}");
    assert!(line.contains("limited evidence"), "{line}");
    assert!(!line.contains("0.91"), "{line}");
}

#[test]
fn duplicate_feature_reasons_are_collapsed() {
    let director = two_film_person("James Cameron", FeatureFamily::Director);
    let writer = two_film_person("James Cameron", FeatureFamily::Writer);
    let actor = two_film_person("Bill Paxton", FeatureFamily::Actor);
    let display = select_display_reasons(&[&director, &writer, &actor], &[]);
    let cameron = display.iter().filter(|l| l.to_lowercase().contains("james cameron")).count();
    assert_eq!(cameron, 1, "{display:?}");
    assert!(display.iter().any(|l| l.to_lowercase().contains("bill paxton")), "{display:?}");
}

#[test]
fn duplicate_watchlist_origins_are_collapsed() {
    let sources = vec![
        src(RetrievalKind::Watchlist, "watchlist", None),
        src(RetrievalKind::Watchlist, "watchlist", None),
    ];
    assert_eq!(format_provenance(&sources), "On your watchlist");
}

#[test]
fn multiple_identical_sources_render_once() {
    let sources = vec![
        src(RetrievalKind::Filmography, "Christopher Nolan", Some(155)),
        src(RetrievalKind::Filmography, "Wally Pfister", None),
        src(RetrievalKind::Filmography, "Christopher Nolan", None),
        src(RetrievalKind::Watchlist, "watchlist", None),
    ];
    assert_eq!(format_provenance(&sources), "Filmography · Christopher Nolan · On your watchlist");
    assert_eq!(
        format_provenance(&[src(RetrievalKind::Related, "similar to A Minecraft Movie", Some(1))]),
        "Related to A Minecraft Movie"
    );
}

#[test]
fn generic_adjectives_do_not_lead_pick_reasons() {
    let bold = two_film_keyword("bold");
    let enthusiastic = two_film_keyword("enthusiastic");
    let zimmer = two_film_person("Hans Zimmer", FeatureFamily::Composer);
    let display = select_display_reasons(&[&bold, &enthusiastic, &zimmer], &[]);
    assert!(display[0].contains("Hans Zimmer"), "{display:?}");
    assert!(
        display
            .iter()
            .all(|l| !l.to_lowercase().contains("bold") && !l.to_lowercase().contains("enthusiastic")),
        "{display:?}"
    );
}

#[test]
fn structural_keywords_remain_displayable() {
    let noir = two_film_keyword("neo-noir");
    let display = select_display_reasons(&[&noir], &[]);
    assert!(display.iter().any(|l| l.to_lowercase().contains("neo-noir")), "{display:?}");
}

#[test]
fn thematic_keywords_require_explanatory_value() {
    let coming = two_film_keyword("coming of age");
    let zimmer = two_film_person("Hans Zimmer", FeatureFamily::Composer);
    let display = select_display_reasons(&[&coming, &zimmer], &[]);
    assert!(display[0].contains("Hans Zimmer"), "{display:?}");
    assert!(display.iter().any(|l| l.to_lowercase().contains("coming of age")), "{display:?}");
}

#[test]
fn loss_of_loved_one_does_not_headline_over_person() {
    let loss = two_film_keyword("loss of loved one");
    let collette = two_film_person("Toni Collette", FeatureFamily::Actor);
    let thriller = two_film_keyword("psychological thriller");
    let display = select_display_reasons(&[&loss, &collette, &thriller], &[]);
    assert!(!display[0].to_lowercase().contains("loss of loved one"), "{display:?}");
    assert!(
        display[0].contains("Toni Collette") || display[0].to_lowercase().contains("psychological thriller"),
        "{display:?}"
    );
}

#[test]
fn generated_why_cannot_mention_hidden_or_genre_features() {
    let hidden = vec![MatchedFeatureView {
        feature_key: String::new(),
        name: "mystery".into(),
        family: "genre".into(),
        appearances: 22,
        recommendation_mean: 250,
        scoring_affinity: 90,
        confidence: 970,
        portability: 1000,
        citeable: true,
        cited: false,
    }];
    let prestige = ground_why(
        "strong fit due to matching features such as Christopher Nolan and mystery",
        &["Christopher Nolan · 4 films".into(), "On your watchlist".into()],
        &hidden,
    );
    assert!(prestige.is_empty() || !prestige.to_lowercase().contains("mystery"), "{prestige}");
    let seven = ground_why(
        "strong fit due to matching features such as crime and thriller",
        &["Darius Khondji · 3 films".into(), "On your watchlist".into()],
        &[],
    );
    assert!(seven.is_empty(), "{seven}");
    let ok = ground_why(
        "Christopher Nolan, from films you already like",
        &["Christopher Nolan · 4 films".into()],
        &[],
    );
    assert!(ok.to_lowercase().contains("nolan"), "{ok}");
}

#[test]
fn canonical_lines_drop_duplicates() {
    let out = canonicalize_reason_lines(vec![
        "Nolan · 4 films".into(),
        "Nolan · 4 films".into(),
        "".into(),
    ]);
    assert_eq!(out, vec!["Nolan · 4 films".to_string()]);
}
