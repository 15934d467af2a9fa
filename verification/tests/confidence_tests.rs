use taste::confidence::{
    blend_inputs, filter_reason, match_score, match_score_at, mixed_recommendation_corroboration,
    occupies_explore, occupies_new, passes_match_floor, placement, related_only, thin_evidence,
    unreleased_display_row, unreleased_new_row, APPEARANCE_CAP, EXCELLENT_BAND,
    LIMITED_EVIDENCE_CAP, MATCH_SCORE_FLOOR, NEW_MATCH_FLOOR, NON_WATCHLIST_BAND_CAP,
    RELATED_ONLY_CAP, SINGLE_BRIDGE_CAP,
};
use taste::explain::{EligibilityTrace, EvidenceGrade, MatchedFeatureView};
use taste::ranking::sort_workspace;
use taste::retrieve::{MediaKind, RetrievalKind, RetrievalSource};
use taste::score::{CandidateScore, CandidateView, ScoredCandidate};

fn feat(family: &str, appearances: u32, affinity: i32) -> MatchedFeatureView {
    MatchedFeatureView {
        feature_key: String::new(),
        name: format!("{family}-{appearances}"),
        family: family.into(),
        appearances,
        recommendation_mean: affinity,
        scoring_affinity: affinity,
        confidence: 800,
        portability: 1000,
        citeable: true,
        cited: true,
    }
}

fn neo_noir() -> MatchedFeatureView {
    MatchedFeatureView {
        feature_key: String::new(),
        name: "neo-noir".into(),
        family: "keyword".into(),
        appearances: 7,
        recommendation_mean: 400,
        scoring_affinity: 400,
        confidence: 800,
        portability: 1000,
        citeable: true,
        cited: true,
    }
}

fn row_with(
    features: Vec<MatchedFeatureView>,
    watchlist: bool,
    related: bool,
    total: i32,
    tmdb_id: i64,
) -> ScoredCandidate {
    let person_keys: Vec<String> = features.iter().map(|f| f.name.clone()).collect();
    let evidence_grade = if watchlist {
        if features.iter().any(|f| f.appearances >= 3) {
            EvidenceGrade::Strong
        } else {
            EvidenceGrade::Medium
        }
    } else {
        EvidenceGrade::Medium
    };
    ScoredCandidate {
        candidate: CandidateView {
            tmdb_id: Some(tmdb_id),
            title: "Film".into(),
            year: Some(2000),
            poster: None,
            watchlist,
            sources: vec![RetrievalSource {
                kind: if related {
                    RetrievalKind::Related
                } else if watchlist {
                    RetrievalKind::Watchlist
                } else {
                    RetrievalKind::Filmography
                },
                label: "x".into(),
                seed_tmdb_id: None,
                seed_rating: None,
            }],
            directors: vec!["A".into()],
            genres: vec![],
            modes: vec![],
            media_kind: MediaKind::Movie,
            runtime: Some(110),
            vote_count: Some(400),
        },
        score: CandidateScore {
            content: 500,
            tmdb_related: 0,
            friend_affinity: 0,
            recent_taste: 0,
            watchlist: 0,
            novelty: 0,
            negative_evidence: 0,
            semantic_fit: 500,
            semantic_coverage: false,
            total,
        },
        reasons: vec![],
        evidence: vec![],
        positive_features: person_keys.clone(),
        negative_features: vec![],
        contextual_only: false,
        person_keys,
        display_reasons: vec![],
        scoring_reasons: vec![],
        matched_features: features,
        hidden_features: vec![],
        eligibility: EligibilityTrace {
            portable_evidence_required: true,
            passed: true,
            passed_because: vec!["fixture".into()],
            candidate_fit: 1000,
            evidence_grade,
        },
    }
}

fn row(grade_people: &[(u32, bool)], watchlist: bool) -> ScoredCandidate {
    let features: Vec<MatchedFeatureView> = grade_people
        .iter()
        .map(|(n, _)| feat("director", *n, 500))
        .collect();
    row_with(features, watchlist, false, 400, 1)
}

fn with_total(mut c: ScoredCandidate, total: i32) -> ScoredCandidate {
    c.score.total = total;
    c
}

/// The match blend of a row (craft strength, evidence grade, appearances),
/// computed in floating point from the library's blend inputs.
fn blend(c: &ScoredCandidate) -> u8 {
    let b = blend_inputs(c);
    let quality = b.quality as f32 / 1_000_000.0;
    let strength = (quality / 0.38).tanh().clamp(0.0, 1.0);
    let g = (b.grade as f32 / 3.0).clamp(0.0, 1.0);
    let appear = 1.0 - (-(b.appearances as f32) / APPEARANCE_CAP as f32).exp();
    let limited = if b.limited { 0.82 } else { 1.0 };
    let raw = ((0.72 * strength + 0.18 * g + 0.10 * appear) * limited).clamp(0.0, 1.0);
    (100.0 * raw).round().clamp(0.0, 100.0) as u8
}

fn score(c: &ScoredCandidate) -> u8 {
    match_score(c, blend(c))
}

#[test]
fn higher_evidence_grade_scores_higher() {
    let g3 = row(&[(5, true), (4, true)], true);
    let g2 = row(&[(2, true)], false);
    assert!(score(&g3) > score(&g2));
}

#[test]
fn appearance_cap_treats_11_like_8() {
    let n8 = row(&[(8, true)], true);
    let n11 = row(&[(11, true)], true);
    assert_eq!(score(&n8), score(&n11));
}

#[test]
fn limited_evidence_lowers_score() {
    let strong = row(&[(8, true)], true);
    let limited = row(&[(2, true)], true);
    assert!(score(&limited) < score(&strong));
}

#[test]
fn frozen_score_is_sort_tiebreak_only() {
    let a = with_total(row(&[(8, true)], true), 100);
    let b = with_total(row(&[(8, true)], true), 900);
    assert_eq!(score(&a), score(&b));
}

#[test]
fn same_evidence_same_score_across_pool_totals() {
    let a = with_total(row(&[(5, true)], true), -200);
    let b = with_total(row(&[(5, true)], true), 1200);
    assert_eq!(score(&a), score(&b));
}

#[test]
fn displayed_order_is_fit_then_total_then_tmdb() {
    let mut low = with_total(row(&[(8, true)], false), 10);
    low.eligibility.candidate_fit = 400;
    low.candidate.tmdb_id = Some(10);
    let mut high = with_total(row(&[(8, true)], false), 990);
    high.eligibility.candidate_fit = 1000;
    high.candidate.tmdb_id = Some(20);
    let mut rows = vec![low, high];
    sort_workspace(&mut rows);
    assert_eq!(rows[0].candidate.tmdb_id, Some(20));
}

#[test]
fn blend_inputs_cap_appearances() {
    let n11 = row(&[(11, true)], true);
    let b = blend_inputs(&n11);
    assert_eq!(b.appearances, 8);
    assert_eq!(b.quality, 500_000);
    assert_eq!(b.grade, 3);
    assert!(!b.limited);
}

#[test]
fn related_only_row_is_capped_at_69() {
    let dune = row_with(vec![feat("cinematographer", 4, 450)], false, true, 500, 78);
    assert!(related_only(&dune));
    assert!(match_score(&dune, 100) <= RELATED_ONLY_CAP);
    assert!(!occupies_explore(&dune));
}

#[test]
fn non_watchlist_row_never_reaches_80() {
    let r = row_with(vec![feat("director", 8, 900)], false, false, 500, 5);
    assert!(match_score_at(&r, 2026, 100) <= NON_WATCHLIST_BAND_CAP);
}

#[test]
fn watchlist_row_keeps_its_blend() {
    let r = row(&[(8, true)], true);
    assert_eq!(match_score_at(&r, 2026, 93), 93);
}

#[test]
fn weak_row_falls_below_floor() {
    let weak = row_with(vec![], false, false, 50, 2);
    assert!(match_score(&weak, 20) < MATCH_SCORE_FLOOR);
    assert!(!passes_match_floor(&weak, 20));
}

#[test]
fn thin_evidence_matches_two_appearances() {
    assert!(thin_evidence(&row(&[(2, true)], true)));
    assert!(!thin_evidence(&row(&[(8, true)], true)));
    let _ = NEW_MATCH_FLOOR;
}

#[test]
fn placement_and_filter_reason_agree() {
    let r = row(&[(8, true)], true);
    assert_eq!(placement(&r), "watchlist");
    assert_eq!(filter_reason(&r), None);
    let mut failed = row(&[(8, true)], true);
    failed.eligibility.passed = false;
    assert_eq!(filter_reason(&failed), Some("weak-evidence".to_string()));
}

#[test]
fn more_appearances_only_raise_score_modestly() {
    let n8 = row_with(vec![feat("composer", 8, 220)], false, false, 400, 1);
    let n4 = row_with(vec![feat("composer", 4, 220)], false, false, 400, 2);
    let delta = score(&n8) as i16 - score(&n4) as i16;
    assert!(delta >= 0, "n=8 should not lose to n=4, delta={delta}");
    assert!(delta <= 12, "appearance count must not dominate, delta={delta}");
}

#[test]
fn low_evidence_can_fall_below_floor() {
    let weak = row_with(vec![], false, false, 50, 2);
    assert!(score(&weak) < MATCH_SCORE_FLOOR);
    assert!(!passes_match_floor(&weak, blend(&weak)));
}

#[test]
fn stronger_affinity_outranks_busier_collaborator() {
    let fraser = row_with(vec![feat("cinematographer", 4, 450)], false, false, 10, 20);
    let zimmer = row_with(vec![feat("composer", 12, 220)], false, true, 900, 10);
    assert!(score(&fraser) > score(&zimmer));
    assert!(score(&zimmer) < EXCELLENT_BAND);
}

#[test]
fn composer_count_cannot_make_related_boss_baby_excellent() {
    let boss_baby = row_with(
        vec![feat("composer", 12, 220), feat("actor", 2, 120)],
        false,
        true,
        800,
        459_151,
    );
    let if_movie = row_with(
        vec![feat("composer", 9, 240), feat("actor", 3, 140)],
        false,
        true,
        800,
        1,
    );
    let star_trek = row_with(
        vec![feat("composer", 9, 240), feat("actor", 5, 160)],
        false,
        true,
        800,
        2,
    );
    for row in [&boss_baby, &if_movie, &star_trek] {
        assert!(score(row) < EXCELLENT_BAND);
        assert!(score(row) <= RELATED_ONLY_CAP);
    }
    let foxcatcher = row_with(vec![feat("cinematographer", 4, 450)], false, false, 200, 3);
    assert!(score(&foxcatcher) > score(&boss_baby));
    assert!(score(&foxcatcher) > score(&if_movie));
    assert!(score(&foxcatcher) > score(&star_trek));
}

#[test]
fn related_only_is_capped_even_with_portable_dp() {
    let dune = row_with(vec![feat("cinematographer", 4, 450)], false, true, 500, 78);
    assert!(score(&dune) <= RELATED_ONLY_CAP);
    assert!(occupies_new(&dune) || score(&dune) < MATCH_SCORE_FLOOR);
    assert!(!occupies_explore(&dune));
}

#[test]
fn filmography_single_bridge_caps_as_discovery() {
    let be_cool = row_with(vec![feat("composer", 8, 550)], false, false, 400, 70);
    assert!(score(&be_cool) <= SINGLE_BRIDGE_CAP);
    let mut two_bridges = row_with(
        vec![feat("cinematographer", 5, 410), feat("cinematographer", 8, 380)],
        false,
        false,
        400,
        71,
    );
    two_bridges.matched_features[0].name = "Mauro Fiore".into();
    two_bridges.matched_features[1].name = "Wally Pfister".into();
    assert!(score(&two_bridges) > SINGLE_BRIDGE_CAP);
}

#[test]
fn limited_evidence_cannot_display_strong_possibility() {
    let thin = row_with(vec![feat("actor", 2, 700)], false, false, 500, 80);
    assert!(thin_evidence(&thin));
    assert!(score(&thin) <= LIMITED_EVIDENCE_CAP);
}

#[test]
fn candidate_fit_ranks_without_changing_visible_match_score() {
    let mut weak = row_with(vec![feat("composer", 8, 550)], false, false, 400, 81);
    weak.eligibility.candidate_fit = 320;
    let mut specific = weak.clone();
    specific.eligibility.candidate_fit = 1000;
    specific.candidate.tmdb_id = Some(82);
    assert_eq!(score(&weak), score(&specific));
    assert!(score(&weak) <= SINGLE_BRIDGE_CAP);
}

#[test]
fn watchlist_match_score_ignores_candidate_fit() {
    let mut prestige = row_with(
        vec![feat("cinematographer", 3, 390), feat("director", 5, 550)],
        true,
        false,
        400,
        1124,
    );
    prestige.eligibility.candidate_fit = 550;
    let mut full = prestige.clone();
    full.eligibility.candidate_fit = 1000;
    assert_eq!(score(&prestige), score(&full));
    assert!(score(&prestige) >= NEW_MATCH_FLOOR);
}

fn related_seed(
    features: Vec<MatchedFeatureView>,
    genres: &[&str],
    fit: i32,
    tmdb_id: i64,
) -> ScoredCandidate {
    let mut c = row_with(features, false, true, 500, tmdb_id);
    c.candidate.sources[0].seed_tmdb_id = Some(27_205);
    c.candidate.genres = genres.iter().map(|g| (*g).to_string()).collect();
    c.eligibility.candidate_fit = fit;
    c
}

fn source(kind: RetrievalKind, label: &str, seed: Option<i64>, rating: Option<i32>) -> RetrievalSource {
    RetrievalSource { kind, label: label.into(), seed_tmdb_id: seed, seed_rating: rating }
}

#[test]
fn portable_filmography_with_specific_fit_occupies_new() {
    let mut kts = row_with(vec![feat("cinematographer", 4, 450)], false, false, 400, 49_530);
    kts.eligibility.candidate_fit = 1000;
    kts.matched_features.push(neo_noir());
    assert!(score(&kts) >= NEW_MATCH_FLOOR);
    assert!(occupies_new(&kts));
    assert_eq!(filter_reason(&kts), None);
}

#[test]
fn composer_filmography_stays_discovery_even_with_specific_fit() {
    let mut antz = row_with(vec![feat("composer", 9, 550)], false, false, 400, 101);
    antz.eligibility.candidate_fit = 1000;
    assert!(score(&antz) <= SINGLE_BRIDGE_CAP);
    assert!(!occupies_new(&antz));
    assert_eq!(filter_reason(&antz).as_deref(), Some("filmography-only"));
}

#[test]
fn loved_similar_without_craft_does_not_occupy_new() {
    let mut raging = related_seed(vec![], &["Drama"], 1000, 11);
    let mut kissing = related_seed(vec![], &["Romance", "Comedy"], 1000, 15);
    raging.eligibility.evidence_grade = EvidenceGrade::Ungraded;
    kissing.eligibility.evidence_grade = EvidenceGrade::Ungraded;
    raging.eligibility.passed = false;
    kissing.eligibility.passed = false;
    for row in [&raging, &kissing] {
        assert!(score(row) < NEW_MATCH_FLOOR);
        assert!(!occupies_new(row));
    }
    assert_eq!(filter_reason(&kissing).as_deref(), Some("weak-evidence"));
}

#[test]
fn modest_portable_filmography_still_occupies_new() {
    let mut insomnia = row_with(vec![feat("cinematographer", 3, 320)], false, false, 400, 320);
    insomnia.eligibility.candidate_fit = 1000;
    insomnia.matched_features.push(feat("director", 5, 380));
    insomnia.matched_features.push(neo_noir());
    assert!(score(&insomnia) >= NEW_MATCH_FLOOR);
    assert!(occupies_new(&insomnia));
}

#[test]
fn animation_similar_and_composer_related_stay_off_new() {
    let mut feet = related_seed(vec![feat("composer", 9, 550)], &["Animation", "Family"], 1000, 12);
    feet.eligibility.evidence_grade = EvidenceGrade::Ungraded;
    let trek = related_seed(vec![feat("composer", 12, 240)], &["Science Fiction", "Action"], 1000, 13);
    let mut sponge = related_seed(vec![feat("writer", 3, 400)], &["Animation"], 1000, 14);
    sponge.eligibility.evidence_grade = EvidenceGrade::Ungraded;
    for row in [&feet, &sponge] {
        assert!(score(row) <= RELATED_ONLY_CAP);
        assert!(!occupies_new(row));
    }
    assert!(occupies_new(&trek) || score(&trek) < MATCH_SCORE_FLOOR);
    assert!(!occupies_explore(&trek));
}

#[test]
fn mixed_filmography_and_unseeded_related_occupies_new() {
    let mut mixed = row_with(vec![feat("cinematographer", 4, 450)], false, false, 400, 49_530);
    mixed.eligibility.candidate_fit = 1000;
    mixed.matched_features.push(neo_noir());
    mixed.candidate.sources.push(source(
        RetrievalKind::Related,
        "similar to a catalog title",
        None,
        None,
    ));
    assert!(occupies_new(&mixed));
    assert!(!occupies_explore(&mixed));
}

#[test]
fn several_loved_recommendation_seeds_can_backfill_filmography_new() {
    let mut mixed = row_with(vec![feat("composer", 2, 300)], false, false, 400, 700);
    mixed.candidate.sources = vec![
        source(RetrievalKind::Filmography, "Composer Name", None, None),
        source(RetrievalKind::RelatedRecommendations, "Loved One", Some(1), Some(5000)),
        source(RetrievalKind::RelatedRecommendations, "Loved Two", Some(2), Some(4500)),
        source(RetrievalKind::RelatedRecommendations, "Loved Three", Some(3), Some(4000)),
    ];
    mixed.eligibility.candidate_fit = 700;
    mixed.eligibility.evidence_grade = EvidenceGrade::Strong;
    assert!(mixed_recommendation_corroboration(&mixed));
    assert!(occupies_new(&mixed));

    mixed.candidate.sources.truncate(2);
    assert!(!mixed_recommendation_corroboration(&mixed));
    assert!(!occupies_new(&mixed));
}

#[test]
fn composer_filmography_plus_related_stays_off_new() {
    let mut mixed = row_with(vec![feat("composer", 9, 550)], false, false, 400, 101);
    mixed.eligibility.candidate_fit = 1000;
    mixed.eligibility.evidence_grade = EvidenceGrade::Ungraded;
    mixed.candidate.sources.push(source(
        RetrievalKind::Related,
        "similar to Pulp Fiction",
        Some(680),
        None,
    ));
    assert!(!occupies_new(&mixed));
    assert!(score(&mixed) <= SINGLE_BRIDGE_CAP || occupies_explore(&mixed));
}

#[test]
fn writer_filmography_is_not_padded_to_new() {
    let mut writer = row_with(vec![feat("writer", 3, 400)], false, false, 400, 88);
    writer.eligibility.candidate_fit = 1000;
    assert!(score(&writer) < NEW_MATCH_FLOOR);
    assert!(!occupies_new(&writer));
}

#[test]
fn related_60_69_occupies_new() {
    let dogs = related_seed(vec![feat("director", 8, 500)], &["Crime", "Thriller"], 1000, 500);
    assert!(score(&dogs) <= RELATED_ONLY_CAP);
    if score(&dogs) >= MATCH_SCORE_FLOOR {
        assert!(occupies_new(&dogs));
        assert!(!occupies_explore(&dogs));
        assert_eq!(placement(&dogs), "new");
    }
}

#[test]
fn yearless_stub_stays_off_both_boards() {
    let mut stub = row_with(vec![feat("cinematographer", 4, 450)], false, false, 400, 1);
    stub.candidate.year = None;
    stub.candidate.runtime = None;
    stub.candidate.vote_count = None;
    stub.eligibility.candidate_fit = 1000;
    assert!(unreleased_display_row(&stub));
    assert!(!occupies_new(&stub));
    assert!(!occupies_explore(&stub));
    assert_eq!(filter_reason(&stub).as_deref(), Some("incomplete-metadata"));
}

#[test]
fn yearless_with_runtime_can_occupy_new() {
    let mut related = related_seed(vec![feat("director", 4, 400)], &["Drama"], 1000, 2);
    related.candidate.year = None;
    related.candidate.runtime = Some(110);
    related.candidate.vote_count = Some(200);
    assert!(!unreleased_display_row(&related));
    if score(&related) >= MATCH_SCORE_FLOOR {
        assert!(occupies_new(&related));
    }
    let mut filmography = row_with(vec![feat("cinematographer", 4, 450)], false, false, 400, 3);
    filmography.candidate.year = None;
    filmography.candidate.runtime = Some(110);
    filmography.candidate.vote_count = Some(200);
    filmography.eligibility.candidate_fit = 1000;
    assert!(unreleased_new_row(&filmography));
    assert!(!occupies_new(&filmography));
    assert!(!occupies_explore(&filmography));
}

#[test]
fn future_dated_stays_off_both_boards() {
    let mut future = row_with(vec![feat("cinematographer", 4, 450)], false, false, 400, 4);
    future.candidate.year = Some(9999);
    future.eligibility.candidate_fit = 1000;
    assert!(unreleased_display_row(&future));
    assert!(!occupies_new(&future));
    assert!(!occupies_explore(&future));
    assert_eq!(filter_reason(&future).as_deref(), Some("unreleased"));
}

#[test]
fn tv_movie_filmography_does_not_occupy_new() {
    let mut sketch = row_with(vec![feat("cinematographer", 3, 390)], false, false, 400, 49_001);
    sketch.candidate.title = "Sketch Artist".into();
    sketch.candidate.genres = vec!["Crime".into(), "TV Movie".into()];
    sketch.eligibility.candidate_fit = 1000;
    assert!(score(&sketch) <= SINGLE_BRIDGE_CAP);
    assert!(!occupies_new(&sketch));
    assert!(!occupies_explore(&sketch));
}

#[test]
fn uncorroborated_dp_filmography_stays_off_new() {
    let mut blue = row_with(vec![feat("cinematographer", 4, 470)], false, false, 400, 13_922);
    blue.candidate.title = "Out of the Blue".into();
    blue.eligibility.candidate_fit = 1000;
    assert!(score(&blue) <= RELATED_ONLY_CAP);
    assert!(!occupies_new(&blue));
    assert!(!occupies_explore(&blue));
}

#[test]
fn non_watchlist_never_says_very_likely() {
    let mut kts = row_with(vec![feat("cinematographer", 4, 470)], false, false, 400, 49_530);
    kts.eligibility.candidate_fit = 1000;
    kts.matched_features.push(neo_noir());
    assert!(occupies_new(&kts));
    assert!(score(&kts) <= NON_WATCHLIST_BAND_CAP);
    let mut dune = row_with(vec![feat("cinematographer", 4, 470)], true, false, 400, 438_631);
    dune.eligibility.candidate_fit = 1000;
    dune.matched_features.push(neo_noir());
    assert!(score(&dune) > NON_WATCHLIST_BAND_CAP);
}

#[test]
fn corroborated_recommendations_can_occupy_new() {
    let mut solo = row_with(
        vec![feat("writer", 3, 400), feat("composer", 9, 500)],
        false,
        true,
        800,
        348_350,
    );
    solo.candidate.sources = vec![
        source(
            RetrievalKind::RelatedRecommendations,
            "recommended from Rogue One: A Star Wars Story",
            Some(330_459),
            None,
        ),
        source(
            RetrievalKind::RelatedRecommendations,
            "recommended from Avatar: Fire and Ash",
            Some(835_33),
            None,
        ),
    ];
    solo.eligibility.candidate_fit = 1000;
    solo.candidate.title = "Solo: A Star Wars Story".into();
    assert!(!related_only(&solo));
    assert!(occupies_new(&solo));
    assert!(!occupies_explore(&solo));
}

#[test]
fn uncorroborated_recommendations_stay_related_only() {
    let mut insurgent = row_with(vec![feat("actor", 3, 400)], false, true, 800, 262_504);
    insurgent.candidate.sources = vec![source(
        RetrievalKind::RelatedRecommendations,
        "recommended from The Hunger Games: Catching Fire",
        Some(101_299),
        None,
    )];
    insurgent.candidate.title = "Insurgent".into();
    insurgent.eligibility.evidence_grade = EvidenceGrade::Ungraded;
    assert!(related_only(&insurgent));
    assert!(!occupies_new(&insurgent));
}

#[test]
fn similar_only_stays_capped_but_can_occupy_new() {
    let mut similar = row_with(vec![feat("director", 6, 500)], false, true, 800, 116);
    similar.matched_features.push(neo_noir());
    similar.candidate.sources = vec![source(
        RetrievalKind::RelatedSimilar,
        "similar to Last Night in Soho",
        Some(565_123),
        None,
    )];
    assert!(related_only(&similar));
    assert!(score(&similar) <= RELATED_ONLY_CAP);
    if score(&similar) >= MATCH_SCORE_FLOOR {
        assert!(occupies_new(&similar));
    }
}

#[test]
fn related_only_family_does_not_occupy_explore() {
    let mut kids = related_seed(vec![feat("director", 4, 400)], &["Family", "Comedy"], 1000, 351_837);
    kids.eligibility.evidence_grade = EvidenceGrade::Ungraded;
    assert!(!occupies_new(&kids));
    assert!(!occupies_explore(&kids));
}

#[test]
fn multi_seed_recommendations_occupy_new() {
    let mut trek = row_with(vec![feat("composer", 4, 240)], false, true, 500, 13_475);
    trek.candidate.title = "Star Trek".into();
    trek.candidate.genres = vec!["Science Fiction".into(), "Action".into()];
    trek.candidate.sources = vec![
        source(
            RetrievalKind::RelatedRecommendations,
            "recommended from Rogue One: A Star Wars Story",
            Some(330_459),
            None,
        ),
        source(RetrievalKind::RelatedRecommendations, "recommended from Avatar", Some(19_995), None),
        source(
            RetrievalKind::RelatedRecommendations,
            "recommended from Interstellar",
            Some(157_336),
            None,
        ),
        source(
            RetrievalKind::RelatedRecommendations,
            "recommended from The Mandalorian and Grogu",
            Some(1_228_710),
            None,
        ),
    ];
    assert!(score(&trek) >= MATCH_SCORE_FLOOR);
    assert!(occupies_new(&trek));
    assert!(!occupies_explore(&trek));
    assert!(score(&trek) <= RELATED_ONLY_CAP);
}

#[test]
fn single_seed_recommendation_does_not_invent_a_match() {
    let mut curves = related_seed(vec![feat("actor", 3, 120)], &["Drama", "Comedy"], 1000, 10_337);
    curves.candidate.sources = vec![source(
        RetrievalKind::RelatedRecommendations,
        "recommended from Tony",
        Some(1_329_016),
        None,
    )];
    curves.candidate.title = "Real Women Have Curves".into();
    curves.eligibility.evidence_grade = EvidenceGrade::Ungraded;
    assert!(score(&curves) < MATCH_SCORE_FLOOR);
    assert!(!occupies_new(&curves));
}

#[test]
fn blends_past_one_hundred_count_as_one_hundred() {
    let wl = row(&[(8, true)], true);
    assert!(match_score_at(&wl, 2025, 250) <= 100);
    assert_eq!(match_score_at(&wl, 2025, 250), match_score_at(&wl, 2025, 100));
    assert!(match_score(&wl, 255) <= 100);
}

#[test]
fn equal_rows_keep_their_order() {
    let mut a = with_total(row(&[(8, true)], false), 500);
    a.candidate.tmdb_id = Some(7);
    a.candidate.title = "first".into();
    let mut b = a.clone();
    b.candidate.title = "second".into();
    let mut c = a.clone();
    c.candidate.title = "third".into();
    let mut rows = vec![a, b, c];
    sort_workspace(&mut rows);
    let titles: Vec<&str> = rows.iter().map(|r| r.candidate.title.as_str()).collect();
    assert_eq!(titles, vec!["first", "second", "third"]);
}
