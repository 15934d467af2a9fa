use taste::dimensions::TasteMode;
use taste::features::{
    EvidenceCluster, EvidenceFilm, FeatureAffinity, FeatureFamily, FeatureKey, FeatureProfile,
};
use taste::reason::{
    cites_watchlist, deterministic_summary, deterministic_title, ground_reasoner,
    ground_reasoner_with, last_name, summary_has_dislike_language, summary_is_generic,
    theme_claims, title_tokens, ReasonerReport, TasteAffinity, TasteDimension,
};

fn mode(name: &str, strength: u128) -> TasteMode {
    TasteMode {
        dimension: name.into(),
        strength,
        members: vec![],
        recent_share: 200,
        long_term_share: 200,
    }
}

fn visual_story_profile() -> FeatureProfile {
    FeatureProfile {
        affinities: vec![],
        polarizing: vec![],
        shifts: vec![],
        dimensions: vec![],
        modes: vec![mode("visual", 800), mode("story", 700), mode("comedy", 400)],
        mode_shifts: vec![],
    }
}

fn empty_cluster() -> EvidenceCluster {
    EvidenceCluster { genres: vec![], modes: vec![], keywords: vec![] }
}

fn genre_aff(name: &str, rec: i32, n: u32, pos: i32, neg: i32) -> FeatureAffinity {
    FeatureAffinity {
        key: FeatureKey::new(FeatureFamily::Genre, None, name),
        appearances: n,
        weighted_mean: rec,
        preference_mean: rec,
        recommendation_mean: rec,
        weighted_variance: 0,
        positive_weight: pos,
        negative_weight: neg,
        recent_weight: 0,
        long_term_weight: 0,
        confidence: 900,
        feature_strength: rec.abs(),
        portability: 1000,
        positive_evidence: vec![],
        negative_evidence: vec![],
        evidence_cluster: empty_cluster(),
    }
}

fn craft_person(family: FeatureFamily, name: &str, rec: i32, n: u32, film: &str) -> FeatureAffinity {
    FeatureAffinity {
        key: FeatureKey::new(family, Some(1), name),
        appearances: n,
        weighted_mean: rec,
        preference_mean: rec,
        recommendation_mean: rec,
        weighted_variance: 0,
        positive_weight: 8000,
        negative_weight: 0,
        recent_weight: 0,
        long_term_weight: 0,
        confidence: 900,
        feature_strength: rec.abs(),
        portability: 1000,
        positive_evidence: vec![EvidenceFilm {
            title: film.into(),
            rating: 5000,
            tmdb_id: Some(10),
            people: vec![name.into()],
            keywords: vec![],
            genres: vec!["Drama".into()],
            year: Some(2022),
            runtime: Some(120),
        }],
        negative_evidence: vec![],
        evidence_cluster: empty_cluster(),
    }
}

fn report(title: &str, summary: &str) -> ReasonerReport {
    ReasonerReport {
        title: title.into(),
        summary: summary.into(),
        affinities: vec![],
        aversions: vec![],
        dimensions: vec![],
        picks: vec![],
    }
}

fn ungated_report() -> ReasonerReport {
    let mut r = report(
        "Dark Fantasy Adventure",
        "They may not enjoy films with too much horror or conspiracy elements, as seen in their dislike of Batman & Robin and Assassin's Creed. Visual craft still matters.",
    );
    r.aversions = vec![TasteAffinity { label: "horror".into(), evidence: "Batman & Robin".into() }];
    r
}

fn with_fraser() -> FeatureProfile {
    let mut profile = visual_story_profile();
    profile.affinities.push(craft_person(
        FeatureFamily::Cinematographer,
        "Greig Fraser",
        470,
        6,
        "The Batman",
    ));
    profile
}

#[test]
fn summary_does_not_infer_dislike_without_negative_evidence() {
    let profile = visual_story_profile();
    let grounded = ground_reasoner(ungated_report(), &profile);
    assert!(grounded.aversions.is_empty());
    let lower = grounded.summary.to_lowercase();
    assert!(!lower.contains("not enjoy") && !lower.contains("horror"), "{}", grounded.summary);
}

#[test]
fn summary_cannot_infer_horror_aversion_from_batman_and_robin() {
    let profile = visual_story_profile();
    let grounded = ground_reasoner(ungated_report(), &profile);
    let blob = format!(
        "{} {}",
        grounded.summary,
        grounded.aversions.iter().map(|a| a.evidence.clone()).collect::<Vec<_>>().join(" ")
    );
    assert!(!blob.to_lowercase().contains("batman"), "{blob}");
}

#[test]
fn profile_title_must_be_supported_by_multiple_deterministic_signals() {
    let profile = visual_story_profile();
    let grounded = ground_reasoner(ungated_report(), &profile);
    let lower = grounded.title.to_lowercase();
    assert!(!lower.contains("fantasy") && !lower.contains("adventure"), "{}", grounded.title);
    assert!(lower.contains("visual") && lower.contains("story"), "{}", grounded.title);
    let ok = report(
        "Visual Story",
        "Cinematography and plot construction show up across the log.",
    );
    let kept = ground_reasoner(ok, &profile);
    assert_eq!(kept.title, "Visual Story");
}

#[test]
fn mixed_positive_genre_does_not_support_category_aversion() {
    let mut profile = visual_story_profile();
    profile.affinities.push(genre_aff("Horror", 70, 29, 10_000, 12_000));
    profile.affinities.push({
        let mut a = genre_aff("conspiracy", 200, 8, 4000, 9000);
        a.key.family = FeatureFamily::Keyword;
        a.key.name = "conspiracy".into();
        a
    });
    let mut r = ungated_report();
    r.title = "Visual Story".into();
    r.summary = "The user enjoys films with strong visual elements. However, they tend to dislike films with excessive action, horror, or conspiracy themes.".into();
    r.aversions = vec![
        TasteAffinity {
            label: "Horror".into(),
            evidence: "The Holy Mountain, Batman & Robin, Assassin's Creed".into(),
        },
        TasteAffinity {
            label: "Conspiracy".into(),
            evidence: "Batman v Superman: Dawn of Justice".into(),
        },
    ];
    let grounded = ground_reasoner(r, &profile);
    assert!(grounded.aversions.is_empty());
    let lower = grounded.summary.to_lowercase();
    assert!(
        !lower.contains("horror") && !lower.contains("conspiracy") && !lower.contains("dislike"),
        "{}",
        grounded.summary
    );
}

#[test]
fn generic_action_adventure_humor_summary_is_replaced() {
    let mut profile = with_fraser();
    profile.affinities.push(craft_person(FeatureFamily::Cinematographer, "Mauro Fiore", 410, 5, "Avatar"));
    profile.affinities.push(craft_person(
        FeatureFamily::Cinematographer,
        "Wally Pfister",
        380,
        8,
        "Inception",
    ));
    let r = report(
        "Visual Story",
        "You enjoy a mix of action, adventure, and humor across a wide range of films.",
    );
    let grounded = ground_reasoner(r, &profile);
    let lower = grounded.summary.to_lowercase();
    assert!(!lower.contains("action, adventure, and humor"), "{}", grounded.summary);
    assert!(
        lower.contains("fraser") || lower.contains("fiore") || lower.contains("pfister"),
        "{}",
        grounded.summary
    );
}

#[test]
fn summary_that_cites_craft_is_kept() {
    let profile = with_fraser();
    let r = report("Visual Story", "Fraser's photography on The Batman is the through-line.");
    let grounded = ground_reasoner(r, &profile);
    assert!(grounded.summary.contains("Fraser"));
    assert!(!grounded.summary.contains("Recurring craft"));
}

#[test]
fn generic_opener_with_craft_name_is_replaced() {
    let profile = with_fraser();
    let r = report(
        "Visual Story",
        "You enjoy a mix of action, adventure, and humor. Fraser's photography on The Batman is the through-line.",
    );
    let grounded = ground_reasoner(r, &profile);
    let lower = grounded.summary.to_lowercase();
    assert!(!lower.contains("you enjoy a mix"), "{}", grounded.summary);
    assert!(grounded.summary.contains("Fraser"), "{}", grounded.summary);
}

#[test]
fn unsupported_theme_claim_is_replaced() {
    let profile = with_fraser();
    let r = report("Visual Story", "Fraser often returns to tree or game themes across the log.");
    let grounded = ground_reasoner(r, &profile);
    let lower = grounded.summary.to_lowercase();
    assert!(!lower.contains("tree or game") && !lower.contains("game themes"), "{}", grounded.summary);
    assert!(lower.contains("fraser") || lower.contains("recurring craft"), "{}", grounded.summary);
}

#[test]
fn may_not_always_enjoy_horror_is_replaced_with_craft_summary() {
    let profile = with_fraser();
    let mut r = report(
        "Visual Story",
        "Your taste in films is influenced by directors like Christopher Nolan. However, you may not always enjoy films with intense action or horror elements, as seen in your mixed reaction to films like Aliens and The Conjuring: Last Rites.",
    );
    r.aversions = vec![TasteAffinity {
        label: "horror".into(),
        evidence: "Aliens, The Conjuring: Last Rites".into(),
    }];
    r.dimensions = vec![TasteDimension {
        name: "intensity".into(),
        take: "mixed reaction to intense action and horror elements".into(),
    }];
    let grounded = ground_reasoner_with(r, &profile, &["Aliens".into()]);
    assert!(grounded.aversions.is_empty());
    let lower = grounded.summary.to_lowercase();
    assert!(
        !lower.contains("horror") && !lower.contains("aliens") && !lower.contains("may not always enjoy"),
        "{}",
        grounded.summary
    );
    assert!(lower.contains("fraser"), "{}", grounded.summary);
    let intensity = grounded
        .dimensions
        .iter()
        .find(|d| d.name == "intensity")
        .map(|d| d.take.to_lowercase())
        .unwrap_or_default();
    assert!(!intensity.contains("horror") && !intensity.contains("mixed reaction"), "{intensity}");
}

#[test]
fn third_person_visual_storytelling_blurb_is_replaced() {
    let profile = with_fraser();
    let r = report(
        "Visual Story",
        "This user enjoys films with strong visual elements, such as cinematography and spectacle, as well as engaging stories and characters. Directors like Christopher Nolan and Edgar Wright are favorites, and they also enjoy the work of cinematographers like Greig Fraser and Mauro Fiore.",
    );
    let grounded = ground_reasoner(r, &profile);
    let lower = grounded.summary.to_lowercase();
    assert!(!lower.contains("this user") && !lower.contains("strong visual elements"), "{}", grounded.summary);
    assert!(lower.contains("fraser") || lower.contains("recurring craft"), "{}", grounded.summary);
}

#[test]
fn deterministic_texts() {
    let profile = with_fraser();
    assert_eq!(deterministic_title(&profile), "Visual Story");
    assert_eq!(
        deterministic_summary(&profile),
        "Strongest lanes are visual story. Recurring craft includes Greig Fraser. Close films include The Batman."
    );
    let mut single = visual_story_profile();
    single.modes = vec![mode("comedy", 400), mode("story", 100)];
    assert_eq!(deterministic_title(&single), "Comedy taste");
    single.modes.clear();
    assert_eq!(deterministic_title(&single), "Taste");
    assert_eq!(deterministic_summary(&single), "Strongest lanes are taste.");
}

#[test]
fn text_helpers() {
    assert_eq!(title_tokens("The Dark-Knight of 2008!"), vec!["the", "dark", "knight", "2008"]);
    assert!(summary_has_dislike_language("They DISLIKE horror"));
    assert!(!summary_has_dislike_language("They love horror"));
    assert!(summary_is_generic("An eclectic mix of films"));
    assert!(summary_is_generic("action and adventure with comedy"));
    assert!(!summary_is_generic("Fraser shoots it"));
    assert!(cites_watchlist("I loved Aliens", &["  Aliens ".into()]));
    assert!(!cites_watchlist("I loved Up", &["Up".into()]));
    assert_eq!(last_name("Greig Fraser"), "fraser");
    assert_eq!(last_name("Jo Li"), "jo li");
    assert_eq!(last_name("  Denis Villeneuve, Jr. "), "villeneuve");
    assert_eq!(theme_claims("Recurring grief and revenge themes"), vec!["revenge", "grief"]);
    assert!(theme_claims("no claims here").is_empty());
}
