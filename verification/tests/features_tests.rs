use taste::features::{
    execution_keywords_for_review, execution_signal_polarity, repeated_execution_signals,
    family_for_job, keyword_can_carry_alone, keyword_is_display_reason, keyword_strength,
    runtime_bucket, FeatureFamily, KeywordStrength,
};
use taste::retrieve::{identity_key, keep_person_credit};

#[test]
fn keyword_strength_classes() {
    assert_eq!(keyword_strength("neo-noir"), KeywordStrength::Strong);
    assert_eq!(keyword_strength("nonlinear timeline"), KeywordStrength::Strong);
    assert_eq!(keyword_strength("long take"), KeywordStrength::Strong);
    assert_eq!(keyword_strength("coming of age"), KeywordStrength::Thematic);
    assert_eq!(keyword_strength("dysfunctional family"), KeywordStrength::Thematic);
    assert_eq!(keyword_strength("drugs"), KeywordStrength::Broad);
    assert_eq!(keyword_strength("murder"), KeywordStrength::Broad);
    assert_eq!(keyword_strength("battle"), KeywordStrength::Broad);
    assert_eq!(keyword_strength("friends"), KeywordStrength::Broad);
    assert_eq!(keyword_strength("hilarious"), KeywordStrength::Contextual);
    assert_eq!(keyword_strength("based on novel"), KeywordStrength::Ignore);
    assert!(keyword_can_carry_alone("neo-noir"));
    assert!(!keyword_can_carry_alone("coming of age"));
    assert!(!keyword_can_carry_alone("drugs"));
    assert!(!keyword_can_carry_alone("hilarious"));
    assert!(keyword_is_display_reason("neo-noir"));
    assert!(keyword_is_display_reason("coming of age"));
    assert!(keyword_is_display_reason("supernatural horror"));
    assert!(!keyword_is_display_reason("bold"));
    assert!(!keyword_is_display_reason("enthusiastic"));
    assert!(!keyword_is_display_reason("amused"));
    assert!(!keyword_is_display_reason("dramatic"));
}

#[test]
fn identity_prefers_tmdb() {
    assert_eq!(identity_key(Some(99), "Heat", Some(1995)), "tmdb:99");
    assert_eq!(identity_key(None, "Heat", Some(1995)), "heat|1995");
}

#[test]
fn filmography_keeps_only_the_affinity_job() {
    assert!(keep_person_credit("Director", FeatureFamily::Director));
    assert!(!keep_person_credit("Producer", FeatureFamily::Director));
    assert!(!keep_person_credit("Writer", FeatureFamily::Director));
    assert!(keep_person_credit(
        "Director of Photography",
        FeatureFamily::Cinematographer
    ));
    assert!(!keep_person_credit("Director", FeatureFamily::Cinematographer));
    assert!(!keep_person_credit("Actor", FeatureFamily::Cinematographer));
}

#[test]
fn jobs_map_to_families() {
    assert_eq!(family_for_job("Director"), Some(FeatureFamily::Director));
    assert_eq!(family_for_job("Producer"), None);
}

#[test]
fn runtime_buckets_have_labels() {
    assert!(!runtime_bucket(95).is_empty());
}

#[test]
fn execution_language_requires_repeated_explicit_phrases() {
    let one = ["The acting was great, honestly."];
    assert!(repeated_execution_signals(&one).is_empty());

    let repeated = [
        "The acting was great and the pacing was tight.",
        "Great acting with tight pacing throughout.",
    ];
    let signals = repeated_execution_signals(&repeated);
    assert!(signals.iter().any(|s| s == "strong performances"));
    assert!(signals.iter().any(|s| s == "tight pacing"));
    let keywords = execution_keywords_for_review(repeated[0], &signals);
    assert!(keywords.iter().any(|k| k.name == "strong performances"));
    assert!(keywords.iter().any(|k| k.name == "tight pacing"));
    let milli = |p: Option<i32>| p.map(|v| v as f32 / 1000.0);
    assert_eq!(milli(execution_signal_polarity("strong performances")), Some(1.0));
    assert_eq!(milli(execution_signal_polarity("slow pacing")), Some(-1.0));
}
