use taste::analysis::{analysis_step, idle_analysis, AnalysisAction, AnalysisEvent, AnalysisStage, AnalysisState};

fn begin(rated: usize, web: bool, force_refresh: bool) -> (AnalysisState, AnalysisAction) {
    analysis_step(
        idle_analysis(),
        AnalysisEvent::Begin {
            rated,
            model: "deepseek/deepseek-v4-pro-0813".to_string(),
            web,
            force_refresh,
        },
    )
}

fn message(a: &AnalysisAction) -> String {
    match a {
        AnalysisAction::Fail { message } => message.clone(),
        other => panic!("expected a failure, got {other:?}"),
    }
}

#[test]
fn too_few_ratings_fail_first() {
    let (s, a) = begin(7, false, false);
    assert_eq!(s.stage, AnalysisStage::Failed);
    assert_eq!(message(&a), "Rate at least 8 films first so the agent has edges to work with.");
}

#[test]
fn usable_cache_finishes_from_the_snapshot() {
    let (s, a) = begin(8, false, false);
    assert!(matches!(a, AnalysisAction::CheckCache));
    let (s, a) = analysis_step(s, AnalysisEvent::CacheChecked { usable: true });
    assert!(matches!(a, AnalysisAction::UseSnapshot));
    assert_eq!(s.stage, AnalysisStage::Done);
}

#[test]
fn forced_refresh_skips_the_cache_and_needs_a_key() {
    let (s, a) = begin(20, false, true);
    assert!(matches!(a, AnalysisAction::ReadKey));
    let (s, a) = analysis_step(s, AnalysisEvent::KeyRead { present: false });
    assert_eq!(s.stage, AnalysisStage::Failed);
    assert_eq!(
        message(&a),
        "Add an OpenRouter key in Settings. DeepSeek V4 Pro 0813 is the recommended default."
    );
}

#[test]
fn empty_shortlist_fails() {
    let (s, _) = begin(20, false, true);
    let (s, _) = analysis_step(s, AnalysisEvent::KeyRead { present: true });
    let (s, a) = analysis_step(s, AnalysisEvent::Shortlisted { size: 0, semantic_error: None });
    assert_eq!(s.stage, AnalysisStage::Failed);
    assert_eq!(message(&a), "Could not build a candidate shortlist. Finish matching posters, then try again.");
}

#[test]
fn a_stalled_critic_falls_back_and_discovery_runs_three_queries() {
    let (s, _) = begin(20, true, false);
    let (s, _) = analysis_step(s, AnalysisEvent::CacheChecked { usable: false });
    let (s, a) = analysis_step(s, AnalysisEvent::KeyRead { present: true });
    assert!(matches!(a, AnalysisAction::Score));
    let (s, a) = analysis_step(
        s,
        AnalysisEvent::Shortlisted { size: 12, semantic_error: Some("rate limited".to_string()) },
    );
    assert!(matches!(&a, AnalysisAction::AskCritic { model } if model == "deepseek/deepseek-v4-pro-0813"));
    assert_eq!(s.note.as_deref(), Some("Semantic fit was partially unavailable: rate limited"));
    let (s, a) = analysis_step(
        s,
        AnalysisEvent::CriticAnswered { error: Some("HTTP 502 Bad Gateway".to_string()), queries: 0 },
    );
    assert_eq!(s.stage, AnalysisStage::Retrying);
    assert!(matches!(&a, AnalysisAction::AskCritic { model } if model == "google/gemini-3.7-flash"));
    assert_eq!(
        s.note.as_deref(),
        Some("Fell back to Gemini 3.7 Flash after DeepSeek V4 Pro 0813 stalled on the critic pass.")
    );
    let (s, a) = analysis_step(s, AnalysisEvent::CriticAnswered { error: None, queries: 5 });
    assert!(matches!(&a, AnalysisAction::Discover { model, query: 0 } if model == "google/gemini-3.7-flash"));
    assert_eq!(s.queries, 3);
    let (s, a) = analysis_step(s, AnalysisEvent::DiscoveryAnswered { used_web: false });
    assert!(matches!(a, AnalysisAction::Discover { query: 1, .. }));
    let (s, _) = analysis_step(s, AnalysisEvent::DiscoveryAnswered { used_web: true });
    let (s, a) = analysis_step(s, AnalysisEvent::DiscoveryAnswered { used_web: false });
    assert!(matches!(&a, AnalysisAction::AskReasoner { model } if model == "google/gemini-3.7-flash"));
    assert!(s.used_web);
    let (s, a) = analysis_step(s, AnalysisEvent::ReasonerAnswered { error: None });
    assert!(matches!(a, AnalysisAction::Record));
    let (s, a) = analysis_step(s, AnalysisEvent::RunLogged { error: Some("disk full".to_string()) });
    assert!(matches!(a, AnalysisAction::Finish));
    assert_eq!(s.stage, AnalysisStage::Done);
    assert_eq!(
        s.note.as_deref(),
        Some("Fell back to Gemini 3.7 Flash after DeepSeek V4 Pro 0813 stalled on the critic pass. Run log failed: disk full")
    );
}

#[test]
fn other_critic_errors_go_on_with_an_empty_critique() {
    let (s, _) = begin(20, true, true);
    let (s, _) = analysis_step(s, AnalysisEvent::KeyRead { present: true });
    let (s, _) = analysis_step(s, AnalysisEvent::Shortlisted { size: 3, semantic_error: None });
    let (s, a) = analysis_step(
        s,
        AnalysisEvent::CriticAnswered { error: Some("invalid api key".to_string()), queries: 4 },
    );
    assert!(matches!(&a, AnalysisAction::AskReasoner { model } if model == "deepseek/deepseek-v4-pro-0813"));
    assert_eq!(s.note, None);
    let (s, a) = analysis_step(s, AnalysisEvent::ReasonerAnswered { error: Some("boom".to_string()) });
    assert_eq!(s.stage, AnalysisStage::Failed);
    assert_eq!(message(&a), "taste profile · DeepSeek V4 Pro 0813: boom");
}

#[test]
fn events_out_of_turn_change_nothing() {
    let (s, _) = begin(20, false, false);
    let (s, a) = analysis_step(s, AnalysisEvent::RunLogged { error: None });
    assert!(matches!(a, AnalysisAction::Wait));
    assert_eq!(s.stage, AnalysisStage::CheckingCache);
}
