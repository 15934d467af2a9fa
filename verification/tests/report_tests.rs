use std::collections::HashSet;
use taste::diagnostics::TasteDiagnostics;
use taste::explain::EligibilityTrace;
use taste::report::{filter_report, TastePick, TasteReport};

fn pick(title: &str, tmdb_id: Option<i64>) -> TastePick {
    TastePick {
        title: title.to_string(),
        year: Some(2001),
        poster: None,
        why: "why".to_string(),
        rhymes_with: vec!["Heat".to_string()],
        film_id: None,
        tmdb_id,
        source: "new".to_string(),
        reasons: vec![],
        scoring_reasons: vec![],
        evidence: vec![],
        evidence_items: vec![],
        mode: None,
        origin: None,
        origin_label: None,
        origin_display: None,
        matched_features: vec![],
        hidden_features: vec![],
        eligibility: EligibilityTrace::default(),
        match_score: 70,
        thin_evidence: false,
        semantic_fit: 500,
        semantic_coverage: false,
    }
}

fn report(new: Vec<TastePick>, explore: Vec<TastePick>, watch: Vec<TastePick>, picks: Vec<TastePick>) -> TasteReport {
    TasteReport {
        title: "Taste".to_string(),
        summary: "s".to_string(),
        affinities: vec![],
        aversions: vec![],
        dimensions: vec![],
        new_picks: new,
        explore_picks: explore,
        watchlist_picks: watch,
        picks,
        model: "m".to_string(),
        generated_at: "now".to_string(),
        rated_count: 10,
        web_used: false,
        note: None,
        run_log_path: None,
        run_id: "r".to_string(),
        diagnostics: TasteDiagnostics { exceptions: vec![], evidence_combinations: vec![] },
    }
}

fn titles(v: &[TastePick]) -> Vec<&str> {
    v.iter().map(|p| p.title.as_str()).collect()
}

#[test]
fn old_reports_move_their_picks_to_the_new_board() {
    let r = report(vec![], vec![pick("E", Some(9))], vec![], vec![pick("A", Some(1)), pick("B", None)]).normalize();
    assert_eq!(titles(&r.new_picks), vec!["A", "B"]);
    assert_eq!(titles(&r.picks), vec!["A", "B"]);
    assert_eq!(titles(&r.explore_picks), vec!["E"]);
}

#[test]
fn combined_list_is_new_then_watchlist() {
    let r = report(vec![pick("N", Some(1))], vec![pick("E", Some(2))], vec![pick("W", Some(3))], vec![pick("stale", None)])
        .normalize();
    assert_eq!(titles(&r.picks), vec!["N", "W"]);
    assert_eq!(r.picks[1].rhymes_with, vec!["Heat".to_string()]);
}

#[test]
fn hidden_films_leave_every_board() {
    let r = report(
        vec![pick("N1", Some(1)), pick("N2", Some(2)), pick("N3", None)],
        vec![pick("E", Some(2))],
        vec![pick("W", Some(3))],
        vec![],
    );
    let hide: HashSet<i64> = [2, 3].into_iter().collect();
    let r = filter_report(r, &hide);
    assert_eq!(titles(&r.new_picks), vec!["N1", "N3"]);
    assert!(r.explore_picks.is_empty());
    assert!(r.watchlist_picks.is_empty());
    assert_eq!(titles(&r.picks), vec!["N1", "N3"]);
    let again = filter_report(r, &hide);
    assert_eq!(titles(&again.new_picks), vec!["N1", "N3"]);
}
