use taste::runlog::runs_to_prune;

#[test]
fn prune_keeps_the_twenty_newest_run_logs() {
    let mut names: Vec<String> = (0..23).rev().map(|i| format!("2025010{}T0000{i:02}Z.json", i % 3)).collect();
    names.push("latest.json".into());
    names.push("notes.txt".into());
    let mut all_logs: Vec<String> = names.iter().filter(|n| n.ends_with(".json") && *n != "latest.json").cloned().collect();
    all_logs.sort();
    let out = runs_to_prune(&names);
    assert_eq!(out, all_logs[..3].to_vec());
}

#[test]
fn nothing_to_prune_under_the_limit() {
    let names: Vec<String> = (0..20).map(|i| format!("run{i:02}.json")).collect();
    assert!(runs_to_prune(&names).is_empty());
    assert!(runs_to_prune(&["latest.json".to_string()]).is_empty());
}
