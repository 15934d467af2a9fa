use taste::dimensions::{ModeFilm, ModeSignal};
use taste::features::{Credit, Keyword};

fn signal(weight: u32) -> ModeSignal {
    ModeSignal {
        affinity_preference: 640,
        recommendation_weight: weight,
        familiarity_strength: 0,
    }
}

fn film(title: &str, genres: &[&str], credits: Vec<Credit>, sig: ModeSignal, tmdb_id: i64) -> ModeFilm {
    ModeFilm {
        title: title.into(),
        rating: Some(4500),
        tmdb_id: Some(tmdb_id),
        genres: genres.iter().map(|g| g.to_string()).collect(),
        credits,
        keywords: vec![],
        signal: Some(sig),
        age_years: Some(400),
    }
}

fn credit(id: i64, name: &str, job: &str) -> Credit {
    Credit {
        id: Some(id),
        name: name.into(),
        job: job.into(),
    }
}

#[test]
fn comedy_and_visual_modes_coexist() {
    let director = vec![credit(1, "Someone", "Director")];
    let visual = vec![
        credit(1, "Someone", "Director"),
        credit(77, "Greig Fraser", "Director of Photography"),
    ];
    let mut films = Vec::new();
    for i in 0..6 {
        films.push(film(&format!("Laugh{i}"), &["Comedy"], director.clone(), signal(1000), i));
    }
    for i in 0..6 {
        films.push(film(&format!("Look{i}"), &["Crime"], visual.clone(), signal(1000), 100 + i));
    }
    let (_dims, modes, _) = taste::dimensions::derive(&films);
    let names: Vec<_> = modes.iter().map(|m| m.dimension.as_str()).collect();
    assert!(names.contains(&"comedy"), "{names:?}");
    assert!(names.contains(&"visual"), "{names:?}");
}

#[test]
fn dimension_strength_and_shares_are_exact() {
    let mut films = Vec::new();
    // three recent comedies of weight 1000, one old comedy of weight 500,
    // one disliked comedy that must not count
    for i in 0..3 {
        films.push(film(&format!("c{i}"), &["Comedy"], vec![], signal(1000), i));
    }
    let mut old = film("old", &["Comedy"], vec![], signal(500), 10);
    old.age_years = Some(9000);
    films.push(old);
    let mut disliked = film("bad", &["Comedy"], vec![], signal(1000), 11);
    disliked.signal = Some(ModeSignal {
        affinity_preference: -300,
        recommendation_weight: 1000,
        familiarity_strength: 0,
    });
    films.push(disliked);
    let (dims, modes, shifts) = taste::dimensions::derive(&films);
    assert_eq!(dims.len(), 1);
    assert_eq!(dims[0].name, "comedy");
    assert_eq!(dims[0].strength, 3500);
    assert_eq!(dims[0].recent_share, 857);
    assert_eq!(dims[0].long_term_share, 142);
    assert_eq!(dims[0].evidence.len(), 4);
    assert_eq!(dims[0].evidence[0].title, "c0");
    assert!(modes.is_empty());
    assert!(shifts.is_empty());
}

#[test]
fn evidence_is_capped_and_modes_sorted_by_strength() {
    let mut films = Vec::new();
    for i in 0..8 {
        films.push(film(&format!("h{i}"), &["Horror"], vec![], signal(500), i));
    }
    for i in 0..5 {
        films.push(film(&format!("m{i}"), &["Mystery"], vec![], signal(2000), 100 + i));
    }
    let (dims, modes, _) = taste::dimensions::derive(&films);
    let names: Vec<_> = dims.iter().map(|d| d.name.as_str()).collect();
    assert_eq!(names, vec!["intensity", "atmosphere"]);
    assert_eq!(dims[0].evidence.len(), 6);
    let mode_names: Vec<_> = modes.iter().map(|m| m.dimension.as_str()).collect();
    assert_eq!(mode_names, vec!["atmosphere", "intensity"]);
    assert_eq!(modes[0].strength, 10_000);
    assert_eq!(modes[1].strength, 4_000);
}

#[test]
fn shifts_need_enough_recent_and_older_films() {
    let mut films = Vec::new();
    for i in 0..8 {
        films.push(film(&format!("r{i}"), &["Comedy"], vec![], signal(1000), i));
    }
    for i in 0..20 {
        let mut f = film(&format!("o{i}"), &["Drama"], vec![], signal(1000), 100 + i);
        f.age_years = Some(5000);
        films.push(f);
    }
    let (_dims, modes, shifts) = taste::dimensions::derive(&films);
    assert_eq!(modes.len(), 2);
    assert_eq!(shifts.len(), 2);
    let story = shifts.iter().find(|s| s.dimension == "story").unwrap();
    assert_eq!(story.recent, 0);
    assert_eq!(story.long_term, 714);
    assert_eq!(story.delta, -714);
    let comedy = shifts.iter().find(|s| s.dimension == "comedy").unwrap();
    assert_eq!(comedy.delta, 285);

    // one older film fewer: no shifts
    films.pop();
    let (_dims, _modes, shifts) = taste::dimensions::derive(&films);
    assert!(shifts.is_empty());
}

#[test]
fn evidence_keeps_taste_signal_keywords_only() {
    let mut f = film("k", &["Comedy"], vec![credit(5, "A Person", "Writer")], signal(1000), 1);
    f.keywords = vec![
        Keyword {
            id: None,
            name: "heist".into(),
        },
        Keyword {
            id: None,
            name: "duringcreditsstinger".into(),
        },
    ];
    let (dims, _, _) = taste::dimensions::derive(&[f]);
    let story = dims.iter().find(|d| d.name == "story").unwrap();
    assert_eq!(story.evidence[0].keywords, vec!["heist".to_string()]);
    assert_eq!(story.evidence[0].people, vec!["A Person".to_string()]);
    assert_eq!(story.evidence[0].rating, 4500);
}
