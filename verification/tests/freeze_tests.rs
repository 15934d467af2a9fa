use taste::discover::{DISCOVERY_FLOOR, MAX_DISCOVERIES};
use taste::preference::{
    ABSOLUTE_NEUTRAL, HEART_WEIGHT, RECENCY_LAMBDA, RECENCY_MAX, RECENCY_MIN, RELATIVE_CLAMP,
    STD_FLOOR,
};
use taste::score::{
    FROZEN_FORMULA_ID, W_CONTENT, W_FRIEND, W_NEGATIVE, W_NOVELTY, W_RECENT, W_SEMANTIC, W_TMDB,
    W_WATCHLIST,
};

/// A constant held in thousandths, as the decimal it stands for.
fn milli(x: i64) -> f32 {
    x as f32 / 1000.0
}

#[test]
fn scoring_weights_match_baseline_snapshot() {
    assert_eq!(milli(W_CONTENT as i64), 0.45);
    assert_eq!(milli(W_TMDB as i64), 0.20);
    assert_eq!(milli(W_FRIEND as i64), 0.15);
    assert_eq!(milli(W_RECENT as i64), 0.10);
    assert_eq!(milli(W_WATCHLIST as i64), 0.05);
    assert_eq!(milli(W_NOVELTY as i64), 0.05);
    assert_eq!(milli(W_NEGATIVE as i64), 0.35);
    assert_eq!(milli(W_SEMANTIC as i64), 0.35);
    assert_eq!(
        FROZEN_FORMULA_ID,
        "w-content-0.45-tmdb-0.20-friend-0.15-recent-0.10-watchlist-0.05-novelty-0.05-negative-0.35-semantic-blend-0.35"
    );
}

#[test]
fn preference_constants_match_baseline_snapshot() {
    assert_eq!(milli(RECENCY_MAX as i64), 1.35);
    assert_eq!(milli(RECENCY_MIN as i64), 0.70);
    assert_eq!(milli(RECENCY_LAMBDA as i64), 0.51);
    assert_eq!(milli(STD_FLOOR as i64), 0.35);
    assert_eq!(milli(ABSOLUTE_NEUTRAL as i64), 3.0);
    assert_eq!(milli(HEART_WEIGHT as i64), 1.25);
    assert_eq!(milli(RELATIVE_CLAMP as i64), 2.5);
}

#[test]
fn floor_constant() {
    assert!(milli(DISCOVERY_FLOOR as i64) > 0.0);
}

#[test]
fn discovery_limits() {
    assert_eq!(MAX_DISCOVERIES, 3);
    assert_eq!(DISCOVERY_FLOOR, 120);
}
