//! Frozen constants of the continuous preference signals, in thousandths.
use vstd::prelude::*;

verus! {

/// Largest recency weight.
pub const RECENCY_MAX: i32 = 1350;
/// Smallest recency weight.
pub const RECENCY_MIN: i32 = 700;
/// Yearly decay rate of the recency weight.
pub const RECENCY_LAMBDA: i32 = 510;
/// Smallest rating spread used to normalise relative preference.
pub const STD_FLOOR: i32 = 350;
/// The rating (in stars) that counts as neither liked nor disliked.
pub const ABSOLUTE_NEUTRAL: i32 = 3000;
/// Weight of a hearted film.
pub const HEART_WEIGHT: i32 = 1250;
/// Bound on the relative preference, in standard deviations.
pub const RELATIVE_CLAMP: i32 = 2500;
/// Ratings needed before relative preference is computed.
pub const MIN_RATINGS: usize = 8;

} // verus!
