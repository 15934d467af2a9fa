//! Taste: the deterministic core of a film-taste recommender.
use vstd::prelude::*;

pub mod text;
pub mod features;
pub mod retrieve;
pub mod explain;
pub mod score;
pub mod confidence;
pub mod ranking;
pub mod feedback;
pub mod provenance;
pub mod dimensions;
pub mod eval;
pub mod model;
pub mod jsontext;
pub mod reason;
pub mod cache;
pub mod discover;
pub mod preference;
pub mod pool;
pub mod gather;
pub mod picks;
pub mod diagnostics;
pub mod profile;
pub mod friends;
pub mod snapshot;
pub mod catalog;
pub mod sampling;
pub mod replay;
pub mod runlog;
pub mod fit;
pub mod assemble;
pub mod analysis;
pub mod report;
pub mod observe;

verus! {
} // verus!
