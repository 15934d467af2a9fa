//! Where a recommendation came from and which editorial mode it was given.
use vstd::prelude::*;
use crate::retrieve::{RetrievalKind, RetrievalSource};
use crate::score::CandidateScore;
use crate::text::{ascii_lower, chars_of, eq_str, lower_ascii};

verus! {

#[derive(Clone, Copy, PartialEq, Eq, Structural, Debug)]
pub enum RecommendationOrigin {
    Shortlist,
    Discovery,
}

#[derive(Clone, Copy, PartialEq, Eq, Structural, Debug)]
pub enum RecommendationMode {
    Core,
    DeepCut,
    Adjacent,
    Discovery,
}

pub open spec fn mode_of(raw: Seq<char>) -> RecommendationMode {
    let l = ascii_lower(raw);
    if l == "deepcut"@ || l == "deep cut"@ || l == "deep-cut"@ {
        RecommendationMode::DeepCut
    } else if l == "adjacent"@ {
        RecommendationMode::Adjacent
    } else if l == "discovery"@ {
        RecommendationMode::Discovery
    } else {
        RecommendationMode::Core
    }
}

impl RecommendationMode {
    /// Reads a model-supplied mode, ignoring ASCII case; unknown text is `Core`.
    pub fn parse(raw: &str) -> (m: Self)
        ensures
            m == mode_of(raw@),
    {
        let v = chars_of(raw);
        let l = lower_ascii(&v);
        if eq_str(&l, "deepcut") || eq_str(&l, "deep cut") || eq_str(&l, "deep-cut") {
            RecommendationMode::DeepCut
        } else if eq_str(&l, "adjacent") {
            RecommendationMode::Adjacent
        } else if eq_str(&l, "discovery") {
            RecommendationMode::Discovery
        } else {
            RecommendationMode::Core
        }
    }
}

/// The record of why one pick was shown.
#[derive(Clone, Debug)]
pub struct RecommendationProvenance {
    pub tmdb_id: Option<i64>,
    pub origin: RecommendationOrigin,
    pub retrieval_sources: Vec<RetrievalSource>,
    pub deterministic_score: CandidateScore,
    pub llm_mode: RecommendationMode,
    pub seed_films: Vec<String>,
    pub positive_features: Vec<String>,
    pub negative_features_considered: Vec<String>,
    pub call1_fit: Option<String>,
    pub call1_concerns: Vec<String>,
}

/// A pick is a discovery when any source is a discovery search.
pub fn origin_from_sources(sources: &[RetrievalSource]) -> (o: RecommendationOrigin)
    ensures
        (o == RecommendationOrigin::Discovery) == (exists|i: int|
            0 <= i < sources.len() && (#[trigger] sources@[i]).kind == RetrievalKind::Discovery),
{
    let mut i: usize = 0;
    while i < sources.len()
        invariant
            i <= sources.len(),
            forall|k: int| 0 <= k < i ==> (#[trigger] sources@[k]).kind != RetrievalKind::Discovery,
        decreases sources.len() - i,
    {
        if sources[i].kind == RetrievalKind::Discovery {
            return RecommendationOrigin::Discovery;
        }
        i += 1;
    }
    RecommendationOrigin::Shortlist
}

} // verus!
