//! Scored candidates: the shape of a candidate after deterministic scoring,
//! and the frozen scoring weights.
use vstd::prelude::*;
use crate::explain::{EligibilityTrace, MatchedFeatureView};
use crate::retrieve::{MediaKind, RetrievalKind, RetrievalSource};

verus! {

/// Frozen blend weights of the deterministic score, in thousandths.
pub const W_CONTENT: u32 = 450;
pub const W_TMDB: u32 = 200;
pub const W_FRIEND: u32 = 150;
pub const W_RECENT: u32 = 100;
pub const W_WATCHLIST: u32 = 50;
pub const W_NOVELTY: u32 = 50;
pub const W_NEGATIVE: u32 = 350;
pub const W_SEMANTIC: u32 = 350;

/// Formula id mixed into scoring fingerprints; it changes exactly when the
/// weights above do.
pub const FROZEN_FORMULA_ID: &'static str = "w-content-0.45-tmdb-0.20-friend-0.15-recent-0.10-watchlist-0.05-novelty-0.05-negative-0.35-semantic-blend-0.35";

/// Runtime (minutes) below which a title counts as a short, not a feature.
pub const FEATURE_RUNTIME_MIN: i32 = 40;

/// The candidate as the scorer saw it.
#[derive(Clone, Debug)]
pub struct CandidateView {
    pub tmdb_id: Option<i64>,
    pub title: String,
    pub year: Option<i32>,
    pub poster: Option<String>,
    pub watchlist: bool,
    pub sources: Vec<RetrievalSource>,
    pub directors: Vec<String>,
    pub genres: Vec<String>,
    pub modes: Vec<String>,
    pub media_kind: MediaKind,
    pub runtime: Option<i32>,
    pub vote_count: Option<i64>,
}

/// Score components, in thousandths.
#[derive(Clone, Copy, Debug)]
pub struct CandidateScore {
    pub content: i32,
    pub tmdb_related: i32,
    pub friend_affinity: i32,
    pub recent_taste: i32,
    pub watchlist: i32,
    pub novelty: i32,
    pub negative_evidence: i32,
    pub semantic_fit: i32,
    pub semantic_coverage: bool,
    pub total: i32,
}

#[derive(Clone, Debug)]
pub struct ScoredCandidate {
    pub candidate: CandidateView,
    pub score: CandidateScore,
    pub reasons: Vec<String>,
    pub evidence: Vec<String>,
    pub positive_features: Vec<String>,
    pub negative_features: Vec<String>,
    pub contextual_only: bool,
    pub person_keys: Vec<String>,
    pub display_reasons: Vec<String>,
    pub scoring_reasons: Vec<String>,
    pub matched_features: Vec<MatchedFeatureView>,
    pub hidden_features: Vec<MatchedFeatureView>,
    pub eligibility: EligibilityTrace,
}

/// The distinct seed ids of TMDB-recommendation sources, in first-seen order.
pub open spec fn rec_seed_ids(s: Seq<RetrievalSource>) -> Seq<i64>
    decreases s.len(),
{
    if s.len() == 0 {
        Seq::empty()
    } else {
        let r = rec_seed_ids(s.drop_last());
        let last = s.last();
        if last.kind == RetrievalKind::RelatedRecommendations && last.seed_tmdb_id.is_some()
            && !r.contains(last.seed_tmdb_id.unwrap()) {
            r.push(last.seed_tmdb_id.unwrap())
        } else {
            r
        }
    }
}

/// Number of distinct loved films whose TMDB recommendations retrieved the
/// candidate. Retrieval expands only positively rated seeds, so every
/// recommendation seed is a loved film.
pub open spec fn loved_rec_seeds(c: &ScoredCandidate) -> nat {
    rec_seed_ids(c.candidate.sources@).len()
}

proof fn lemma_rec_seed_ids_len(s: Seq<RetrievalSource>)
    ensures
        rec_seed_ids(s).len() <= s.len(),
    decreases s.len(),
{
    if s.len() > 0 {
        lemma_rec_seed_ids_len(s.drop_last());
    }
}

fn contains_id(v: &Vec<i64>, x: i64) -> (b: bool)
    ensures
        b == v@.contains(x),
{
    let mut i: usize = 0;
    while i < v.len()
        invariant
            i <= v.len(),
            forall|k: int| 0 <= k < i ==> v@[k] != x,
        decreases v.len() - i,
    {
        if v[i] == x {
            return true;
        }
        i += 1;
    }
    false
}

/// Distinct loved recommendation seeds of a candidate.
pub fn unique_loved_rec_seeds(c: &ScoredCandidate) -> (n: usize)
    ensures
        n == loved_rec_seeds(c),
{
    let s = &c.candidate.sources;
    let mut ids: Vec<i64> = Vec::new();
    let mut i: usize = 0;
    while i < s.len()
        invariant
            i <= s.len(),
            ids@ == rec_seed_ids(s@.take(i as int)),
        decreases s.len() - i,
    {
        assert(s@.take((i + 1) as int).drop_last() =~= s@.take(i as int));
        if s[i].kind == RetrievalKind::RelatedRecommendations {
            match s[i].seed_tmdb_id {
                Some(id) => {
                    if !contains_id(&ids, id) {
                        ids.push(id);
                    }
                },
                None => {},
            }
        }
        i += 1;
    }
    assert(s@.take(s.len() as int) =~= s@);
    ids.len()
}

} // verus!
