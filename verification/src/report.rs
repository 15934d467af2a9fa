//! The report a taste analysis produces: its picks on the three boards and
//! the combined list, kept consistent when the report is loaded and when
//! hidden films are filtered out.
use vstd::prelude::*;
use std::collections::HashSet;
use crate::diagnostics::TasteDiagnostics;
use crate::explain::{EligibilityTrace, MatchedFeatureView};
use crate::picks::{copy_feature, same_feature, same_features};
use crate::pool::opt_text;
use crate::profile::copy_string_vec;
use crate::reason::{TasteAffinity, TasteDimension, TasteEvidence};
use crate::confidence::{capped_score_spec, limited_spec, match_score, thin_evidence, year_read};
use crate::explain::{
    canonical_lines, format_provenance, ground_why, ground_why_spec, join, kind_label,
    primary_retrieval, provenance_parts,
};
use crate::features::strs;
use crate::picks::pick_reasons;
use crate::provenance::{
    mode_of, origin_from_sources, RecommendationMode, RecommendationOrigin, RecommendationProvenance,
};
use crate::reason::{CandidateAssessment, ReasonerPick};
use crate::retrieve::{RetrievalKind, RetrievalSource};
use crate::score::ScoredCandidate;
use crate::text::{chars_of, trim, trimmed};

verus! {

/// One recommended film as the report shows it. `semantic_fit` is in
/// thousandths.
#[derive(Debug)]
pub struct TastePick {
    pub title: String,
    pub year: Option<i32>,
    pub poster: Option<String>,
    pub why: String,
    pub rhymes_with: Vec<String>,
    pub film_id: Option<String>,
    pub tmdb_id: Option<i64>,
    pub source: String,
    pub reasons: Vec<String>,
    pub scoring_reasons: Vec<String>,
    pub evidence: Vec<String>,
    pub evidence_items: Vec<TasteEvidence>,
    pub mode: Option<String>,
    pub origin: Option<String>,
    pub origin_label: Option<String>,
    pub origin_display: Option<String>,
    pub matched_features: Vec<MatchedFeatureView>,
    pub hidden_features: Vec<MatchedFeatureView>,
    pub eligibility: EligibilityTrace,
    pub match_score: u8,
    pub thin_evidence: bool,
    pub semantic_fit: i32,
    pub semantic_coverage: bool,
}

/// A finished analysis: the narrative, the three boards of picks, the
/// combined list (new picks, then watchlist picks) and the run's facts.
#[derive(Debug)]
pub struct TasteReport {
    pub title: String,
    pub summary: String,
    pub affinities: Vec<TasteAffinity>,
    pub aversions: Vec<TasteAffinity>,
    pub dimensions: Vec<TasteDimension>,
    pub new_picks: Vec<TastePick>,
    pub explore_picks: Vec<TastePick>,
    pub watchlist_picks: Vec<TastePick>,
    pub picks: Vec<TastePick>,
    pub model: String,
    pub generated_at: String,
    pub rated_count: u32,
    pub web_used: bool,
    pub note: Option<String>,
    pub run_log_path: Option<String>,
    pub run_id: String,
    pub diagnostics: TasteDiagnostics,
}

pub open spec fn same_evidence_item(a: TasteEvidence, b: TasteEvidence) -> bool {
    &&& a.title@ == b.title@
    &&& opt_text(a.film_id) == opt_text(b.film_id)
    &&& a.tmdb_id == b.tmdb_id
    &&& opt_text(a.poster) == opt_text(b.poster)
}

pub open spec fn same_trace(a: EligibilityTrace, b: EligibilityTrace) -> bool {
    &&& a.portable_evidence_required == b.portable_evidence_required
    &&& a.passed == b.passed
    &&& strs(a.passed_because@) == strs(b.passed_because@)
    &&& a.candidate_fit == b.candidate_fit
    &&& a.evidence_grade == b.evidence_grade
}

/// Two picks show the same thing.
pub open spec fn same_pick(a: TastePick, b: TastePick) -> bool {
    &&& a.title@ == b.title@
    &&& a.year == b.year
    &&& opt_text(a.poster) == opt_text(b.poster)
    &&& a.why@ == b.why@
    &&& strs(a.rhymes_with@) == strs(b.rhymes_with@)
    &&& opt_text(a.film_id) == opt_text(b.film_id)
    &&& a.tmdb_id == b.tmdb_id
    &&& a.source@ == b.source@
    &&& strs(a.reasons@) == strs(b.reasons@)
    &&& strs(a.scoring_reasons@) == strs(b.scoring_reasons@)
    &&& strs(a.evidence@) == strs(b.evidence@)
    &&& a.evidence_items@.len() == b.evidence_items@.len()
    &&& (forall|k: int| 0 <= k < a.evidence_items@.len() ==> same_evidence_item(#[trigger] a.evidence_items@[k], b.evidence_items@[k]))
    &&& opt_text(a.mode) == opt_text(b.mode)
    &&& opt_text(a.origin) == opt_text(b.origin)
    &&& opt_text(a.origin_label) == opt_text(b.origin_label)
    &&& opt_text(a.origin_display) == opt_text(b.origin_display)
    &&& same_features(a.matched_features@, b.matched_features@)
    &&& same_features(a.hidden_features@, b.hidden_features@)
    &&& same_trace(a.eligibility, b.eligibility)
    &&& a.match_score == b.match_score
    &&& a.thin_evidence == b.thin_evidence
    &&& a.semantic_fit == b.semantic_fit
    &&& a.semantic_coverage == b.semantic_coverage
}

/// The two lists hold the same picks, in order.
pub open spec fn same_picks(a: Seq<TastePick>, b: Seq<TastePick>) -> bool {
    &&& a.len() == b.len()
    &&& forall|k: int| 0 <= k < a.len() ==> same_pick(#[trigger] a[k], b[k])
}

fn copy_text(o: &Option<String>) -> (c: Option<String>)
    ensures
        opt_text(c) == opt_text(*o),
{
    match o {
        Some(t) => Some(t.clone()),
        None => None,
    }
}

fn copy_items(v: &Vec<TasteEvidence>) -> (out: Vec<TasteEvidence>)
    ensures
        out@.len() == v@.len(),
        forall|k: int| 0 <= k < v@.len() ==> same_evidence_item(#[trigger] out@[k], v@[k]),
{
    let mut out: Vec<TasteEvidence> = Vec::new();
    let mut i: usize = 0;
    while i < v.len()
        invariant
            i <= v.len(),
            out@.len() == i,
            forall|k: int| 0 <= k < i ==> same_evidence_item(#[trigger] out@[k], v@[k]),
        decreases v.len() - i,
    {
        let e = &v[i];
        out.push(
            TasteEvidence {
                title: e.title.clone(),
                film_id: copy_text(&e.film_id),
                tmdb_id: e.tmdb_id,
                poster: copy_text(&e.poster),
            },
        );
        i += 1;
    }
    out
}

fn copy_features(v: &Vec<MatchedFeatureView>) -> (out: Vec<MatchedFeatureView>)
    ensures
        same_features(out@, v@),
{
    let mut out: Vec<MatchedFeatureView> = Vec::new();
    let mut i: usize = 0;
    while i < v.len()
        invariant
            i <= v.len(),
            out@.len() == i,
            forall|k: int| 0 <= k < i ==> same_feature(#[trigger] out@[k], v@[k]),
        decreases v.len() - i,
    {
        out.push(copy_feature(&v[i]));
        i += 1;
    }
    out
}

fn copy_pick(p: &TastePick) -> (c: TastePick)
    ensures
        same_pick(c, *p),
{
    TastePick {
        title: p.title.clone(),
        year: p.year,
        poster: copy_text(&p.poster),
        why: p.why.clone(),
        rhymes_with: copy_string_vec(&p.rhymes_with),
        film_id: copy_text(&p.film_id),
        tmdb_id: p.tmdb_id,
        source: p.source.clone(),
        reasons: copy_string_vec(&p.reasons),
        scoring_reasons: copy_string_vec(&p.scoring_reasons),
        evidence: copy_string_vec(&p.evidence),
        evidence_items: copy_items(&p.evidence_items),
        mode: copy_text(&p.mode),
        origin: copy_text(&p.origin),
        origin_label: copy_text(&p.origin_label),
        origin_display: copy_text(&p.origin_display),
        matched_features: copy_features(&p.matched_features),
        hidden_features: copy_features(&p.hidden_features),
        eligibility: EligibilityTrace {
            portable_evidence_required: p.eligibility.portable_evidence_required,
            passed: p.eligibility.passed,
            passed_because: copy_string_vec(&p.eligibility.passed_because),
            candidate_fit: p.eligibility.candidate_fit,
            evidence_grade: p.eligibility.evidence_grade,
        },
        match_score: p.match_score,
        thin_evidence: p.thin_evidence,
        semantic_fit: p.semantic_fit,
        semantic_coverage: p.semantic_coverage,
    }
}

/// Copies of the new picks followed by the watchlist picks.
fn combined(new_picks: &Vec<TastePick>, watchlist_picks: &Vec<TastePick>) -> (out: Vec<TastePick>)
    ensures
        same_picks(out@, new_picks@ + watchlist_picks@),
{
    let ghost all = new_picks@ + watchlist_picks@;
    let mut out: Vec<TastePick> = Vec::new();
    let mut i: usize = 0;
    while i < new_picks.len()
        invariant
            i <= new_picks.len(),
            all == new_picks@ + watchlist_picks@,
            out@.len() == i,
            forall|k: int| 0 <= k < i ==> same_pick(#[trigger] out@[k], all[k]),
        decreases new_picks.len() - i,
    {
        out.push(copy_pick(&new_picks[i]));
        i += 1;
    }
    let mut j: usize = 0;
    while j < watchlist_picks.len()
        invariant
            j <= watchlist_picks.len(),
            all == new_picks@ + watchlist_picks@,
            out@.len() == new_picks@.len() + j,
            forall|k: int| 0 <= k < out@.len() ==> same_pick(#[trigger] out@[k], all[k]),
        decreases watchlist_picks.len() - j,
    {
        assert(all[new_picks@.len() + j] == watchlist_picks@[j as int]);
        out.push(copy_pick(&watchlist_picks[j]));
        j += 1;
    }
    out
}

/// The report's fields besides its picks are the same.
pub open spec fn same_narrative(a: TasteReport, b: TasteReport) -> bool {
    &&& a.title == b.title
    &&& a.summary == b.summary
    &&& a.affinities == b.affinities
    &&& a.aversions == b.aversions
    &&& a.dimensions == b.dimensions
    &&& a.model == b.model
    &&& a.generated_at == b.generated_at
    &&& a.rated_count == b.rated_count
    &&& a.web_used == b.web_used
    &&& a.note == b.note
    &&& a.run_log_path == b.run_log_path
    &&& a.run_id == b.run_id
    &&& a.diagnostics == b.diagnostics
}

impl TasteReport {
    /// A report as stored by an older version has only the combined list:
    /// its picks then become the new picks. The combined list is always
    /// the new picks followed by the watchlist picks.
    pub fn normalize(self) -> (r: Self)
        ensures
            same_narrative(r, self),
            r.explore_picks == self.explore_picks,
            r.watchlist_picks == self.watchlist_picks,
            if self.new_picks@.len() == 0 && self.watchlist_picks@.len() == 0 && self.picks@.len() > 0 {
                same_picks(r.new_picks@, self.picks@)
            } else {
                r.new_picks == self.new_picks
            },
            same_picks(r.picks@, r.new_picks@ + r.watchlist_picks@),
    {
        let mut report = self;
        if report.new_picks.len() == 0 && report.watchlist_picks.len() == 0 && report.picks.len() > 0 {
            let empty: Vec<TastePick> = Vec::new();
            report.new_picks = combined(&report.picks, &empty);
            assert(report.picks@ + empty@ =~= report.picks@);
        }
        report.picks = combined(&report.new_picks, &report.watchlist_picks);
        report
    }
}

/// The pick stays: it has no TMDB id, or its id is not hidden.
pub open spec fn kept(p: TastePick, hide: Set<i64>) -> bool {
    match p.tmdb_id {
        Some(id) => !hide.contains(id),
        None => true,
    }
}

/// The picks of `v` that stay, in order.
pub open spec fn kept_picks(v: Seq<TastePick>, hide: Set<i64>) -> Seq<TastePick>
    decreases v.len(),
{
    if v.len() == 0 {
        Seq::empty()
    } else {
        let r = kept_picks(v.drop_last(), hide);
        if kept(v.last(), hide) {
            r.push(v.last())
        } else {
            r
        }
    }
}

fn is_kept(p: &TastePick, hide: &HashSet<i64>) -> (b: bool)
    ensures
        b == kept(*p, hide@),
{
    broadcast use vstd::std_specs::hash::group_hash_axioms;

    match p.tmdb_id {
        Some(id) => !hide.contains(&id),
        None => true,
    }
}

fn retain_kept(v: Vec<TastePick>, hide: &HashSet<i64>) -> (out: Vec<TastePick>)
    ensures
        out@ == kept_picks(v@, hide@),
{
    let ghost orig = v@;
    let mut rest = v;
    let mut out: Vec<TastePick> = Vec::new();
    let n = rest.len();
    let mut i: usize = 0;
    while i < n
        invariant
            i <= n,
            orig.len() == n,
            rest@.len() + i == n,
            rest@ == orig.subrange(i as int, n as int),
            out@ == kept_picks(orig.take(i as int), hide@),
        decreases n - i,
    {
        assert(orig.take(i + 1).drop_last() =~= orig.take(i as int));
        let p = rest.remove(0);
        assert(p == orig[i as int]);
        if is_kept(&p, hide) {
            out.push(p);
        }
        i += 1;
        assert(rest@ =~= orig.subrange(i as int, n as int));
    }
    assert(orig.take(n as int) =~= orig);
    out
}

/// The report without the hidden films: each board keeps its picks whose
/// TMDB id is not hidden (picks without an id stay), and the combined list
/// is rebuilt from the new and watchlist picks.
pub fn filter_report(report: TasteReport, hide: &HashSet<i64>) -> (r: TasteReport)
    ensures
        same_narrative(r, report),
        r.new_picks@ == kept_picks(report.new_picks@, hide@),
        r.explore_picks@ == kept_picks(report.explore_picks@, hide@),
        r.watchlist_picks@ == kept_picks(report.watchlist_picks@, hide@),
        same_picks(r.picks@, r.new_picks@ + r.watchlist_picks@),
{
    let TasteReport {
        title,
        summary,
        affinities,
        aversions,
        dimensions,
        new_picks,
        explore_picks,
        watchlist_picks,
        picks: _,
        model,
        generated_at,
        rated_count,
        web_used,
        note,
        run_log_path,
        run_id,
        diagnostics,
    } = report;
    let new_picks = retain_kept(new_picks, hide);
    let explore_picks = retain_kept(explore_picks, hide);
    let watchlist_picks = retain_kept(watchlist_picks, hide);
    let picks = combined(&new_picks, &watchlist_picks);
    TasteReport {
        title,
        summary,
        affinities,
        aversions,
        dimensions,
        new_picks,
        explore_picks,
        watchlist_picks,
        picks,
        model,
        generated_at,
        rated_count,
        web_used,
        note,
        run_log_path,
        run_id,
        diagnostics,
    }
}

/// Filtering twice with the same hidden films changes nothing more.
pub proof fn lemma_filter_idempotent(v: Seq<TastePick>, hide: Set<i64>)
    ensures
        kept_picks(kept_picks(v, hide), hide) == kept_picks(v, hide),
    decreases v.len(),
{
    if v.len() > 0 {
        lemma_filter_idempotent(v.drop_last(), hide);
        let r = kept_picks(v.drop_last(), hide);
        if kept(v.last(), hide) {
            assert(r.push(v.last()).drop_last() =~= r);
            assert(r.push(v.last()).last() == v.last());
        }
    }
}

/// No pick that stays has a hidden TMDB id.
pub proof fn lemma_kept_are_not_hidden(v: Seq<TastePick>, hide: Set<i64>)
    ensures
        forall|k: int| 0 <= k < kept_picks(v, hide).len() ==> kept(#[trigger] kept_picks(v, hide)[k], hide),
    decreases v.len(),
{
    if v.len() > 0 {
        lemma_kept_are_not_hidden(v.drop_last(), hide);
        let r = kept_picks(v.drop_last(), hide);
        assert forall|k: int| 0 <= k < kept_picks(v, hide).len() implies kept(#[trigger] kept_picks(v, hide)[k], hide) by {
            if k < r.len() {
                assert(kept_picks(v, hide)[k] == r[k]);
            }
        }
    }
}


/// The reasoner's explanation of its pick, when it gave a non-blank one.
pub open spec fn reasoner_why(rp: Option<ReasonerPick>) -> Seq<char> {
    match rp {
        Some(p) => if trim(p.why@).len() > 0 {
            p.why@
        } else {
            Seq::empty()
        },
        None => Seq::empty(),
    }
}

/// The reasoner's mode for its pick, when it gave one.
pub open spec fn reasoner_mode(rp: Option<ReasonerPick>) -> Option<Seq<char>> {
    match rp {
        Some(p) => if p.mode@.len() > 0 {
            Some(p.mode@)
        } else {
            None
        },
        None => None,
    }
}

/// The reasons a pick shows: its display reasons, or its reasons when it
/// has none, with duplicates collapsed.
pub open spec fn shown_reasons(s: ScoredCandidate) -> Seq<Seq<char>> {
    canonical_lines(
        if s.display_reasons@.len() == 0 {
            strs(s.reasons@)
        } else {
            strs(s.display_reasons@)
        },
    )
}

pub open spec fn non_empty(t: Seq<char>) -> Option<Seq<char>> {
    if t.len() == 0 {
        None
    } else {
        Some(t)
    }
}

/// Where a pick was retrieved from: the kind of its first source, or
/// "unknown" when it has none; and that source's label.
pub open spec fn first_retrieval(s: ScoredCandidate) -> (Seq<char>, Seq<char>) {
    if s.candidate.sources@.len() == 0 {
        ("unknown"@, Seq::empty())
    } else {
        (kind_label(s.candidate.sources@[0].kind), s.candidate.sources@[0].label@)
    }
}

/// A pick as the report shows it, from its scored row and what the run
/// learned of it: the reasoner's pick that matched it, if any; its poster
/// and library id; where it came from (`origin`); its evidence films; and
/// the semantic blend its match percent starts from. The match percent is
/// taken at the current year (see [`match_score`]).
pub fn taste_pick(
    scored: &ScoredCandidate,
    reasoner_pick: Option<&ReasonerPick>,
    poster: Option<String>,
    film_id: Option<String>,
    origin: &str,
    evidence: Vec<String>,
    evidence_items: Vec<TasteEvidence>,
    blend: u8,
) -> (p: TastePick)
    ensures
        p.title@ == scored.candidate.title@,
        p.year == scored.candidate.year,
        p.poster == poster,
        p.why@ == ground_why_spec(
            reasoner_why(
                match reasoner_pick {
                    Some(r) => Some(*r),
                    None => None,
                },
            ),
            shown_reasons(*scored),
            scored.hidden_features@,
        ),
        strs(p.rhymes_with@) == strs(evidence@),
        p.film_id == film_id,
        p.tmdb_id == scored.candidate.tmdb_id,
        p.source@ == origin@,
        strs(p.reasons@) == shown_reasons(*scored),
        strs(p.scoring_reasons@) == strs(scored.scoring_reasons@),
        p.evidence == evidence,
        p.evidence_items == evidence_items,
        opt_text(p.mode) == reasoner_mode(
            match reasoner_pick {
                Some(r) => Some(*r),
                None => None,
            },
        ),
        opt_text(p.origin) == Some(first_retrieval(*scored).0),
        opt_text(p.origin_label) == non_empty(first_retrieval(*scored).1),
        opt_text(p.origin_display) == non_empty(join(provenance_parts(scored.candidate.sources@), " · "@)),
        same_features(p.matched_features@, scored.matched_features@),
        same_features(p.hidden_features@, scored.hidden_features@),
        same_trace(p.eligibility, scored.eligibility),
        exists|y: Option<i32>| p.match_score == capped_score_spec(scored, year_read(y), blend),
        p.thin_evidence == limited_spec(scored),
        p.semantic_fit == scored.score.semantic_fit,
        p.semantic_coverage == scored.score.semantic_coverage,
{
    let display = pick_reasons(scored);
    let why = match reasoner_pick {
        Some(r) => if trimmed(r.why.as_str()).len() > 0 {
            r.why.clone()
        } else {
            String::new()
        },
        None => String::new(),
    };
    let why = ground_why(why.as_str(), &display, &scored.hidden_features);
    let mode = match reasoner_pick {
        Some(r) => if chars_of(r.mode.as_str()).len() > 0 {
            Some(r.mode.clone())
        } else {
            None
        },
        None => None,
    };
    let (kind, label) = primary_retrieval(&scored.candidate.sources);
    let provenance = format_provenance(&scored.candidate.sources);
    let rhymes = copy_string_vec(&evidence);
    TastePick {
        title: scored.candidate.title.clone(),
        year: scored.candidate.year,
        poster,
        why,
        rhymes_with: rhymes,
        film_id,
        tmdb_id: scored.candidate.tmdb_id,
        source: String::from_str(origin),
        reasons: display,
        scoring_reasons: copy_string_vec(&scored.scoring_reasons),
        evidence,
        evidence_items,
        mode,
        origin: Some(kind),
        origin_label: if chars_of(label.as_str()).len() == 0 {
            None
        } else {
            Some(label)
        },
        origin_display: if chars_of(provenance.as_str()).len() == 0 {
            None
        } else {
            Some(provenance)
        },
        matched_features: copy_features(&scored.matched_features),
        hidden_features: copy_features(&scored.hidden_features),
        eligibility: EligibilityTrace {
            portable_evidence_required: scored.eligibility.portable_evidence_required,
            passed: scored.eligibility.passed,
            passed_because: copy_string_vec(&scored.eligibility.passed_because),
            candidate_fit: scored.eligibility.candidate_fit,
            evidence_grade: scored.eligibility.evidence_grade,
        },
        match_score: match_score(scored, blend),
        thin_evidence: thin_evidence(scored),
        semantic_fit: scored.score.semantic_fit,
        semantic_coverage: scored.score.semantic_coverage,
    }
}


pub open spec fn source_views(s: Seq<RetrievalSource>) -> Seq<(RetrievalKind, Seq<char>, Option<i64>, Option<i32>)> {
    s.map_values(|r: RetrievalSource| (r.kind, r.label@, r.seed_tmdb_id, r.seed_rating))
}

fn copy_sources(v: &Vec<RetrievalSource>) -> (out: Vec<RetrievalSource>)
    ensures
        source_views(out@) == source_views(v@),
{
    let mut out: Vec<RetrievalSource> = Vec::new();
    let mut i: usize = 0;
    while i < v.len()
        invariant
            i <= v.len(),
            source_views(out@) == source_views(v@.take(i as int)),
            out@.len() == i,
        decreases v.len() - i,
    {
        let r = &v[i];
        let ghost before = out@;
        out.push(
            RetrievalSource {
                kind: r.kind,
                label: r.label.clone(),
                seed_tmdb_id: r.seed_tmdb_id,
                seed_rating: r.seed_rating,
            },
        );
        assert(out@ == before.push(out@[i as int]));
        assert(v@.take(i + 1) =~= v@.take(i as int).push(v@[i as int]));
        let ghost item = (r.kind, r.label@, r.seed_tmdb_id, r.seed_rating);
        assert(source_views(out@) =~= source_views(before).push(item));
        assert(source_views(v@.take(i + 1)) =~= source_views(v@.take(i as int)).push(item));
        i += 1;
    }
    assert(v@.take(v.len() as int) =~= v@);
    out
}

/// The editorial mode a trace records: the reasoner's mode for the pick,
/// or, when the reasoner did not pick it, where the pick came from.
pub open spec fn trace_mode(rp: Option<ReasonerPick>, origin: Seq<char>) -> RecommendationMode {
    match rp {
        Some(p) => mode_of(p.mode@),
        None => mode_of(origin),
    }
}

/// The record of why a pick was shown: its sources and origin, its
/// deterministic score, the mode, the seed films and features the scorer
/// weighed, and the critic's fit and concerns for it.
pub fn provenance_trace(
    scored: &ScoredCandidate,
    reasoner_pick: Option<&ReasonerPick>,
    origin: &str,
    assessment: Option<&CandidateAssessment>,
) -> (t: RecommendationProvenance)
    ensures
        t.tmdb_id == scored.candidate.tmdb_id,
        (t.origin == RecommendationOrigin::Discovery) == (exists|i: int|
            0 <= i < scored.candidate.sources@.len() && (#[trigger] scored.candidate.sources@[i]).kind
                == RetrievalKind::Discovery),
        source_views(t.retrieval_sources@) == source_views(scored.candidate.sources@),
        t.deterministic_score == scored.score,
        t.llm_mode == trace_mode(
            match reasoner_pick {
                Some(r) => Some(*r),
                None => None,
            },
            origin@,
        ),
        strs(t.seed_films@) == strs(scored.evidence@),
        strs(t.positive_features@) == strs(scored.positive_features@),
        strs(t.negative_features_considered@) == strs(scored.negative_features@),
        opt_text(t.call1_fit) == match assessment {
            Some(a) => Some(a.fit@),
            None => None,
        },
        strs(t.call1_concerns@) == match assessment {
            Some(a) => strs(a.concerns@),
            None => Seq::empty(),
        },
{
    let llm_mode = match reasoner_pick {
        Some(r) => RecommendationMode::parse(r.mode.as_str()),
        None => RecommendationMode::parse(origin),
    };
    let (call1_fit, call1_concerns) = match assessment {
        Some(a) => (Some(a.fit.clone()), copy_string_vec(&a.concerns)),
        None => (None, Vec::new()),
    };
    proof {
        assert(strs(Seq::<String>::empty()) =~= Seq::<Seq<char>>::empty());
    }
    RecommendationProvenance {
        tmdb_id: scored.candidate.tmdb_id,
        origin: origin_from_sources(&scored.candidate.sources),
        retrieval_sources: copy_sources(&scored.candidate.sources),
        deterministic_score: scored.score,
        llm_mode,
        seed_films: copy_string_vec(&scored.evidence),
        positive_features: copy_string_vec(&scored.positive_features),
        negative_features_considered: copy_string_vec(&scored.negative_features),
        call1_fit,
        call1_concerns,
    }
}

} // verus!
