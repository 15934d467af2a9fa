//! The taste fit shown on a film's detail page: whether there is enough to
//! say, and, when there is, the match percent, its band and the signals
//! behind it.
use vstd::prelude::*;
use crate::confidence::{capped_score_spec, match_score, year_read};
use crate::explain::EvidenceGrade;
use crate::features::{strs, Credit, Keyword};
use crate::gather::{credit_views, keyword_views};
use crate::retrieve::{Candidate, MediaKind};
use crate::score::ScoredCandidate;
use crate::text::{chars_of, dec_u64, dec_nat, append_chars, append_str, string_of};

verus! {

/// Rated films needed before a fit is shown.
pub const FIT_MIN_RATINGS: usize = 8;
/// Match percents from which a fit is strong, and mixed.
pub const STRONG_FIT: u8 = 70;
pub const MIXED_FIT_BAND: u8 = 55;
/// Supporting signals, counter signals and evidence titles shown.
pub const FIT_SUPPORTING: usize = 4;
pub const FIT_COUNTER: usize = 3;
pub const FIT_EVIDENCE: usize = 6;

/// The fit of one film. `semantic_fit` is in thousandths.
#[derive(Clone, Debug)]
pub struct FilmTasteFit {
    pub available: bool,
    pub score: Option<u8>,
    pub band: String,
    pub evidence_grade: String,
    pub semantic_fit: i32,
    pub semantic_coverage: bool,
    pub supporting_signals: Vec<String>,
    pub counter_signals: Vec<String>,
    pub evidence_titles: Vec<String>,
    pub watched: bool,
    pub unavailable_reason: Option<String>,
}

/// A fit that cannot be shown, for the given reason.
pub open spec fn unavailable_fit(f: FilmTasteFit, reason: Seq<char>, watched: bool) -> bool {
    &&& !f.available
    &&& f.score.is_none()
    &&& f.band@ == "notEnoughEvidence"@
    &&& f.evidence_grade@ == "none"@
    &&& f.semantic_fit == 500
    &&& !f.semantic_coverage
    &&& f.supporting_signals@.len() == 0
    &&& f.counter_signals@.len() == 0
    &&& f.evidence_titles@.len() == 0
    &&& f.watched == watched
    &&& f.unavailable_reason.is_some() && f.unavailable_reason->0@ == reason
}

fn text(s: &str) -> (r: String)
    ensures
        r@ == s@,
{
    string_of(&chars_of(s))
}

impl FilmTasteFit {
    /// No fit: not enough evidence, for `reason`.
    pub fn unavailable(reason: String, watched: bool) -> (f: Self)
        ensures
            unavailable_fit(f, reason@, watched),
    {
        FilmTasteFit {
            available: false,
            score: None,
            band: text("notEnoughEvidence"),
            evidence_grade: text("none"),
            semantic_fit: 500,
            semantic_coverage: false,
            supporting_signals: Vec::new(),
            counter_signals: Vec::new(),
            evidence_titles: Vec::new(),
            watched,
            unavailable_reason: Some(reason),
        }
    }
}

/// Why no fit is shown before scoring, if there is a reason: too few rated
/// films, or a film without catalog details.
pub open spec fn gate_reason(rated: nat, has_metadata: bool) -> Option<Seq<char>> {
    if rated < FIT_MIN_RATINGS {
        Some("Rate at least "@ + dec_nat(FIT_MIN_RATINGS as nat) + " films to see a Taste fit."@)
    } else if !has_metadata {
        Some("This film needs TMDB details before Studio can compare it to your taste."@)
    } else {
        None
    }
}

/// The fit shown before any scoring, when one of the gates stops it:
/// fewer than eight rated films, or a film without genres, crew or cast.
pub fn fit_gate(rated: usize, has_metadata: bool, watched: bool) -> (r: Option<FilmTasteFit>)
    ensures
        r is None <==> gate_reason(rated as nat, has_metadata) is None,
        r is Some ==> unavailable_fit(r->0, gate_reason(rated as nat, has_metadata)->0, watched),
{
    if rated < FIT_MIN_RATINGS {
        let mut m = chars_of("Rate at least ");
        let d = dec_u64(FIT_MIN_RATINGS as u64);
        append_chars(&mut m, &d);
        append_str(&mut m, " films to see a Taste fit.");
        return Some(FilmTasteFit::unavailable(string_of(&m), watched));
    }
    if !has_metadata {
        return Some(
            FilmTasteFit::unavailable(
                text("This film needs TMDB details before Studio can compare it to your taste."),
                watched,
            ),
        );
    }
    None
}

/// The fit shown when the profile has no affinities to compare with.
pub fn fit_without_profile(watched: bool) -> (f: FilmTasteFit)
    ensures
        unavailable_fit(f, "Studio does not have enough rated metadata to explain this fit yet."@, watched),
{
    FilmTasteFit::unavailable(text("Studio does not have enough rated metadata to explain this fit yet."), watched)
}

pub open spec fn grade_text(g: EvidenceGrade) -> Seq<char> {
    match g {
        EvidenceGrade::Ungraded => "none"@,
        EvidenceGrade::Medium => "medium"@,
        EvidenceGrade::Strong => "strong"@,
    }
}

/// The band of a shown fit: strong from 70, mixed from 55, else weak.
pub open spec fn band_of(available: bool, score: u8) -> Seq<char> {
    if !available {
        "notEnoughEvidence"@
    } else if score >= STRONG_FIT {
        "strong"@
    } else if score >= MIXED_FIT_BAND {
        "mixed"@
    } else {
        "weak"@
    }
}

pub open spec fn first_texts(s: Seq<Seq<char>>, n: int) -> Seq<Seq<char>> {
    if s.len() > n {
        s.take(n)
    } else {
        s
    }
}

/// The fit of a scored film with match percent `score`: shown when its
/// evidence is at least medium, with the band, grade, semantic fit, the
/// first four display reasons, three negative features and six evidence
/// titles.
pub open spec fn fit_of(f: FilmTasteFit, s: ScoredCandidate, score: u8, watched: bool) -> bool {
    let available = s.eligibility.evidence_grade.displayable_spec();
    &&& f.available == available
    &&& f.score == if available {
        Some(score)
    } else {
        None
    }
    &&& f.band@ == band_of(available, score)
    &&& f.evidence_grade@ == grade_text(s.eligibility.evidence_grade)
    &&& f.semantic_fit == s.score.semantic_fit
    &&& f.semantic_coverage == s.score.semantic_coverage
    &&& strs(f.supporting_signals@) == first_texts(strs(s.display_reasons@), FIT_SUPPORTING as int)
    &&& strs(f.counter_signals@) == first_texts(strs(s.negative_features@), FIT_COUNTER as int)
    &&& strs(f.evidence_titles@) == first_texts(strs(s.evidence@), FIT_EVIDENCE as int)
    &&& f.watched == watched
    &&& if available {
        f.unavailable_reason.is_none()
    } else {
        f.unavailable_reason.is_some() && f.unavailable_reason->0@
            == "Studio found too little direct evidence to make this a useful Taste fit."@
    }
}

fn first_of(v: &Vec<String>, n: usize) -> (out: Vec<String>)
    ensures
        strs(out@) == first_texts(strs(v@), n as int),
{
    let mut out: Vec<String> = Vec::new();
    let mut i: usize = 0;
    while i < v.len() && i < n
        invariant
            i <= v.len(),
            i <= n,
            strs(out@) == strs(v@).take(i as int),
        decreases v.len() - i,
    {
        let ghost before = strs(out@);
        out.push(v[i].clone());
        assert(strs(out@) =~= before.push(v@[i as int]@));
        assert(strs(v@).take(i + 1) =~= strs(v@).take(i as int).push(v@[i as int]@));
        i += 1;
    }
    assert(strs(v@).take(v.len() as int) =~= strs(v@));
    out
}

fn grade_string(g: EvidenceGrade) -> (s: String)
    ensures
        s@ == grade_text(g),
{
    match g {
        EvidenceGrade::Ungraded => text("none"),
        EvidenceGrade::Medium => text("medium"),
        EvidenceGrade::Strong => text("strong"),
    }
}

/// The fit of a scored film whose percent is `score`.
pub fn fit_at(s: &ScoredCandidate, score: u8, watched: bool) -> (f: FilmTasteFit)
    ensures
        fit_of(f, *s, score, watched),
{
    let available = s.eligibility.evidence_grade.displayable();
    let band = if !available {
        text("notEnoughEvidence")
    } else if score >= STRONG_FIT {
        text("strong")
    } else if score >= MIXED_FIT_BAND {
        text("mixed")
    } else {
        text("weak")
    };
    FilmTasteFit {
        available,
        score: if available {
            Some(score)
        } else {
            None
        },
        band,
        evidence_grade: grade_string(s.eligibility.evidence_grade),
        semantic_fit: s.score.semantic_fit,
        semantic_coverage: s.score.semantic_coverage,
        supporting_signals: first_of(&s.display_reasons, FIT_SUPPORTING),
        counter_signals: first_of(&s.negative_features, FIT_COUNTER),
        evidence_titles: first_of(&s.evidence, FIT_EVIDENCE),
        watched,
        unavailable_reason: if available {
            None
        } else {
            Some(text("Studio found too little direct evidence to make this a useful Taste fit."))
        },
    }
}

/// The fit of a scored film, its match percent taken for the current year
/// (see [`match_score`]) from the craft blend `blend`.
pub fn taste_fit(s: &ScoredCandidate, blend: u8, watched: bool) -> (f: FilmTasteFit)
    ensures
        exists|y: Option<i32>| fit_of(f, *s, capped_score_spec(s, year_read(y), blend), watched),
{
    let score = match_score(s, blend);
    fit_at(s, score, watched)
}


// ---------------------------------------------------------------------------
// The film as a candidate
// ---------------------------------------------------------------------------

/// Cast members of a detail page that count as credits.
pub const DETAIL_CAST: usize = 16;

/// A person on a film's detail page: crew with a job, cast with a character.
#[derive(Clone, Debug)]
pub struct DetailPerson {
    pub tmdb_id: Option<i64>,
    pub name: String,
    pub job: String,
}

/// The credits of a detail page: the crew with their jobs, then the first
/// sixteen cast members as actors.
pub open spec fn detail_credits(crew: Seq<DetailPerson>, cast: Seq<DetailPerson>) -> Seq<
    (Option<i64>, Seq<char>, Seq<char>),
> {
    let shown = if cast.len() <= DETAIL_CAST {
        cast
    } else {
        cast.take(DETAIL_CAST as int)
    };
    crew.map_values(|p: DetailPerson| (p.tmdb_id, p.name@, p.job@)) + shown.map_values(
        |p: DetailPerson| (p.tmdb_id, p.name@, "Actor"@),
    )
}

/// The film on a detail page as a candidate to score: its catalog facts,
/// its credits (see [`detail_credits`]) and its keywords without ids; not
/// on the watchlist, with no retrieval source and nothing from friends or
/// TMDB relations.
pub fn candidate_from_detail(
    tmdb_id: Option<i64>,
    title: String,
    year: Option<i32>,
    poster: Option<String>,
    genres: Vec<String>,
    crew: &[DetailPerson],
    cast: &[DetailPerson],
    keywords: &[String],
    runtime: Option<i32>,
    vote_count: Option<u32>,
) -> (c: Candidate)
    ensures
        c.tmdb_id == tmdb_id,
        c.title == title,
        c.year == year,
        c.poster == poster,
        c.genres == genres,
        credit_views(c.credits@) == detail_credits(crew@, cast@),
        keyword_views(c.keywords@) == keywords@.map_values(|n: String| (None::<i64>, n@)),
        c.runtime == runtime,
        c.vote_count == match vote_count {
            Some(v) => Some(v as i64),
            None => None,
        },
        !c.watchlist,
        c.sources@.len() == 0,
        c.friend_affinity == 0,
        c.tmdb_related == 0,
        c.media_kind == MediaKind::Movie,
{
    let ghost target = detail_credits(crew@, cast@);
    let mut credits: Vec<Credit> = Vec::new();
    let mut i: usize = 0;
    while i < crew.len()
        invariant
            i <= crew.len(),
            target == detail_credits(crew@, cast@),
            credit_views(credits@) == target.take(i as int),
            credits@.len() == i,
        decreases crew.len() - i,
    {
        let p = &crew[i];
        let ghost before = credits@;
        let ghost crew_part = crew@.map_values(|q: DetailPerson| (q.tmdb_id, q.name@, q.job@));
        assert(target[i as int] == crew_part[i as int]);
        credits.push(Credit { id: p.tmdb_id, name: p.name.clone(), job: p.job.clone() });
        assert(credits@ == before.push(credits@[before.len() as int]));
        assert(before.len() == i);
        assert(credit_views(credits@) =~= credit_views(before).push(target[i as int]));
        assert(credit_views(credits@) =~= target.take(i + 1));
        i += 1;
    }
    let mut j: usize = 0;
    while j < cast.len() && j < DETAIL_CAST
        invariant
            j <= cast.len(),
            j <= DETAIL_CAST,
            target == detail_credits(crew@, cast@),
            credit_views(credits@) == target.take(crew@.len() + j),
            credits@.len() == crew@.len() + j,
        decreases cast.len() - j,
    {
        let p = &cast[j];
        let actor = String::from_str("Actor");
        let ghost before = credits@;
        let ghost shown = if cast@.len() <= DETAIL_CAST {
            cast@
        } else {
            cast@.take(DETAIL_CAST as int)
        };
        let ghost cast_part = shown.map_values(|q: DetailPerson| (q.tmdb_id, q.name@, "Actor"@));
        assert(shown[j as int] == cast@[j as int]);
        assert(target[crew@.len() + j] == cast_part[j as int]);
        credits.push(Credit { id: p.tmdb_id, name: p.name.clone(), job: actor });
        assert(credits@ == before.push(credits@[before.len() as int]));
        assert(credit_views(credits@) =~= credit_views(before).push(target[crew@.len() + j]));
        assert(credit_views(credits@) =~= target.take(crew@.len() + j + 1));
        j += 1;
    }
    assert(target.take(crew@.len() + j) =~= target);
    let mut kws: Vec<Keyword> = Vec::new();
    let mut k: usize = 0;
    while k < keywords.len()
        invariant
            k <= keywords.len(),
            keyword_views(kws@) == keywords@.take(k as int).map_values(|n: String| (None::<i64>, n@)),
        decreases keywords.len() - k,
    {
        kws.push(Keyword { id: None, name: keywords[k].clone() });
        assert(keywords@.take(k + 1).map_values(|n: String| (None::<i64>, n@)) =~= keywords@.take(
            k as int,
        ).map_values(|n: String| (None::<i64>, n@)).push((None::<i64>, keywords@[k as int]@)));
        assert(keyword_views(kws@) =~= keywords@.take(k + 1).map_values(|n: String| (None::<i64>, n@)));
        k += 1;
    }
    assert(keywords@.take(keywords.len() as int) =~= keywords@);
    Candidate {
        tmdb_id,
        title,
        year,
        poster,
        genres,
        credits,
        keywords: kws,
        runtime,
        vote_count: match vote_count {
            Some(v) => Some(v as i64),
            None => None,
        },
        watchlist: false,
        sources: Vec::new(),
        friend_affinity: 0,
        tmdb_related: 0,
        media_kind: MediaKind::Movie,
    }
}


/// The position of a shown band, weakest first.
pub open spec fn band_rank(b: Seq<char>) -> int {
    if b == "strong"@ {
        2
    } else if b == "mixed"@ {
        1
    } else {
        0
    }
}

/// A shown fit is strong from a match of 70, mixed from 55, weak below;
/// and a higher match never falls in a weaker band.
pub proof fn lemma_band_follows_score(s1: u8, s2: u8)
    requires
        s1 <= s2,
    ensures
        s2 >= 70 ==> band_of(true, s2) == "strong"@,
        55 <= s2 < 70 ==> band_of(true, s2) == "mixed"@,
        s2 < 55 ==> band_of(true, s2) == "weak"@,
        band_rank(band_of(true, s1)) <= band_rank(band_of(true, s2)),
{
    reveal_strlit("strong");
    reveal_strlit("mixed");
    reveal_strlit("weak");
    assert("weak"@[0] != "strong"@[0] && "weak"@[0] != "mixed"@[0] && "mixed"@[0] != "strong"@[0]);
}

} // verus!
