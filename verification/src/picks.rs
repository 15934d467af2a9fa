//! Turning validated candidates into picks: which narrated pick and which
//! critic verdict belong to a candidate, where it came from, the reasons it
//! shows, and which of the viewer's films it cites as navigable evidence.
use vstd::prelude::*;
use crate::pool::opt_text;
use crate::explain::{canonical_lines, canonicalize_reason_lines};
use crate::features::strs;
use crate::reason::{CandidateAssessment, CriticReport, ReasonerPick, TasteEvidence};
use crate::retrieve::{FilmRecord, RetrievalSource};
use crate::score::{CandidateView, ScoredCandidate};
use crate::explain::MatchedFeatureView;
use crate::text::{
    append_chars, ascii_lower, chars_of, dec_i64, dec_int, eq_ignore_ascii_case, eq_ignore_case,
    lower_ascii, seq_eq, trim, trimmed,
};

verus! {

/// Evidence films listed on one pick.
pub const MAX_EVIDENCE_ITEMS: usize = 2;

/// A title as evidence matching compares it: trimmed and ASCII-lower-cased.
pub open spec fn title_key(t: Seq<char>) -> Seq<char> {
    ascii_lower(trim(t))
}

/// The first library film with this TMDB id.
pub open spec fn film_with_tmdb(films: Seq<FilmRecord>, id: i64, i: int) -> Option<int>
    decreases films.len() - i,
{
    if i >= films.len() {
        None
    } else if films[i].tmdb_id == Some(id) {
        Some(i)
    } else {
        film_with_tmdb(films, id, i + 1)
    }
}

/// The library films whose title matches `key`.
pub open spec fn films_titled(films: Seq<FilmRecord>, key: Seq<char>) -> Seq<int>
    decreases films.len(),
{
    if films.len() == 0 {
        Seq::empty()
    } else {
        let r = films_titled(films.drop_last(), key);
        if title_key(films.last().title@) == key {
            r.push(films.len() - 1)
        } else {
            r
        }
    }
}

/// `picked` with film `f` added, unless two are already picked or a picked
/// film has the same library key.
pub open spec fn offer(films: Seq<FilmRecord>, picked: Seq<int>, f: int) -> Seq<int> {
    if picked.len() >= MAX_EVIDENCE_ITEMS || exists|k: int|
        0 <= k < picked.len() && #[trigger] films[picked[k]].key@ == films[f].key@ {
        picked
    } else {
        picked.push(f)
    }
}

/// The related seeds of the sources, offered in source order.
pub open spec fn seed_picks(sources: Seq<RetrievalSource>, films: Seq<FilmRecord>) -> Seq<int>
    decreases sources.len(),
{
    if sources.len() == 0 {
        Seq::empty()
    } else {
        let r = seed_picks(sources.drop_last(), films);
        let s = sources.last();
        if s.kind.related() && s.seed_tmdb_id.is_some() {
            match film_with_tmdb(films, s.seed_tmdb_id.unwrap(), 0) {
                Some(f) => offer(films, r, f),
                None => r,
            }
        } else {
            r
        }
    }
}

/// Then each evidence title that names exactly one library film.
pub open spec fn title_picks(titles: Seq<Seq<char>>, films: Seq<FilmRecord>, start: Seq<int>) -> Seq<int>
    decreases titles.len(),
{
    if titles.len() == 0 {
        start
    } else {
        let r = title_picks(titles.drop_last(), films, start);
        let m = films_titled(films, title_key(titles.last()));
        if m.len() == 1 {
            offer(films, r, m[0])
        } else {
            r
        }
    }
}

/// `e` is film `f` as evidence: its title, library key, TMDB id and poster.
pub open spec fn evidence_item_of(e: TasteEvidence, f: FilmRecord) -> bool {
    &&& e.title@ == f.title@
    &&& opt_text(e.film_id) == Some(f.key@)
    &&& e.tmdb_id == f.tmdb_id
    &&& opt_text(e.poster) == opt_text(f.poster)
}

pub open spec fn evidence_items_spec(
    sources: Seq<RetrievalSource>,
    titles: Seq<Seq<char>>,
    films: Seq<FilmRecord>,
) -> Seq<int> {
    title_picks(titles, films, seed_picks(sources, films))
}

proof fn lemma_offer_bounds(films: Seq<FilmRecord>, picked: Seq<int>, f: int)
    requires
        0 <= f < films.len(),
        forall|k: int| 0 <= k < picked.len() ==> 0 <= #[trigger] picked[k] < films.len(),
    ensures
        forall|k: int|
            0 <= k < offer(films, picked, f).len() ==> 0 <= #[trigger] offer(films, picked, f)[k]
                < films.len(),
{
}

/// Offers film `f` to the evidence list.
fn push_evidence_item(
    items: &mut Vec<TasteEvidence>,
    keys: &mut Vec<Vec<char>>,
    films: &[FilmRecord],
    f: usize,
    max_items: usize,
    Ghost(picked): Ghost<Seq<int>>,
) -> (after: Ghost<Seq<int>>)
    requires
        f < films.len(),
        max_items == MAX_EVIDENCE_ITEMS,
        old(items)@.len() == picked.len(),
        old(keys)@.len() == picked.len(),
        forall|k: int| 0 <= k < picked.len() ==> 0 <= #[trigger] picked[k] < films.len(),
        forall|k: int|
            0 <= k < picked.len() ==> evidence_item_of(#[trigger] old(items)@[k], films@[picked[k]]),
        forall|k: int| 0 <= k < picked.len() ==> #[trigger] old(keys)@[k]@ == films@[picked[k]].key@,
    ensures
        after@ == offer(films@, picked, f as int),
        final(items)@.len() == after@.len(),
        final(keys)@.len() == after@.len(),
        forall|k: int| 0 <= k < after@.len() ==> 0 <= #[trigger] after@[k] < films.len(),
        forall|k: int|
            0 <= k < after@.len() ==> evidence_item_of(#[trigger] final(items)@[k], films@[after@[k]]),
        forall|k: int| 0 <= k < after@.len() ==> #[trigger] final(keys)@[k]@ == films@[after@[k]].key@,
{
    proof {
        lemma_offer_bounds(films@, picked, f as int);
    }
    if items.len() >= max_items {
        return Ghost(picked);
    }
    let film = &films[f];
    let key = chars_of(film.key.as_str());
    let mut i: usize = 0;
    while i < keys.len()
        invariant
            i <= keys.len(),
            f < films.len(),
            keys@.len() == picked.len(),
            items@.len() == picked.len(),
            forall|k: int| 0 <= k < picked.len() ==> 0 <= #[trigger] picked[k] < films.len(),
            forall|k: int|
                0 <= k < picked.len() ==> evidence_item_of(#[trigger] items@[k], films@[picked[k]]),
            key@ == films@[f as int].key@,
            forall|k: int| 0 <= k < picked.len() ==> #[trigger] keys@[k]@ == films@[picked[k]].key@,
            forall|k: int| 0 <= k < i ==> films@[picked[k]].key@ != films@[f as int].key@,
        decreases keys.len() - i,
    {
        if seq_eq(&keys[i], &key) {
            assert(films@[picked[i as int]].key@ == films@[f as int].key@);
            return Ghost(picked);
        }
        i += 1;
    }
    let ghost old_items = items@;
    let ghost old_keys = keys@;
    items.push(
        TasteEvidence {
            title: film.title.clone(),
            film_id: Some(film.key.clone()),
            tmdb_id: film.tmdb_id,
            poster: match &film.poster {
                Some(p) => Some(p.clone()),
                None => None,
            },
        },
    );
    keys.push(key);
    let ghost after = picked.push(f as int);
    assert forall|k: int| 0 <= k < after.len() implies evidence_item_of(#[trigger] items@[k], films@[after[k]]) by {
        if k < picked.len() {
            assert(items@[k] == old_items[k]);
        }
    }
    assert forall|k: int| 0 <= k < after.len() implies #[trigger] keys@[k]@ == films@[after[k]].key@ by {
        if k < picked.len() {
            assert(keys@[k] == old_keys[k]);
        }
    }
    Ghost(after)
}

fn first_film_with_tmdb(films: &[FilmRecord], id: i64) -> (r: Option<usize>)
    ensures
        match r {
            Some(i) => film_with_tmdb(films@, id, 0) == Some(i as int) && i < films.len(),
            None => film_with_tmdb(films@, id, 0).is_none(),
        },
{
    let mut i: usize = 0;
    while i < films.len()
        invariant
            i <= films.len(),
            film_with_tmdb(films@, id, 0) == film_with_tmdb(films@, id, i as int),
        decreases films.len() - i,
    {
        if films[i].tmdb_id == Some(id) {
            return Some(i);
        }
        i += 1;
    }
    None
}

/// The one library film whose title matches `key`, if exactly one does.
fn only_film_titled(films: &[FilmRecord], key: &Vec<char>) -> (r: Option<usize>)
    ensures
        match r {
            Some(i) => films_titled(films@, key@).len() == 1 && films_titled(films@, key@)[0]
                == i as int && i < films.len(),
            None => films_titled(films@, key@).len() != 1,
        },
{
    let mut found: Option<usize> = None;
    let mut count: usize = 0;
    let mut i: usize = 0;
    while i < films.len()
        invariant
            i <= films.len(),
            count == films_titled(films@.take(i as int), key@).len(),
            count <= i,
            count >= 1 ==> found.is_some() && films_titled(films@.take(i as int), key@)[0]
                == found.unwrap() as int && found.unwrap() < i,
            count == 0 ==> found.is_none(),
        decreases films.len() - i,
    {
        let ghost prev = films@.take(i as int);
        assert(films@.take(i + 1).drop_last() =~= prev);
        let t = lower_ascii(&trimmed(films[i].title.as_str()));
        if seq_eq(&t, key) {
            if count == 0 {
                found = Some(i);
            }
            count += 1;
        }
        i += 1;
    }
    assert(films@.take(films.len() as int) =~= films@);
    if count == 1 {
        found
    } else {
        None
    }
}

/// The viewer's films a pick cites as navigable evidence (at most two, no
/// library key twice): first the related seeds its sources name, in source
/// order; then each evidence title that matches exactly one library film
/// (trimmed, ASCII case-insensitively).
pub fn evidence_items_for(
    sources: &[RetrievalSource],
    evidence: &[String],
    films: &[FilmRecord],
) -> (items: Vec<TasteEvidence>)
    ensures
        ({
            let picked = evidence_items_spec(
                sources@,
                evidence@.map_values(|t: String| t@),
                films@,
            );
            &&& items@.len() == picked.len()
            &&& forall|k: int|
                0 <= k < picked.len() ==> evidence_item_of(#[trigger] items@[k], films@[picked[k]])
        }),
{
    let mut items: Vec<TasteEvidence> = Vec::new();
    let mut keys: Vec<Vec<char>> = Vec::new();
    let ghost mut picked: Seq<int> = Seq::empty();
    let mut i: usize = 0;
    while i < sources.len()
        invariant
            i <= sources.len(),
            picked == seed_picks(sources@.take(i as int), films@),
            items@.len() == picked.len(),
            keys@.len() == picked.len(),
            forall|k: int| 0 <= k < picked.len() ==> 0 <= #[trigger] picked[k] < films.len(),
            forall|k: int| 0 <= k < picked.len() ==> evidence_item_of(#[trigger] items@[k], films@[picked[k]]),
            forall|k: int| 0 <= k < picked.len() ==> #[trigger] keys@[k]@ == films@[picked[k]].key@,
        decreases sources.len() - i,
    {
        assert(sources@.take(i + 1).drop_last() =~= sources@.take(i as int));
        let s = &sources[i];
        if s.kind.is_related() {
            match s.seed_tmdb_id {
                Some(id) => {
                    match first_film_with_tmdb(films, id) {
                        Some(f) => {
                            let after = push_evidence_item(&mut items, &mut keys, films, f, MAX_EVIDENCE_ITEMS, Ghost(picked));
                            proof {
                                picked = after@;
                            }
                        },
                        None => {},
                    }
                },
                None => {},
            }
        }
        i += 1;
    }
    assert(sources@.take(sources.len() as int) =~= sources@);
    let ghost titles = evidence@.map_values(|t: String| t@);
    let ghost start = picked;
    let mut j: usize = 0;
    while j < evidence.len()
        invariant
            j <= evidence.len(),
            titles == evidence@.map_values(|t: String| t@),
            picked == title_picks(titles.take(j as int), films@, start),
            items@.len() == picked.len(),
            keys@.len() == picked.len(),
            forall|k: int| 0 <= k < picked.len() ==> 0 <= #[trigger] picked[k] < films.len(),
            forall|k: int| 0 <= k < picked.len() ==> evidence_item_of(#[trigger] items@[k], films@[picked[k]]),
            forall|k: int| 0 <= k < picked.len() ==> #[trigger] keys@[k]@ == films@[picked[k]].key@,
        decreases evidence.len() - j,
    {
        assert(titles.take(j + 1).drop_last() =~= titles.take(j as int));
        assert(titles.take(j + 1).last() == evidence@[j as int]@);
        let key = lower_ascii(&trimmed(evidence[j].as_str()));
        match only_film_titled(films, &key) {
            Some(f) => {
                let after = push_evidence_item(&mut items, &mut keys, films, f, MAX_EVIDENCE_ITEMS, Ghost(picked));
                proof {
                    picked = after@;
                }
            },
            None => {},
        }
        j += 1;
    }
    assert(titles.take(evidence.len() as int) =~= titles);
    items
}


// ---------------------------------------------------------------------------
// Matching the model's output to a candidate
// ---------------------------------------------------------------------------

/// The reference `"tmdb:{id}"` of a candidate with a TMDB id.
pub open spec fn tmdb_ref(id: i64) -> Seq<char> {
    "tmdb:"@ + dec_int(id as int)
}

/// A narrated pick names the candidate: by its TMDB reference, or by title
/// up to ASCII case.
pub open spec fn pick_names(p: ReasonerPick, c: CandidateView) -> bool {
    (p.id@.len() > 0 && c.tmdb_id.is_some() && p.id@ == tmdb_ref(c.tmdb_id.unwrap()))
        || eq_ignore_case(p.title@, c.title@)
}

pub open spec fn first_pick_naming(picks: Seq<ReasonerPick>, c: CandidateView, i: int) -> Option<int>
    decreases picks.len() - i,
{
    if i >= picks.len() {
        None
    } else if pick_names(picks[i], c) {
        Some(i)
    } else {
        first_pick_naming(picks, c, i + 1)
    }
}

pub(crate) fn ref_chars(id: i64) -> (v: Vec<char>)
    ensures
        v@ == tmdb_ref(id),
{
    let mut v = chars_of("tmdb:");
    let d = dec_i64(id);
    append_chars(&mut v, &d);
    v
}

/// The first narrated pick that names the candidate.
pub fn matching_pick(c: &CandidateView, picks: &[ReasonerPick]) -> (r: Option<usize>)
    ensures
        match r {
            Some(i) => first_pick_naming(picks@, *c, 0) == Some(i as int),
            None => first_pick_naming(picks@, *c, 0).is_none(),
        },
{
    let title = chars_of(c.title.as_str());
    let mut i: usize = 0;
    while i < picks.len()
        invariant
            i <= picks.len(),
            title@ == c.title@,
            first_pick_naming(picks@, *c, 0) == first_pick_naming(picks@, *c, i as int),
        decreases picks.len() - i,
    {
        let p = &picks[i];
        let id = chars_of(p.id.as_str());
        let by_id = match c.tmdb_id {
            Some(t) => id.len() > 0 && seq_eq(&id, &ref_chars(t)),
            None => false,
        };
        if by_id || eq_ignore_ascii_case(&chars_of(p.title.as_str()), &title) {
            return Some(i);
        }
        i += 1;
    }
    None
}

/// The candidate was found by discovery: a discovery with the same TMDB id.
pub open spec fn from_discovery(c: CandidateView, discoveries: Seq<ScoredCandidate>) -> bool {
    c.tmdb_id.is_some() && exists|k: int|
        0 <= k < discoveries.len() && #[trigger] discoveries[k].candidate.tmdb_id == c.tmdb_id
}

/// `"discovery"` for a pick that discovery found, else `"shortlist"`.
pub fn pick_origin(c: &CandidateView, discoveries: &[ScoredCandidate]) -> (s: &'static str)
    ensures
        s@ == (if from_discovery(*c, discoveries@) {
            "discovery"@
        } else {
            "shortlist"@
        }),
{
    if c.tmdb_id.is_some() {
        let mut k: usize = 0;
        while k < discoveries.len()
            invariant
                k <= discoveries.len(),
                c.tmdb_id.is_some(),
                forall|q: int| 0 <= q < k ==> #[trigger] discoveries@[q].candidate.tmdb_id != c.tmdb_id,
            decreases discoveries.len() - k,
        {
            if discoveries[k].candidate.tmdb_id == c.tmdb_id {
                return "discovery";
            }
            k += 1;
        }
    }
    "shortlist"
}

/// The critic's verdict names the candidate by TMDB reference.
pub open spec fn assessment_names(a: CandidateAssessment, c: CandidateView) -> bool {
    c.tmdb_id.is_some() && a.id@ == tmdb_ref(c.tmdb_id.unwrap())
}

pub open spec fn first_assessment_naming(a: Seq<CandidateAssessment>, c: CandidateView, i: int) -> Option<int>
    decreases a.len() - i,
{
    if i >= a.len() {
        None
    } else if assessment_names(a[i], c) {
        Some(i)
    } else {
        first_assessment_naming(a, c, i + 1)
    }
}

proof fn lemma_no_assessment(a: Seq<CandidateAssessment>, c: CandidateView, i: int)
    requires
        c.tmdb_id.is_none(),
    ensures
        first_assessment_naming(a, c, i).is_none(),
    decreases a.len() - i,
{
    if i < a.len() {
        lemma_no_assessment(a, c, i + 1);
    }
}

/// The first critic verdict on the candidate.
pub fn matching_assessment(c: &CandidateView, critic: &CriticReport) -> (r: Option<usize>)
    ensures
        match r {
            Some(i) => first_assessment_naming(critic.candidate_assessments@, *c, 0) == Some(i as int),
            None => first_assessment_naming(critic.candidate_assessments@, *c, 0).is_none(),
        },
{
    let a = &critic.candidate_assessments;
    let t = match c.tmdb_id {
        Some(t) => t,
        None => {
            proof {
                lemma_no_assessment(a@, *c, 0);
            }
            return None;
        },
    };
    let r = ref_chars(t);
    let mut i: usize = 0;
    while i < a.len()
        invariant
            i <= a.len(),
            c.tmdb_id == Some(t),
            a@ == critic.candidate_assessments@,
            r@ == tmdb_ref(t),
            first_assessment_naming(a@, *c, 0) == first_assessment_naming(a@, *c, i as int),
        decreases a.len() - i,
    {
        if seq_eq(&chars_of(a[i].id.as_str()), &r) {
            assert(assessment_names(a@[i as int], *c));
            assert(first_assessment_naming(a@, *c, i as int) == Some(i as int));
            return Some(i);
        }
        i += 1;
    }
    None
}

/// The reasons a pick shows: its display reasons, or its reasons when it
/// has none, with duplicates collapsed.
pub fn pick_reasons(s: &ScoredCandidate) -> (out: Vec<String>)
    ensures
        strs(out@) == canonical_lines(
            if s.display_reasons@.len() == 0 {
                strs(s.reasons@)
            } else {
                strs(s.display_reasons@)
            },
        ),
{
    let lines = if s.display_reasons.len() == 0 {
        copy_lines(&s.reasons)
    } else {
        copy_lines(&s.display_reasons)
    };
    canonicalize_reason_lines(lines)
}

fn copy_lines(v: &Vec<String>) -> (out: Vec<String>)
    ensures
        strs(out@) == strs(v@),
{
    let mut out: Vec<String> = Vec::new();
    let mut i: usize = 0;
    while i < v.len()
        invariant
            i <= v.len(),
            strs(out@) == strs(v@.take(i as int)),
        decreases v.len() - i,
    {
        let ghost before = out@;
        out.push(v[i].clone());
        assert(strs(out@) =~= strs(before).push(v@[i as int]@));
        i += 1;
        assert(strs(v@.take(i as int)) =~= strs(v@.take(i - 1)).push(v@[i - 1]@));
    }
    assert(v@.take(v.len() as int) =~= v@);
    out
}


/// The picked films are valid indices, at most two, with distinct library
/// keys.
pub open spec fn sound_picks(films: Seq<FilmRecord>, p: Seq<int>) -> bool {
    &&& p.len() <= MAX_EVIDENCE_ITEMS
    &&& forall|k: int| 0 <= k < p.len() ==> 0 <= #[trigger] p[k] < films.len()
    &&& forall|a: int, b: int| 0 <= a < b < p.len() ==> films[p[a]].key@ != films[p[b]].key@
}

proof fn lemma_offer_sound(films: Seq<FilmRecord>, p: Seq<int>, f: int)
    requires
        sound_picks(films, p),
        0 <= f < films.len(),
    ensures
        sound_picks(films, offer(films, p, f)),
{
    let o = offer(films, p, f);
    if o != p {
        assert(o == p.push(f));
        assert forall|a: int, b: int| 0 <= a < b < o.len() implies films[o[a]].key@ != films[o[b]].key@ by {
            if b == p.len() {
                assert(o[a] == p[a]);
                if films[p[a]].key@ == films[f].key@ {
                    assert(exists|k: int| 0 <= k < p.len() && #[trigger] films[p[k]].key@ == films[f].key@);
                }
            } else {
                assert(o[a] == p[a] && o[b] == p[b]);
            }
        }
    }
}

proof fn lemma_film_with_tmdb_bounds(films: Seq<FilmRecord>, id: i64, i: int)
    requires
        0 <= i,
    ensures
        film_with_tmdb(films, id, i) matches Some(f) ==> 0 <= f < films.len(),
    decreases films.len() - i,
{
    if i < films.len() && films[i].tmdb_id != Some(id) {
        lemma_film_with_tmdb_bounds(films, id, i + 1);
    }
}

proof fn lemma_films_titled_bounds(films: Seq<FilmRecord>, key: Seq<char>)
    ensures
        forall|k: int| 0 <= k < films_titled(films, key).len() ==> 0 <= #[trigger] films_titled(films, key)[k] < films.len(),
    decreases films.len(),
{
    if films.len() > 0 {
        lemma_films_titled_bounds(films.drop_last(), key);
        let r = films_titled(films.drop_last(), key);
        let t = films_titled(films, key);
        assert forall|k: int| 0 <= k < t.len() implies 0 <= #[trigger] t[k] < films.len() by {
            if k < r.len() {
                assert(t[k] == r[k]);
            }
        }
    }
}

/// A pick cites at most two of the viewer's films, never one library film
/// twice.
pub proof fn lemma_evidence_items_sound(
    sources: Seq<RetrievalSource>,
    titles: Seq<Seq<char>>,
    films: Seq<FilmRecord>,
)
    ensures
        sound_picks(films, evidence_items_spec(sources, titles, films)),
{
    lemma_seed_picks_sound(sources, films);
    lemma_title_picks_sound(titles, films, seed_picks(sources, films));
}

proof fn lemma_seed_picks_sound(sources: Seq<RetrievalSource>, films: Seq<FilmRecord>)
    ensures
        sound_picks(films, seed_picks(sources, films)),
    decreases sources.len(),
{
    if sources.len() > 0 {
        lemma_seed_picks_sound(sources.drop_last(), films);
        let s = sources.last();
        if s.kind.related() && s.seed_tmdb_id.is_some() {
            lemma_film_with_tmdb_bounds(films, s.seed_tmdb_id.unwrap(), 0);
            match film_with_tmdb(films, s.seed_tmdb_id.unwrap(), 0) {
                Some(f) => lemma_offer_sound(films, seed_picks(sources.drop_last(), films), f),
                None => {},
            }
        }
    }
}

proof fn lemma_title_picks_sound(titles: Seq<Seq<char>>, films: Seq<FilmRecord>, start: Seq<int>)
    requires
        sound_picks(films, start),
    ensures
        sound_picks(films, title_picks(titles, films, start)),
    decreases titles.len(),
{
    if titles.len() > 0 {
        lemma_title_picks_sound(titles.drop_last(), films, start);
        let m = films_titled(films, title_key(titles.last()));
        lemma_films_titled_bounds(films, title_key(titles.last()));
        if m.len() == 1 {
            lemma_offer_sound(films, title_picks(titles.drop_last(), films, start), m[0]);
        }
    }
}

// ---------------------------------------------------------------------------
// Features a pick is attributed to
// ---------------------------------------------------------------------------

pub open spec fn same_feature(a: MatchedFeatureView, b: MatchedFeatureView) -> bool {
    &&& a.feature_key@ == b.feature_key@
    &&& a.name@ == b.name@
    &&& a.family@ == b.family@
    &&& a.appearances == b.appearances
    &&& a.recommendation_mean == b.recommendation_mean
    &&& a.scoring_affinity == b.scoring_affinity
    &&& a.confidence == b.confidence
    &&& a.portability == b.portability
    &&& a.citeable == b.citeable
    &&& a.cited == b.cited
}

pub open spec fn same_features(a: Seq<MatchedFeatureView>, b: Seq<MatchedFeatureView>) -> bool {
    a.len() == b.len() && forall|i: int| 0 <= i < a.len() ==> same_feature(#[trigger] a[i], b[i])
}

/// The matched features cited as reasons and recommended positively.
pub open spec fn cited_for(f: Seq<MatchedFeatureView>) -> Seq<MatchedFeatureView>
    decreases f.len(),
{
    if f.len() == 0 {
        Seq::empty()
    } else {
        let r = cited_for(f.drop_last());
        if f.last().cited && f.last().recommendation_mean > 0 {
            r.push(f.last())
        } else {
            r
        }
    }
}

/// The hidden features the candidate's negative features name (up to ASCII
/// case).
pub open spec fn cited_against(f: Seq<MatchedFeatureView>, negative: Seq<Seq<char>>) -> Seq<MatchedFeatureView>
    decreases f.len(),
{
    if f.len() == 0 {
        Seq::empty()
    } else {
        let r = cited_against(f.drop_last(), negative);
        if crate::features::any_eq_ic(negative, f.last().name@) {
            r.push(f.last())
        } else {
            r
        }
    }
}

pub(crate) fn copy_feature(f: &MatchedFeatureView) -> (c: MatchedFeatureView)
    ensures
        same_feature(c, *f),
{
    MatchedFeatureView {
        feature_key: f.feature_key.clone(),
        name: f.name.clone(),
        family: f.family.clone(),
        appearances: f.appearances,
        recommendation_mean: f.recommendation_mean,
        scoring_affinity: f.scoring_affinity,
        confidence: f.confidence,
        portability: f.portability,
        citeable: f.citeable,
        cited: f.cited,
    }
}

/// The features a pick is attributed to: the cited, positively recommended
/// matched features, and the hidden features its negative features name.
pub fn cited_features(s: &ScoredCandidate) -> (r: (Vec<MatchedFeatureView>, Vec<MatchedFeatureView>))
    ensures
        same_features(r.0@, cited_for(s.matched_features@)),
        same_features(r.1@, cited_against(s.hidden_features@, strs(s.negative_features@))),
{
    let m = &s.matched_features;
    let mut pos: Vec<MatchedFeatureView> = Vec::new();
    let mut i: usize = 0;
    while i < m.len()
        invariant
            i <= m.len(),
            m@ == s.matched_features@,
            same_features(pos@, cited_for(m@.take(i as int))),
        decreases m.len() - i,
    {
        assert(m@.take(i + 1).drop_last() =~= m@.take(i as int));
        assert(m@.take(i + 1).last() == m@[i as int]);
        if m[i].cited && m[i].recommendation_mean > 0 {
            pos.push(copy_feature(&m[i]));
        }
        i += 1;
    }
    assert(m@.take(m.len() as int) =~= m@);
    let h = &s.hidden_features;
    let mut neg: Vec<MatchedFeatureView> = Vec::new();
    let mut j: usize = 0;
    while j < h.len()
        invariant
            j <= h.len(),
            h@ == s.hidden_features@,
            same_features(neg@, cited_against(h@.take(j as int), strs(s.negative_features@))),
        decreases h.len() - j,
    {
        assert(h@.take(j + 1).drop_last() =~= h@.take(j as int));
        assert(h@.take(j + 1).last() == h@[j as int]);
        let name = chars_of(h[j].name.as_str());
        if crate::features::any_eq_ignore_case(s.negative_features.as_slice(), &name) {
            neg.push(copy_feature(&h[j]));
        }
        j += 1;
    }
    assert(h@.take(h.len() as int) =~= h@);
    (pos, neg)
}

} // verus!
