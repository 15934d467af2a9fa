//! Experience dimensions: the kinds of pleasure a film offers, read from its
//! genres, craft credits and keywords.
use vstd::prelude::*;
use crate::features::{
    any_eq_ic, job_family, family_for_job, keyword_is_taste_signal, role_of, strs, views, Credit,
    EvidenceFilm, FeatureFamily, Keyword, KeywordRole, RECENT_YEARS,
};
use crate::text::{chars_of, contains, contains_chars, string_of, unicode_lower, unicode_lowercase};

verus! {

/// Familiarity (thousandths) at which a film counts as comfort viewing.
pub const COMFORT_FAMILIARITY: i32 = 600;
pub const MODE_MIN_MEMBERS: usize = 5;

#[derive(Clone, Copy, PartialEq, Eq, Structural, Debug, Hash)]
pub enum ExperienceDimension {
    Visual,
    Story,
    Intensity,
    Comedy,
    Spectacle,
    Atmosphere,
    Comfort,
}

/// How strongly the viewer's liked films offer one dimension. Strength and
/// shares are in thousandths.
#[derive(Clone, Debug)]
pub struct TasteDimensionView {
    pub name: String,
    pub strength: u128,
    pub evidence: Vec<EvidenceFilm>,
    pub recent_share: i32,
    pub long_term_share: i32,
}

/// A dimension strong enough to count as a mode of the viewer's taste.
/// Strength and shares are in thousandths.
#[derive(Clone, Debug)]
pub struct TasteMode {
    pub dimension: String,
    pub strength: u128,
    pub members: Vec<EvidenceFilm>,
    pub recent_share: i32,
    pub long_term_share: i32,
}

/// A dimension whose recent share differs from its long-term share, in
/// thousandths.
#[derive(Clone, Debug)]
pub struct ModeShift {
    pub dimension: String,
    pub long_term: i32,
    pub recent: i32,
    pub delta: i64,
}

pub open spec fn dimension_name(d: ExperienceDimension) -> Seq<char> {
    match d {
        ExperienceDimension::Visual => "visual"@,
        ExperienceDimension::Story => "story"@,
        ExperienceDimension::Intensity => "intensity"@,
        ExperienceDimension::Comedy => "comedy"@,
        ExperienceDimension::Spectacle => "spectacle"@,
        ExperienceDimension::Atmosphere => "atmosphere"@,
        ExperienceDimension::Comfort => "comfort"@,
    }
}

impl ExperienceDimension {
    /// Every dimension, in display order.
    pub fn all() -> (a: [ExperienceDimension; 7])
        ensures
            a@ == seq![
                ExperienceDimension::Visual,
                ExperienceDimension::Story,
                ExperienceDimension::Intensity,
                ExperienceDimension::Comedy,
                ExperienceDimension::Spectacle,
                ExperienceDimension::Atmosphere,
                ExperienceDimension::Comfort,
            ],
    {
        let a = [
            ExperienceDimension::Visual,
            ExperienceDimension::Story,
            ExperienceDimension::Intensity,
            ExperienceDimension::Comedy,
            ExperienceDimension::Spectacle,
            ExperienceDimension::Atmosphere,
            ExperienceDimension::Comfort,
        ];
        assert(a@ =~= seq![
            ExperienceDimension::Visual,
            ExperienceDimension::Story,
            ExperienceDimension::Intensity,
            ExperienceDimension::Comedy,
            ExperienceDimension::Spectacle,
            ExperienceDimension::Atmosphere,
            ExperienceDimension::Comfort,
        ]);
        a
    }

    pub fn as_str(self) -> (s: &'static str)
        ensures
            s@ == dimension_name(self),
    {
        match self {
            ExperienceDimension::Visual => "visual",
            ExperienceDimension::Story => "story",
            ExperienceDimension::Intensity => "intensity",
            ExperienceDimension::Comedy => "comedy",
            ExperienceDimension::Spectacle => "spectacle",
            ExperienceDimension::Atmosphere => "atmosphere",
            ExperienceDimension::Comfort => "comfort",
        }
    }
}

pub open spec fn visual_keywords() -> Seq<Seq<char>> {
    seq!["imax"@, "cinematography"@, "neo-noir"@, "film noir"@, "atmospheric"@, "one-shot"@, "long take"@]
}

fn visual_keyword_list() -> (v: Vec<&'static str>)
    ensures
        views(v@) == visual_keywords(),
{
    let v = vec!["imax", "cinematography", "neo-noir", "film noir", "atmospheric", "one-shot", "long take"];
    assert(views(v@) =~= visual_keywords());
    v
}

/// A keyword whose lower-cased name contains a visual term.
pub open spec fn visual_keyword(name: Seq<char>) -> bool {
    exists|j: int| 0 <= j < visual_keywords().len() && contains(unicode_lowercase(name), #[trigger] visual_keywords()[j])
}

pub open spec fn has_visual_keyword(keywords: Seq<Keyword>) -> bool {
    exists|i: int| 0 <= i < keywords.len() && visual_keyword(#[trigger] keywords[i].name@)
}

pub open spec fn has_job(credits: Seq<Credit>, f: FeatureFamily) -> bool {
    exists|i: int| 0 <= i < credits.len() && job_family(#[trigger] credits[i].job@) == Some(f)
}

/// Whether a film with these facts offers the dimension. Comfort reads the
/// film's familiarity (thousandths) instead.
pub open spec fn in_dimension(
    d: ExperienceDimension,
    genres: Seq<Seq<char>>,
    credits: Seq<Credit>,
    keywords: Seq<Keyword>,
    familiarity: i32,
) -> bool {
    match d {
        ExperienceDimension::Visual => has_job(credits, FeatureFamily::Cinematographer)
            || has_visual_keyword(keywords),
        ExperienceDimension::Story => has_job(credits, FeatureFamily::Writer) || any_eq_ic(
            genres,
            "Drama"@,
        ),
        ExperienceDimension::Intensity => any_eq_ic(genres, "Thriller"@) || any_eq_ic(
            genres,
            "Horror"@,
        ),
        ExperienceDimension::Comedy => any_eq_ic(genres, "Comedy"@),
        ExperienceDimension::Spectacle => any_eq_ic(genres, "Action"@) || any_eq_ic(
            genres,
            "Science Fiction"@,
        ) || any_eq_ic(genres, "Sci-Fi"@) || any_eq_ic(genres, "Fantasy"@),
        ExperienceDimension::Atmosphere => any_eq_ic(genres, "Mystery"@) || has_visual_keyword(
            keywords,
        ),
        ExperienceDimension::Comfort => familiarity >= COMFORT_FAMILIARITY,
    }
}

fn keywords_visual(keywords: &[Keyword]) -> (b: bool)
    ensures
        b == has_visual_keyword(keywords@),
{
    let list = visual_keyword_list();
    let mut i: usize = 0;
    while i < keywords.len()
        invariant
            i <= keywords.len(),
            views(list@) == visual_keywords(),
            forall|k: int| 0 <= k < i ==> !visual_keyword(#[trigger] keywords@[k].name@),
        decreases keywords.len() - i,
    {
        let n = chars_of(keywords[i].name.as_str());
        let l = unicode_lower(&n);
        let mut j: usize = 0;
        while j < list.len()
            invariant
                j <= list.len(),
                i < keywords.len(),
                views(list@) == visual_keywords(),
                l@ == unicode_lowercase(keywords@[i as int].name@),
                forall|k: int| 0 <= k < i ==> !visual_keyword(#[trigger] keywords@[k].name@),
                forall|m: int| 0 <= m < j ==> !contains(l@, #[trigger] visual_keywords()[m]),
            decreases list.len() - j,
        {
            let t = chars_of(list[j]);
            if contains_chars(&l, &t) {
                assert(views(list@)[j as int] == t@);
                assert(visual_keyword(keywords@[i as int].name@));
                return true;
            }
            j += 1;
        }
        assert forall|m: int| 0 <= m < visual_keywords().len() implies !contains(l@, #[trigger] visual_keywords()[m]) by {}
        i += 1;
    }
    false
}

fn credits_have(credits: &[Credit], f: FeatureFamily) -> (b: bool)
    ensures
        b == has_job(credits@, f),
{
    let mut i: usize = 0;
    while i < credits.len()
        invariant
            i <= credits.len(),
            forall|k: int| 0 <= k < i ==> job_family(#[trigger] credits@[k].job@) != Some(f),
        decreases credits.len() - i,
    {
        if family_for_job(credits[i].job.as_str()) == Some(f) {
            return true;
        }
        i += 1;
    }
    false
}

fn genre_is(genres: &[String], name: &str) -> (b: bool)
    ensures
        b == any_eq_ic(strs(genres@), name@),
{
    let n = chars_of(name);
    crate::features::any_eq_ignore_case(genres, &n)
}

pub fn film_in_dimension(
    dim: ExperienceDimension,
    genres: &[String],
    credits: &[Credit],
    keywords: &[Keyword],
    familiarity: i32,
) -> (b: bool)
    ensures
        b == in_dimension(dim, strs(genres@), credits@, keywords@, familiarity),
{
    match dim {
        ExperienceDimension::Visual => credits_have(credits, FeatureFamily::Cinematographer)
            || keywords_visual(keywords),
        ExperienceDimension::Story => credits_have(credits, FeatureFamily::Writer) || genre_is(
            genres,
            "Drama",
        ),
        ExperienceDimension::Intensity => genre_is(genres, "Thriller") || genre_is(genres, "Horror"),
        ExperienceDimension::Comedy => genre_is(genres, "Comedy"),
        ExperienceDimension::Spectacle => genre_is(genres, "Action") || genre_is(
            genres,
            "Science Fiction",
        ) || genre_is(genres, "Sci-Fi") || genre_is(genres, "Fantasy"),
        ExperienceDimension::Atmosphere => genre_is(genres, "Mystery") || keywords_visual(keywords),
        ExperienceDimension::Comfort => familiarity >= COMFORT_FAMILIARITY,
    }
}

/// The names of the non-comfort dimensions among the first `n` that the film offers.
pub open spec fn predicted_upto(
    genres: Seq<Seq<char>>,
    credits: Seq<Credit>,
    keywords: Seq<Keyword>,
    n: int,
) -> Seq<Seq<char>>
    decreases n,
{
    let all = seq![
        ExperienceDimension::Visual,
        ExperienceDimension::Story,
        ExperienceDimension::Intensity,
        ExperienceDimension::Comedy,
        ExperienceDimension::Spectacle,
        ExperienceDimension::Atmosphere,
        ExperienceDimension::Comfort,
    ];
    if n <= 0 {
        Seq::empty()
    } else {
        let r = predicted_upto(genres, credits, keywords, n - 1);
        let d = all[n - 1];
        if d != ExperienceDimension::Comfort && in_dimension(d, genres, credits, keywords, 0) {
            r.push(dimension_name(d))
        } else {
            r
        }
    }
}

/// The experience modes a candidate offers, in display order (comfort is a
/// property of the viewer, never predicted).
pub fn predicted_modes(genres: &[String], credits: &[Credit], keywords: &[Keyword]) -> (out: Vec<
    String,
>)
    ensures
        strs(out@) == predicted_upto(strs(genres@), credits@, keywords@, 7),
{
    let all = ExperienceDimension::all();
    let mut out: Vec<String> = Vec::new();
    let mut i: usize = 0;
    while i < 7
        invariant
            i <= 7,
            all@ == seq![
                ExperienceDimension::Visual,
                ExperienceDimension::Story,
                ExperienceDimension::Intensity,
                ExperienceDimension::Comedy,
                ExperienceDimension::Spectacle,
                ExperienceDimension::Atmosphere,
                ExperienceDimension::Comfort,
            ],
            strs(out@) == predicted_upto(strs(genres@), credits@, keywords@, i as int),
        decreases 7 - i,
    {
        let d = all[i];
        if d != ExperienceDimension::Comfort && film_in_dimension(d, genres, credits, keywords, 0) {
            let ghost before = out@;
            out.push(string_of(&chars_of(d.as_str())));
            assert(strs(out@) =~= strs(before).push(dimension_name(d)));
        }
        i += 1;
    }
    out
}


// ---------------------------------------------------------------------------
// Deriving dimensions, modes and shifts from the viewer's history
// ---------------------------------------------------------------------------

/// Share gap (thousandths) between recent and long-term viewing that counts
/// as a shift.
pub const MODE_SHIFT_DELTA: i32 = 250;
/// Recent liked films needed before shifts are reported.
pub const SHIFT_RECENT_N: usize = 8;
/// Older liked films needed before shifts are reported.
pub const SHIFT_LONG_N: usize = 20;
/// Evidence films listed per dimension.
pub const DIMENSION_EVIDENCE: usize = 6;

/// The viewer's signal on a film, in thousandths: how much it is liked, how
/// much it counts toward recommendations, and how familiar it is.
#[derive(Clone, Copy, Debug)]
pub struct ModeSignal {
    pub affinity_preference: i32,
    pub recommendation_weight: u32,
    pub familiarity_strength: i32,
}

/// A film of the viewer's history as the modes read it. `rating` (stars)
/// and `age_years` are in thousandths.
#[derive(Clone, Debug)]
pub struct ModeFilm {
    pub title: String,
    pub rating: Option<i32>,
    pub tmdb_id: Option<i64>,
    pub genres: Vec<String>,
    pub credits: Vec<Credit>,
    pub keywords: Vec<Keyword>,
    pub signal: Option<ModeSignal>,
    pub age_years: Option<i32>,
}

pub open spec fn liked(f: ModeFilm) -> bool {
    match f.signal {
        Some(s) => s.affinity_preference > 0,
        None => false,
    }
}

pub open spec fn recent(f: ModeFilm) -> bool {
    match f.age_years {
        Some(y) => y <= RECENT_YEARS,
        None => false,
    }
}

pub open spec fn weight(f: ModeFilm) -> int {
    match f.signal {
        Some(s) => s.recommendation_weight as int,
        None => 0,
    }
}

pub open spec fn familiarity(f: ModeFilm) -> i32 {
    match f.signal {
        Some(s) => s.familiarity_strength,
        None => 0,
    }
}

/// A liked film that offers the dimension.
pub open spec fn member(d: ExperienceDimension, f: ModeFilm) -> bool {
    liked(f) && in_dimension(d, strs(f.genres@), f.credits@, f.keywords@, familiarity(f))
}

/// Total recommendation weight of the liked films.
pub open spec fn liked_weight(films: Seq<ModeFilm>) -> int
    decreases films.len(),
{
    if films.len() == 0 {
        0
    } else {
        liked_weight(films.drop_last()) + if liked(films.last()) {
            weight(films.last())
        } else {
            0
        }
    }
}

pub open spec fn liked_count(films: Seq<ModeFilm>, recent_only: bool) -> int
    decreases films.len(),
{
    if films.len() == 0 {
        0
    } else {
        liked_count(films.drop_last(), recent_only) + if liked(films.last()) && (!recent_only
            || recent(films.last())) {
            1int
        } else {
            0
        }
    }
}

/// Weight of the dimension's members (only the recent ones when asked).
pub open spec fn member_weight(films: Seq<ModeFilm>, d: ExperienceDimension, recent_only: bool) -> int
    decreases films.len(),
{
    if films.len() == 0 {
        0
    } else {
        member_weight(films.drop_last(), d, recent_only) + if member(d, films.last()) && (
        !recent_only || recent(films.last())) {
            weight(films.last())
        } else {
            0
        }
    }
}

pub open spec fn member_count(films: Seq<ModeFilm>, d: ExperienceDimension) -> int
    decreases films.len(),
{
    if films.len() == 0 {
        0
    } else {
        member_count(films.drop_last(), d) + if member(d, films.last()) {
            1int
        } else {
            0
        }
    }
}

/// The dimension's members that carry a rating, in history order.
pub open spec fn rated_members(films: Seq<ModeFilm>, d: ExperienceDimension) -> Seq<ModeFilm>
    decreases films.len(),
{
    if films.len() == 0 {
        Seq::empty()
    } else {
        let r = rated_members(films.drop_last(), d);
        if member(d, films.last()) && films.last().rating.is_some() {
            r.push(films.last())
        } else {
            r
        }
    }
}

/// The names of the keywords that are taste signals.
pub open spec fn signal_keyword_names(ks: Seq<Keyword>) -> Seq<Seq<char>>
    decreases ks.len(),
{
    if ks.len() == 0 {
        Seq::empty()
    } else {
        let r = signal_keyword_names(ks.drop_last());
        if role_of(ks.last().name@) != KeywordRole::Ignore {
            r.push(ks.last().name@)
        } else {
            r
        }
    }
}

/// `e` cites the rated film `f`: its title, rating and id, the names of its
/// credits, its taste-signal keywords and its genres.
pub open spec fn evidence_of(f: ModeFilm, e: EvidenceFilm) -> bool {
    &&& e.title@ == f.title@
    &&& f.rating == Some(e.rating)
    &&& e.tmdb_id == f.tmdb_id
    &&& strs(e.people@) == f.credits@.map_values(|c: Credit| c.name@)
    &&& strs(e.keywords@) == signal_keyword_names(f.keywords@)
    &&& strs(e.genres@) == strs(f.genres@)
    &&& e.year.is_none()
    &&& e.runtime.is_none()
}

pub open spec fn evidence_list(es: Seq<EvidenceFilm>, fs: Seq<ModeFilm>) -> bool {
    es.len() == fs.len() && forall|i: int| 0 <= i < fs.len() ==> evidence_of(fs[i], #[trigger] es[i])
}

fn film_liked(f: &ModeFilm) -> (b: bool)
    ensures
        b == liked(*f),
{
    match f.signal {
        Some(s) => s.affinity_preference > 0,
        None => false,
    }
}

fn film_recent(f: &ModeFilm) -> (b: bool)
    ensures
        b == recent(*f),
{
    match f.age_years {
        Some(y) => (y as i64) <= (RECENT_YEARS as i64),
        None => false,
    }
}

fn film_weight(f: &ModeFilm) -> (w: u32)
    ensures
        w == weight(*f),
{
    match f.signal {
        Some(s) => s.recommendation_weight,
        None => 0,
    }
}

fn film_member(d: ExperienceDimension, f: &ModeFilm) -> (b: bool)
    ensures
        b == member(d, *f),
{
    if !film_liked(f) {
        return false;
    }
    let fam: i32 = match f.signal {
        Some(s) => s.familiarity_strength,
        None => 0,
    };
    film_in_dimension(d, f.genres.as_slice(), f.credits.as_slice(), f.keywords.as_slice(), fam)
}

pub(crate) fn copy_strings(v: &Vec<String>) -> (out: Vec<String>)
    ensures
        strs(out@) == strs(v@),
{
    let mut out: Vec<String> = Vec::new();
    let mut i: usize = 0;
    while i < v.len()
        invariant
            i <= v.len(),
            strs(out@) == strs(v@.take(i as int)),
        decreases v.len() - i,
    {
        let ghost before = out@;
        out.push(v[i].clone());
        assert(strs(out@) =~= strs(before).push(v@[i as int]@));
        i += 1;
        assert(strs(v@.take(i as int)) =~= strs(v@.take(i - 1)).push(v@[i - 1]@));
    }
    assert(v@.take(v.len() as int) =~= v@);
    out
}

pub(crate) fn credit_names(cs: &Vec<Credit>) -> (out: Vec<String>)
    ensures
        strs(out@) == cs@.map_values(|c: Credit| c.name@),
{
    let mut out: Vec<String> = Vec::new();
    let mut i: usize = 0;
    while i < cs.len()
        invariant
            i <= cs.len(),
            strs(out@) == cs@.take(i as int).map_values(|c: Credit| c.name@),
        decreases cs.len() - i,
    {
        let ghost before = out@;
        out.push(cs[i].name.clone());
        assert(strs(out@) =~= strs(before).push(cs@[i as int].name@));
        i += 1;
        assert(cs@.take(i as int).map_values(|c: Credit| c.name@) =~= cs@.take(i - 1).map_values(
            |c: Credit| c.name@,
        ).push(cs@[i - 1].name@));
    }
    assert(cs@.take(cs.len() as int) =~= cs@);
    out
}

pub(crate) fn signal_names(ks: &Vec<Keyword>) -> (out: Vec<String>)
    ensures
        strs(out@) == signal_keyword_names(ks@),
{
    let mut out: Vec<String> = Vec::new();
    let mut i: usize = 0;
    while i < ks.len()
        invariant
            i <= ks.len(),
            strs(out@) == signal_keyword_names(ks@.take(i as int)),
        decreases ks.len() - i,
    {
        let ghost before = out@;
        assert(ks@.take(i + 1).drop_last() =~= ks@.take(i as int));
        if keyword_is_taste_signal(ks[i].name.as_str()) {
            out.push(ks[i].name.clone());
            assert(strs(out@) =~= strs(before).push(ks@[i as int].name@));
        }
        i += 1;
    }
    assert(ks@.take(ks.len() as int) =~= ks@);
    out
}

fn evidence_from(f: &ModeFilm) -> (e: EvidenceFilm)
    requires
        f.rating.is_some(),
    ensures
        evidence_of(*f, e),
{
    let rating = match f.rating {
        Some(r) => r,
        None => 0,
    };
    EvidenceFilm {
        title: f.title.clone(),
        rating,
        tmdb_id: f.tmdb_id,
        people: credit_names(&f.credits),
        keywords: signal_names(&f.keywords),
        genres: copy_strings(&f.genres),
        year: None,
        runtime: None,
    }
}

fn copy_evidence(es: &Vec<EvidenceFilm>, Ghost(fs): Ghost<Seq<ModeFilm>>) -> (out: Vec<EvidenceFilm>)
    requires
        evidence_list(es@, fs),
    ensures
        evidence_list(out@, fs),
{
    let mut out: Vec<EvidenceFilm> = Vec::new();
    let mut i: usize = 0;
    while i < es.len()
        invariant
            i <= es.len(),
            evidence_list(es@, fs),
            out@.len() == i,
            forall|k: int| 0 <= k < i ==> evidence_of(fs[k], #[trigger] out@[k]),
        decreases es.len() - i,
    {
        let e = &es[i];
        assert(evidence_of(fs[i as int], es@[i as int]));
        let c = EvidenceFilm {
            title: e.title.clone(),
            rating: e.rating,
            tmdb_id: e.tmdb_id,
            people: copy_strings(&e.people),
            keywords: copy_strings(&e.keywords),
            genres: copy_strings(&e.genres),
            year: None,
            runtime: None,
        };
        out.push(c);
        i += 1;
    }
    out
}


/// What the history says of one dimension: the weight of its liked members
/// (thousandths), the recent and long-term shares of all liked weight
/// (thousandths), how many members it has, and up to six rated members to
/// cite.
pub struct DimStat {
    pub dim: ExperienceDimension,
    pub strength: int,
    pub recent_share: int,
    pub long_share: int,
    pub members: int,
    pub evidence: Seq<ModeFilm>,
}

/// `w` as thousandths of `total` (0 when nothing is liked).
pub open spec fn share(w: int, total: int) -> int {
    if total > 0 {
        w * 1000 / total
    } else {
        0
    }
}

pub open spec fn first_evidence(s: Seq<ModeFilm>) -> Seq<ModeFilm> {
    if s.len() > DIMENSION_EVIDENCE {
        s.take(DIMENSION_EVIDENCE as int)
    } else {
        s
    }
}

pub open spec fn dim_stat(films: Seq<ModeFilm>, d: ExperienceDimension) -> DimStat {
    let total = liked_weight(films);
    let strength = member_weight(films, d, false);
    let recent_w = member_weight(films, d, true);
    let long_w = if strength - recent_w > 0 {
        strength - recent_w
    } else {
        0
    };
    DimStat {
        dim: d,
        strength,
        recent_share: share(recent_w, total),
        long_share: share(long_w, total),
        members: member_count(films, d),
        evidence: first_evidence(rated_members(films, d)),
    }
}

pub open spec fn all_dims() -> Seq<ExperienceDimension> {
    seq![
        ExperienceDimension::Visual,
        ExperienceDimension::Story,
        ExperienceDimension::Intensity,
        ExperienceDimension::Comedy,
        ExperienceDimension::Spectacle,
        ExperienceDimension::Atmosphere,
        ExperienceDimension::Comfort,
    ]
}

/// One statistic per dimension, in display order.
pub open spec fn dim_stats(films: Seq<ModeFilm>) -> Seq<DimStat> {
    all_dims().map_values(|d: ExperienceDimension| dim_stat(films, d))
}

/// The dimensions with at least one member.
pub open spec fn nonempty_stats(st: Seq<DimStat>) -> Seq<DimStat>
    decreases st.len(),
{
    if st.len() == 0 {
        Seq::empty()
    } else {
        let r = nonempty_stats(st.drop_last());
        if st.last().members > 0 {
            r.push(st.last())
        } else {
            r
        }
    }
}

/// The dimensions with enough members to be a mode.
pub open spec fn modal_stats(st: Seq<DimStat>) -> Seq<DimStat>
    decreases st.len(),
{
    if st.len() == 0 {
        Seq::empty()
    } else {
        let r = modal_stats(st.drop_last());
        if st.last().members >= MODE_MIN_MEMBERS {
            r.push(st.last())
        } else {
            r
        }
    }
}

/// Where `x` goes in `s` (sorted by strength, strongest first): after every
/// entry at least as strong.
pub open spec fn strength_pos(s: Seq<DimStat>, x: DimStat, i: int) -> int
    decreases s.len() - i,
{
    if i >= s.len() || s[i].strength < x.strength {
        i
    } else {
        strength_pos(s, x, i + 1)
    }
}

/// Stable sort by strength, strongest first.
pub open spec fn by_strength(s: Seq<DimStat>) -> Seq<DimStat>
    decreases s.len(),
{
    if s.len() == 0 {
        Seq::empty()
    } else {
        let r = by_strength(s.drop_last());
        r.insert(strength_pos(r, s.last(), 0), s.last())
    }
}

/// The modes whose recent share moved far enough from the long-term one.
pub open spec fn shifted(ms: Seq<DimStat>) -> Seq<DimStat>
    decreases ms.len(),
{
    if ms.len() == 0 {
        Seq::empty()
    } else {
        let r = shifted(ms.drop_last());
        let delta = ms.last().recent_share - ms.last().long_share;
        if delta >= MODE_SHIFT_DELTA || -delta >= MODE_SHIFT_DELTA {
            r.push(ms.last())
        } else {
            r
        }
    }
}

/// Shifts are reported only with enough recent and older liked films.
pub open spec fn shift_gate(films: Seq<ModeFilm>) -> bool {
    liked_count(films, true) >= SHIFT_RECENT_N && liked_count(films, false) - liked_count(
        films,
        true,
    ) >= SHIFT_LONG_N
}

pub open spec fn dimension_view_of(v: TasteDimensionView, st: DimStat) -> bool {
    &&& v.name@ == dimension_name(st.dim)
    &&& v.strength == st.strength
    &&& v.recent_share == st.recent_share
    &&& v.long_term_share == st.long_share
    &&& evidence_list(v.evidence@, st.evidence)
}

pub open spec fn mode_view_of(m: TasteMode, st: DimStat) -> bool {
    &&& m.dimension@ == dimension_name(st.dim)
    &&& m.strength == st.strength
    &&& m.recent_share == st.recent_share
    &&& m.long_term_share == st.long_share
    &&& evidence_list(m.members@, st.evidence)
}

pub open spec fn shift_view_of(x: ModeShift, st: DimStat) -> bool {
    &&& x.dimension@ == dimension_name(st.dim)
    &&& x.long_term == st.long_share
    &&& x.recent == st.recent_share
    &&& x.delta == st.recent_share - st.long_share
}

pub open spec fn dimension_views(v: Seq<TasteDimensionView>, st: Seq<DimStat>) -> bool {
    v.len() == st.len() && forall|i: int| 0 <= i < st.len() ==> dimension_view_of(#[trigger] v[i], st[i])
}

pub open spec fn mode_views(v: Seq<TasteMode>, st: Seq<DimStat>) -> bool {
    v.len() == st.len() && forall|i: int| 0 <= i < st.len() ==> mode_view_of(#[trigger] v[i], st[i])
}

pub open spec fn shift_views(v: Seq<ModeShift>, st: Seq<DimStat>) -> bool {
    v.len() == st.len() && forall|i: int| 0 <= i < st.len() ==> shift_view_of(#[trigger] v[i], st[i])
}

proof fn lemma_weights_ordered(films: Seq<ModeFilm>, d: ExperienceDimension)
    ensures
        0 <= member_weight(films, d, true) <= member_weight(films, d, false) <= liked_weight(films),
        0 <= liked_count(films, true) <= liked_count(films, false),
    decreases films.len(),
{
    if films.len() > 0 {
        lemma_weights_ordered(films.drop_last(), d);
    }
}

proof fn lemma_share_bound(w: int, total: int)
    requires
        0 <= w <= total,
    ensures
        0 <= share(w, total) <= 1000,
{
    if total > 0 {
        assert(0 <= w * 1000 / total <= 1000) by (nonlinear_arith)
            requires
                0 <= w <= total,
                total > 0,
        {
            assert(w * 1000 <= total * 1000);
            assert((total * 1000) / total == 1000);
        }
    }
}


fn liked_totals(films: &[ModeFilm]) -> (r: (u128, usize, usize))
    ensures
        r.0 == liked_weight(films@),
        r.0 < 0x1_0000_0000_0000_0000_0000_0000,
        r.1 == liked_count(films@, false),
        r.2 == liked_count(films@, true),
        r.2 <= r.1,
{
    let mut total: u128 = 0;
    let mut n: usize = 0;
    let mut recent_n: usize = 0;
    let mut i: usize = 0;
    while i < films.len()
        invariant
            i <= films.len(),
            total == liked_weight(films@.take(i as int)),
            total <= i * 0x1_0000_0000,
            n == liked_count(films@.take(i as int), false),
            recent_n == liked_count(films@.take(i as int), true),
            recent_n <= n <= i,
        decreases films.len() - i,
    {
        let f = &films[i];
        assert(films@.take(i + 1).drop_last() =~= films@.take(i as int));
        if film_liked(f) {
            total = total + film_weight(f) as u128;
            n = n + 1;
            if film_recent(f) {
                recent_n = recent_n + 1;
            }
        }
        i += 1;
    }
    assert(films@.take(films.len() as int) =~= films@);
    (total, n, recent_n)
}

/// Member weight, recent member weight, member count and cited members of
/// one dimension.
fn stat_for(films: &[ModeFilm], d: ExperienceDimension) -> (r: (u128, u128, usize, Vec<EvidenceFilm>))
    ensures
        r.0 == member_weight(films@, d, false),
        r.1 == member_weight(films@, d, true),
        r.0 < 0x1_0000_0000_0000_0000_0000_0000,
        r.2 == member_count(films@, d),
        evidence_list(r.3@, first_evidence(rated_members(films@, d))),
{
    let mut strength: u128 = 0;
    let mut recent_w: u128 = 0;
    let mut count: usize = 0;
    let mut evidence: Vec<EvidenceFilm> = Vec::new();
    let mut i: usize = 0;
    while i < films.len()
        invariant
            i <= films.len(),
            strength == member_weight(films@.take(i as int), d, false),
            recent_w == member_weight(films@.take(i as int), d, true),
            recent_w <= strength <= i * 0x1_0000_0000,
            count == member_count(films@.take(i as int), d),
            count <= i,
            evidence_list(evidence@, first_evidence(rated_members(films@.take(i as int), d))),
        decreases films.len() - i,
    {
        let f = &films[i];
        let ghost prev = films@.take(i as int);
        assert(films@.take(i + 1).drop_last() =~= prev);
        assert(films@.take(i + 1).last() == *f);
        if film_member(d, f) {
            let w = film_weight(f) as u128;
            strength = strength + w;
            if film_recent(f) {
                recent_w = recent_w + w;
            }
            count = count + 1;
            if f.rating.is_some() {
                let ghost rm = rated_members(prev, d);
                if evidence.len() < DIMENSION_EVIDENCE {
                    let e = evidence_from(f);
                    let ghost old_ev = evidence@;
                    evidence.push(e);
                    assert(first_evidence(rm.push(*f)) =~= first_evidence(rm).push(*f));
                    assert forall|k: int| 0 <= k < evidence@.len() implies evidence_of(
                        first_evidence(rm.push(*f))[k],
                        #[trigger] evidence@[k],
                    ) by {
                        if k < old_ev.len() {
                            assert(evidence@[k] == old_ev[k]);
                        }
                    }
                } else {
                    assert(first_evidence(rm.push(*f)) =~= first_evidence(rm));
                }
            }
        }
        i += 1;
    }
    assert(films@.take(films.len() as int) =~= films@);
    (strength, recent_w, count, evidence)
}

fn share_of(w: u128, total: u128) -> (r: i32)
    requires
        w <= total,
        total < 0x1_0000_0000_0000_0000_0000_0000,
    ensures
        r == share(w as int, total as int),
{
    proof {
        lemma_share_bound(w as int, total as int);
    }
    if total > 0 {
        (w * 1000 / total) as i32
    } else {
        0
    }
}

/// The viewer's experience dimensions, modes and mode shifts. A dimension
/// appears when a liked film offers it; it is a mode with at least five
/// members; modes are ordered by strength (stable); a mode has shifted when
/// its recent and long-term shares differ by at least a quarter, which is
/// only reported with at least eight recent and twenty older liked films.
pub fn derive(films: &[ModeFilm]) -> (r: (Vec<TasteDimensionView>, Vec<TasteMode>, Vec<ModeShift>))
    ensures
        dimension_views(r.0@, nonempty_stats(dim_stats(films@))),
        mode_views(r.1@, by_strength(modal_stats(dim_stats(films@)))),
        shift_views(
            r.2@,
            if shift_gate(films@) {
                shifted(by_strength(modal_stats(dim_stats(films@))))
            } else {
                Seq::empty()
            },
        ),
{
    let (total, liked_n, recent_n) = liked_totals(films);
    let ghost stats = dim_stats(films@);
    let all = ExperienceDimension::all();
    let mut dims: Vec<TasteDimensionView> = Vec::new();
    let mut modes: Vec<TasteMode> = Vec::new();
    let mut j: usize = 0;
    while j < 7
        invariant
            j <= 7,
            all@ == all_dims(),
            stats == dim_stats(films@),
            total == liked_weight(films@),
            total < 0x1_0000_0000_0000_0000_0000_0000,
            dimension_views(dims@, nonempty_stats(stats.take(j as int))),
            mode_views(modes@, by_strength(modal_stats(stats.take(j as int)))),
        decreases 7 - j,
    {
        let d = all[j];
        let ghost st = dim_stat(films@, d);
        assert(stats[j as int] == st);
        assert(stats.take(j + 1).drop_last() =~= stats.take(j as int));
        assert(stats.take(j + 1).last() == st);
        let (strength, recent_w, count, evidence) = stat_for(films, d);
        proof {
            lemma_weights_ordered(films@, d);
        }
        let long_w = strength - recent_w;
        let recent_share = share_of(recent_w, total);
        let long_share = share_of(long_w, total);
        if count > 0 {
            let ghost before = dims@;
            let view = TasteDimensionView {
                name: string_of(&chars_of(d.as_str())),
                strength,
                evidence: copy_evidence(&evidence, Ghost(st.evidence)),
                recent_share,
                long_term_share: long_share,
            };
            dims.push(view);
            assert forall|k: int| 0 <= k < dims@.len() implies dimension_view_of(
                #[trigger] dims@[k],
                nonempty_stats(stats.take(j + 1))[k],
            ) by {
                if k < before.len() {
                    assert(dims@[k] == before[k]);
                }
            }
        }
        if count < MODE_MIN_MEMBERS {
            assert(modal_stats(stats.take(j + 1)) == modal_stats(stats.take(j as int)));
        } else {
            let ghost sorted = by_strength(modal_stats(stats.take(j as int)));
            let ghost before = modes@;
            let mut p: usize = 0;
            while p < modes.len() && modes[p].strength >= strength
                invariant
                    p <= modes.len(),
                    mode_views(modes@, sorted),
                    strength == st.strength,
                    strength_pos(sorted, st, 0) == strength_pos(sorted, st, p as int),
                decreases modes.len() - p,
            {
                assert(mode_view_of(modes@[p as int], sorted[p as int]));
                p += 1;
            }
            assert(strength_pos(sorted, st, p as int) == p);
            let m = TasteMode {
                dimension: string_of(&chars_of(d.as_str())),
                strength,
                members: evidence,
                recent_share,
                long_term_share: long_share,
            };
            modes.insert(p, m);
            assert(modal_stats(stats.take(j + 1)) == modal_stats(stats.take(j as int)).push(st));
            assert(modal_stats(stats.take(j as int)).push(st).drop_last() =~= modal_stats(
                stats.take(j as int),
            ));
            assert(by_strength(modal_stats(stats.take(j + 1))) == sorted.insert(p as int, st));
            assert forall|k: int| 0 <= k < modes@.len() implies mode_view_of(
                #[trigger] modes@[k],
                sorted.insert(p as int, st)[k],
            ) by {
                if k < p {
                    assert(modes@[k] == before[k]);
                } else if k > p {
                    assert(modes@[k] == before[k - 1]);
                }
            }
        }
        j += 1;
    }
    assert(stats.take(7) =~= stats);
    let mut shifts: Vec<ModeShift> = Vec::new();
    let ghost ms = by_strength(modal_stats(stats));
    if recent_n >= SHIFT_RECENT_N && liked_n - recent_n >= SHIFT_LONG_N {
        let mut k: usize = 0;
        while k < modes.len()
            invariant
                k <= modes.len(),
                mode_views(modes@, ms),
                shift_views(shifts@, shifted(ms.take(k as int))),
            decreases modes.len() - k,
        {
            let m = &modes[k];
            assert(mode_view_of(modes@[k as int], ms[k as int]));
            assert(ms.take(k + 1).drop_last() =~= ms.take(k as int));
            assert(ms.take(k + 1).last() == ms[k as int]);
            let delta: i64 = m.recent_share as i64 - m.long_term_share as i64;
            if delta >= MODE_SHIFT_DELTA as i64 || -delta >= MODE_SHIFT_DELTA as i64 {
                let ghost before = shifts@;
                shifts.push(
                    ModeShift {
                        dimension: string_of(&chars_of(m.dimension.as_str())),
                        long_term: m.long_term_share,
                        recent: m.recent_share,
                        delta,
                    },
                );
                assert forall|q: int| 0 <= q < shifts@.len() implies shift_view_of(
                    #[trigger] shifts@[q],
                    shifted(ms.take(k + 1))[q],
                ) by {
                    if q < before.len() {
                        assert(shifts@[q] == before[q]);
                    }
                }
            }
            k += 1;
        }
        assert(ms.take(modes.len() as int) =~= ms);
    }
    (dims, modes, shifts)
}

} // verus!
