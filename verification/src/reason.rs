//! The model passes: the critic's and the narrator's reports, and the
//! checks that keep a narrative grounded in the viewer's own evidence.
use vstd::prelude::*;
use crate::explain::{utf8_len, utf8_len_of};
use crate::dimensions::{TasteDimensionView, TasteMode};
use crate::explain::{opt_lt, seq_less, seq_lt};
use crate::features::{views, strs, EvidenceFilm, FeatureAffinity, FeatureFamily, FeatureProfile};
use crate::text::{
    append_chars, ascii_lower, chars_of, contains, contains_chars, find, find_from, is_ascii_alnum,
    is_ascii_alpha, is_alnum, is_alpha, is_whitespace, lower_ascii, lower_ascii_char, string_of,
    trim, trim_chars, unicode_lower, unicode_lowercase, unicode_white_space,
};

verus! {

/// A taste the narrative names, with the evidence it cites.
#[derive(Clone, Debug)]
pub struct TasteAffinity {
    pub label: String,
    pub evidence: String,
}

/// The narrative's take on one experience dimension.
#[derive(Clone, Debug)]
pub struct TasteDimension {
    pub name: String,
    pub take: String,
}

/// A film cited as evidence.
#[derive(Clone, Debug)]
pub struct TasteEvidence {
    pub title: String,
    pub film_id: Option<String>,
    pub tmdb_id: Option<i64>,
    pub poster: Option<String>,
}

/// The critic's verdict on one shortlisted candidate.
#[derive(Clone, Debug)]
pub struct CandidateAssessment {
    pub id: String,
    pub fit: String,
    pub reason: String,
    pub concerns: Vec<String>,
}

/// A facet of the viewer's taste the shortlist misses.
#[derive(Clone, Debug)]
pub struct TasteGap {
    pub facet: String,
    pub missing_from_shortlist: bool,
}

/// A search the critic proposes to fill a gap.
#[derive(Clone, Debug)]
pub struct DiscoveryQuery {
    pub query: String,
    pub target_facet: String,
    pub why: String,
}

/// The first model pass: assessments, gaps and discovery queries.
#[derive(Clone, Debug)]
pub struct CriticReport {
    pub candidate_assessments: Vec<CandidateAssessment>,
    pub taste_gaps: Vec<TasteGap>,
    pub discovery_queries: Vec<DiscoveryQuery>,
}

/// One pick of the narrator.
#[derive(Clone, Debug)]
pub struct ReasonerPick {
    pub id: String,
    pub title: String,
    pub year: Option<i32>,
    pub why: String,
    pub mode: String,
    pub rhymes_with: Vec<String>,
}

/// The second model pass: the narrative and its picks.
#[derive(Clone, Debug)]
pub struct ReasonerReport {
    pub title: String,
    pub summary: String,
    pub affinities: Vec<TasteAffinity>,
    pub aversions: Vec<TasteAffinity>,
    pub dimensions: Vec<TasteDimension>,
    pub picks: Vec<ReasonerPick>,
}

/// The critic report used when the critic pass yields nothing usable.
pub fn empty_critic() -> (c: CriticReport)
    ensures
        c.candidate_assessments@.len() == 0,
        c.taste_gaps@.len() == 0,
        c.discovery_queries@.len() == 0,
{
    CriticReport {
        candidate_assessments: Vec::new(),
        taste_gaps: Vec::new(),
        discovery_queries: Vec::new(),
    }
}


// ---------------------------------------------------------------------------
// Words and phrases
// ---------------------------------------------------------------------------

/// `s` split at every character that is not an ASCII letter or digit: the
/// finished pieces and the piece still open.
pub open spec fn alnum_split(s: Seq<char>) -> (Seq<Seq<char>>, Seq<char>)
    decreases s.len(),
{
    if s.len() == 0 {
        (Seq::empty(), Seq::empty())
    } else {
        let (done, cur) = alnum_split(s.drop_last());
        if is_ascii_alnum(s.last()) {
            (done, cur.push(s.last()))
        } else {
            (done.push(cur), Seq::empty())
        }
    }
}

/// The pieces of `s.split(|c| !c.is_ascii_alphanumeric())`.
pub open spec fn alnum_pieces(s: Seq<char>) -> Seq<Seq<char>> {
    alnum_split(s).0.push(alnum_split(s).1)
}

/// The pieces longer than two characters, lower-cased.
pub open spec fn long_lower(pieces: Seq<Seq<char>>) -> Seq<Seq<char>>
    decreases pieces.len(),
{
    if pieces.len() == 0 {
        Seq::empty()
    } else {
        let r = long_lower(pieces.drop_last());
        if pieces.last().len() > 2 {
            r.push(ascii_lower(pieces.last()))
        } else {
            r
        }
    }
}

/// The lower-cased words of a title that are longer than two characters.
pub open spec fn title_tokens_spec(title: Seq<char>) -> Seq<Seq<char>> {
    long_lower(alnum_pieces(title))
}

fn alnum_pieces_of(v: &Vec<char>) -> (r: Vec<Vec<char>>)
    ensures
        r@.map_values(|p: Vec<char>| p@) == alnum_pieces(v@),
{
    let mut done: Vec<Vec<char>> = Vec::new();
    let mut cur: Vec<char> = Vec::new();
    let mut i: usize = 0;
    while i < v.len()
        invariant
            i <= v.len(),
            (done@.map_values(|p: Vec<char>| p@), cur@) == alnum_split(v@.take(i as int)),
        decreases v.len() - i,
    {
        assert(v@.take((i + 1) as int).drop_last() =~= v@.take(i as int));
        let c = v[i];
        if is_alnum(c) {
            cur.push(c);
        } else {
            let ghost before = done@;
            done.push(cur);
            assert(done@.map_values(|p: Vec<char>| p@) =~= before.map_values(|p: Vec<char>| p@).push(
                done@.last()@,
            ));
            cur = Vec::new();
        }
        i += 1;
    }
    assert(v@.take(v.len() as int) =~= v@);
    let ghost before = done@;
    done.push(cur);
    assert(done@.map_values(|p: Vec<char>| p@) =~= before.map_values(|p: Vec<char>| p@).push(
        done@.last()@,
    ));
    done
}

fn long_lower_of(pieces: &Vec<Vec<char>>) -> (r: Vec<String>)
    ensures
        strs(r@) == long_lower(pieces@.map_values(|p: Vec<char>| p@)),
{
    let ghost pv = pieces@.map_values(|p: Vec<char>| p@);
    let mut r: Vec<String> = Vec::new();
    let mut i: usize = 0;
    while i < pieces.len()
        invariant
            i <= pieces.len(),
            pv == pieces@.map_values(|p: Vec<char>| p@),
            strs(r@) == long_lower(pv.take(i as int)),
        decreases pieces.len() - i,
    {
        assert(pv.take((i + 1) as int).drop_last() =~= pv.take(i as int));
        assert(pv.take((i + 1) as int).last() == pieces@[i as int]@);
        if pieces[i].len() > 2 {
            let l = lower_ascii(&pieces[i]);
            let ghost before = r@;
            r.push(string_of(&l));
            assert(strs(r@) =~= strs(before).push(l@));
        }
        i += 1;
    }
    assert(pv.take(pieces.len() as int) =~= pv);
    r
}

/// The lower-cased words of a title that are longer than two characters
/// (words are runs of ASCII letters and digits).
pub fn title_tokens(title: &str) -> (r: Vec<String>)
    ensures
        strs(r@) == title_tokens_spec(title@),
{
    let v = chars_of(title);
    let pieces = alnum_pieces_of(&v);
    long_lower_of(&pieces)
}

/// Whether the text contains any of the phrases.
pub open spec fn mentions_any(text: Seq<char>, phrases: Seq<Seq<char>>) -> bool {
    exists|i: int| 0 <= i < phrases.len() && contains(text, #[trigger] phrases[i])
}

fn contains_any(text: &Vec<char>, phrases: &Vec<&str>) -> (b: bool)
    ensures
        b == mentions_any(text@, views(phrases@)),
{
    let mut i: usize = 0;
    while i < phrases.len()
        invariant
            i <= phrases.len(),
            forall|k: int| 0 <= k < i ==> !contains(text@, #[trigger] views(phrases@)[k]),
        decreases phrases.len() - i,
    {
        let p = chars_of(phrases[i]);
        assert(views(phrases@)[i as int] == p@);
        if contains_chars(text, &p) {
            return true;
        }
        i += 1;
    }
    false
}

pub open spec fn dislike_phrases() -> Seq<Seq<char>> {
    seq![
        "not enjoy"@,
        "dislike"@,
        "aversion"@,
        "bounce off"@,
        "do not like"@,
        "don't like"@,
        "may not enjoy"@,
        "may not always enjoy"@,
        "not always enjoy"@,
        "mixed reaction"@,
    ]
}

fn dislike_list() -> (v: Vec<&'static str>)
    ensures
        views(v@) == dislike_phrases(),
{
    let v = vec![
        "not enjoy",
        "dislike",
        "aversion",
        "bounce off",
        "do not like",
        "don't like",
        "may not enjoy",
        "may not always enjoy",
        "not always enjoy",
        "mixed reaction",
    ];
    assert(views(v@) =~= dislike_phrases());
    v
}

/// Text that says the viewer dislikes something.
pub open spec fn dislike_spec(text: Seq<char>) -> bool {
    mentions_any(unicode_lowercase(text), dislike_phrases())
}

/// Whether the text says the viewer dislikes something.
pub fn summary_has_dislike_language(text: &str) -> (b: bool)
    ensures
        b == dislike_spec(text@),
{
    let v = chars_of(text);
    let l = unicode_lower(&v);
    let list = dislike_list();
    contains_any(&l, &list)
}

pub open spec fn generic_markers() -> Seq<Seq<char>> {
    seq![
        "action, adventure, and humor"@,
        "action, adventure and humor"@,
        "mix of action"@,
        "eclectic mix"@,
        "wide range of"@,
        "variety of genres"@,
        "diverse range"@,
        "you enjoy a mix"@,
        "you like a mix"@,
        "across a wide range"@,
        "variety of films"@,
        "diverse set of"@,
        "tree or game"@,
        "game themes"@,
        "this user"@,
        "this person"@,
        "the user enjoys"@,
        "the user likes"@,
        "strong visual elements"@,
        "engaging stories and characters"@,
        "clear character arcs"@,
        "emotional resonance"@,
        "overly complex"@,
        "convoluted plots"@,
        "they also enjoy"@,
        "they tend to"@,
        "they enjoy films"@,
    ]
}

fn generic_list() -> (v: Vec<&'static str>)
    ensures
        views(v@) == generic_markers(),
{
    let v = vec![
        "action, adventure, and humor",
        "action, adventure and humor",
        "mix of action",
        "eclectic mix",
        "wide range of",
        "variety of genres",
        "diverse range",
        "you enjoy a mix",
        "you like a mix",
        "across a wide range",
        "variety of films",
        "diverse set of",
        "tree or game",
        "game themes",
        "this user",
        "this person",
        "the user enjoys",
        "the user likes",
        "strong visual elements",
        "engaging stories and characters",
        "clear character arcs",
        "emotional resonance",
        "overly complex",
        "convoluted plots",
        "they also enjoy",
        "they tend to",
        "they enjoy films",
    ];
    assert(views(v@) =~= generic_markers());
    v
}

/// How many of action, adventure, humor and comedy the text names.
pub open spec fn genre_soup(l: Seq<char>) -> int {
    (if contains(l, "action"@) {
        1int
    } else {
        0
    }) + (if contains(l, "adventure"@) {
        1int
    } else {
        0
    }) + (if contains(l, "humor"@) {
        1int
    } else {
        0
    }) + (if contains(l, "comedy"@) {
        1int
    } else {
        0
    })
}

/// Boilerplate that says nothing about this viewer: stock phrases, talk
/// of "they", or a list of three or more broad genres.
pub open spec fn generic_spec(summary: Seq<char>) -> bool {
    let l = unicode_lowercase(summary);
    mentions_any(l, generic_markers()) || (contains(l, "they enjoy"@) && contains(l, "they tend"@))
        || genre_soup(l) >= 3
}

/// Whether a summary (or one of its sentences) is boilerplate.
pub fn summary_is_generic(summary: &str) -> (b: bool)
    ensures
        b == generic_spec(summary@),
{
    let v = chars_of(summary);
    let l = unicode_lower(&v);
    let markers = generic_list();
    if contains_any(&l, &markers) {
        return true;
    }
    if crate::text::contains_str(&l, "they enjoy") && crate::text::contains_str(&l, "they tend") {
        return true;
    }
    let mut soup: u8 = 0;
    if crate::text::contains_str(&l, "action") {
        soup += 1;
    }
    if crate::text::contains_str(&l, "adventure") {
        soup += 1;
    }
    if crate::text::contains_str(&l, "humor") {
        soup += 1;
    }
    if crate::text::contains_str(&l, "comedy") {
        soup += 1;
    }
    soup >= 3
}

/// A sentence that is boilerplate.
pub fn sentence_is_generic(sentence: &str) -> (b: bool)
    ensures
        b == generic_spec(sentence@),
{
    summary_is_generic(sentence)
}

/// The text names a watchlist title (trimmed, at least four bytes long).
pub open spec fn cites_watchlist_spec(text: Seq<char>, titles: Seq<Seq<char>>) -> bool {
    exists|i: int|
        0 <= i < titles.len() && utf8_len(unicode_lowercase(trim(#[trigger] titles[i]))) >= 4
            && contains(unicode_lowercase(text), unicode_lowercase(trim(titles[i])))
}

/// Whether the text names one of the viewer's watchlist titles.
pub fn cites_watchlist(text: &str, watchlist_titles: &[String]) -> (b: bool)
    ensures
        b == cites_watchlist_spec(text@, strs(watchlist_titles@)),
{
    let v = chars_of(text);
    let l = unicode_lower(&v);
    let mut i: usize = 0;
    while i < watchlist_titles.len()
        invariant
            i <= watchlist_titles.len(),
            l@ == unicode_lowercase(text@),
            forall|k: int|
                0 <= k < i ==> !(utf8_len(unicode_lowercase(trim(#[trigger] strs(watchlist_titles@)[k])))
                    >= 4 && contains(l@, unicode_lowercase(trim(strs(watchlist_titles@)[k])))),
        decreases watchlist_titles.len() - i,
    {
        assert(strs(watchlist_titles@)[i as int] == watchlist_titles@[i as int]@);
        let tv = chars_of(watchlist_titles[i].as_str());
        let tt = trim_chars(&tv);
        let t = unicode_lower(&tt);
        let n = utf8_len_of(&t);
        if n >= 4 && contains_chars(&l, &t) {
            return true;
        }
        i += 1;
    }
    false
}

// ---------------------------------------------------------------------------
// Last names and theme claims
// ---------------------------------------------------------------------------

/// `s` split at white space (`split_whitespace`): the finished words and
/// the word still open.
pub open spec fn ws_split(s: Seq<char>) -> (Seq<Seq<char>>, Seq<char>)
    decreases s.len(),
{
    if s.len() == 0 {
        (Seq::empty(), Seq::empty())
    } else {
        let (done, cur) = ws_split(s.drop_last());
        if unicode_white_space(s.last()) {
            (
                if cur.len() > 0 {
                    done.push(cur)
                } else {
                    done
                },
                Seq::empty(),
            )
        } else {
            (done, cur.push(s.last()))
        }
    }
}

/// The words of `s` (`split_whitespace`).
pub open spec fn ws_words(s: Seq<char>) -> Seq<Seq<char>> {
    let (done, cur) = ws_split(s);
    if cur.len() > 0 {
        done.push(cur)
    } else {
        done
    }
}

pub open spec fn alpha_count(w: Seq<char>) -> nat
    decreases w.len(),
{
    if w.len() == 0 {
        0
    } else {
        alpha_count(w.drop_last()) + if is_ascii_alpha(w.last()) {
            1nat
        } else {
            0nat
        }
    }
}

/// The last word with more than two ASCII letters.
pub open spec fn last_long_word(words: Seq<Seq<char>>) -> Option<Seq<char>>
    decreases words.len(),
{
    if words.len() == 0 {
        None
    } else if alpha_count(words.last()) > 2 {
        Some(words.last())
    } else {
        last_long_word(words.drop_last())
    }
}

/// `s` without leading characters that are not ASCII letters.
pub open spec fn trim_start_non_alpha(s: Seq<char>) -> Seq<char>
    decreases s.len(),
{
    if s.len() > 0 && !is_ascii_alpha(s[0]) {
        trim_start_non_alpha(s.drop_first())
    } else {
        s
    }
}

/// `s` without trailing characters that are not ASCII letters.
pub open spec fn trim_end_non_alpha(s: Seq<char>) -> Seq<char>
    decreases s.len(),
{
    if s.len() > 0 && !is_ascii_alpha(s.last()) {
        trim_end_non_alpha(s.drop_last())
    } else {
        s
    }
}

/// The lower-cased last name of a person: the last word with more than two
/// letters (or the whole name), without surrounding non-letters.
pub open spec fn last_name_spec(name: Seq<char>) -> Seq<char> {
    let w = match last_long_word(ws_words(name)) {
        Some(w) => w,
        None => name,
    };
    ascii_lower(trim_end_non_alpha(trim_start_non_alpha(w)))
}

fn ws_words_of(v: &Vec<char>) -> (r: Vec<Vec<char>>)
    ensures
        r@.map_values(|p: Vec<char>| p@) == ws_words(v@),
{
    let mut done: Vec<Vec<char>> = Vec::new();
    let mut cur: Vec<char> = Vec::new();
    let mut i: usize = 0;
    while i < v.len()
        invariant
            i <= v.len(),
            (done@.map_values(|p: Vec<char>| p@), cur@) == ws_split(v@.take(i as int)),
        decreases v.len() - i,
    {
        assert(v@.take((i + 1) as int).drop_last() =~= v@.take(i as int));
        let c = v[i];
        if is_whitespace(c) {
            if cur.len() > 0 {
                let ghost before = done@;
                done.push(cur);
                assert(done@.map_values(|p: Vec<char>| p@) =~= before.map_values(
                    |p: Vec<char>| p@,
                ).push(done@.last()@));
            }
            cur = Vec::new();
        } else {
            cur.push(c);
        }
        i += 1;
    }
    assert(v@.take(v.len() as int) =~= v@);
    if cur.len() > 0 {
        let ghost before = done@;
        done.push(cur);
        assert(done@.map_values(|p: Vec<char>| p@) =~= before.map_values(|p: Vec<char>| p@).push(
            done@.last()@,
        ));
    }
    done
}

fn count_alpha(w: &Vec<char>) -> (n: usize)
    ensures
        n == alpha_count(w@),
{
    let mut n: usize = 0;
    let mut i: usize = 0;
    while i < w.len()
        invariant
            i <= w.len(),
            n <= i,
            n == alpha_count(w@.take(i as int)),
        decreases w.len() - i,
    {
        assert(w@.take((i + 1) as int).drop_last() =~= w@.take(i as int));
        if is_alpha(w[i]) {
            n += 1;
        }
        i += 1;
    }
    assert(w@.take(w.len() as int) =~= w@);
    n
}

fn trim_non_alpha(v: &Vec<char>) -> (r: Vec<char>)
    ensures
        r@ == trim_end_non_alpha(trim_start_non_alpha(v@)),
{
    let n = v.len();
    let mut a: usize = 0;
    assert(v@.subrange(0, n as int) =~= v@);
    while a < n && !is_alpha(v[a])
        invariant
            a <= n == v.len(),
            trim_start_non_alpha(v@) == trim_start_non_alpha(v@.subrange(a as int, n as int)),
        decreases n - a,
    {
        assert(v@.subrange(a as int, n as int).drop_first() =~= v@.subrange(a + 1, n as int));
        a += 1;
    }
    let ghost rest = v@.subrange(a as int, n as int);
    let mut b: usize = n;
    assert(rest.subrange(0, (n - a) as int) =~= rest);
    while b > a && !is_alpha(v[b - 1])
        invariant
            a <= b <= n == v.len(),
            rest == v@.subrange(a as int, n as int),
            trim_end_non_alpha(rest) == trim_end_non_alpha(rest.subrange(0, (b - a) as int)),
        decreases b,
    {
        assert(rest.subrange(0, (b - a) as int).drop_last() =~= rest.subrange(0, (b - a - 1) as int));
        b -= 1;
    }
    let r = crate::text::slice_chars(v, a, b);
    assert(r@ =~= rest.subrange(0, (b - a) as int));
    r
}

fn last_long_index(words: &Vec<Vec<char>>) -> (r: Option<usize>)
    ensures
        match r {
            Some(j) => j < words.len() && last_long_word(words@.map_values(|p: Vec<char>| p@))
                == Some(words@[j as int]@),
            None => last_long_word(words@.map_values(|p: Vec<char>| p@)) is None,
        },
{
    let ghost wv = words@.map_values(|p: Vec<char>| p@);
    let mut k: usize = words.len();
    assert(wv.take(k as int) =~= wv);
    while k > 0
        invariant
            k <= words.len(),
            wv == words@.map_values(|p: Vec<char>| p@),
            last_long_word(wv) == last_long_word(wv.take(k as int)),
        decreases k,
    {
        assert(wv.take(k as int).drop_last() =~= wv.take(k - 1));
        assert(wv.take(k as int).last() == words@[k - 1]@);
        if count_alpha(&words[k - 1]) > 2 {
            return Some(k - 1);
        }
        k -= 1;
    }
    assert(wv.take(0) =~= Seq::<Seq<char>>::empty());
    None
}

/// A person's lower-cased last name, as matched against summaries.
pub fn last_name(name: &str) -> (r: String)
    ensures
        r@ == last_name_spec(name@),
{
    let v = chars_of(name);
    let words = ws_words_of(&v);
    let w = match last_long_index(&words) {
        Some(j) => words[j].clone(),
        None => v.clone(),
    };
    let t = trim_non_alpha(&w);
    let l = lower_ascii(&t);
    string_of(&l)
}

pub open spec fn stop_words() -> Seq<Seq<char>> {
    seq![
        "the"@, "and"@, "or"@, "of"@, "your"@, "you"@, "with"@, "from"@, "that"@, "this"@,
        "about"@, "around"@, "including"@, "into"@, "for"@, "its"@, "their"@, "recurring"@,
        "visual"@, "story"@, "strongest"@, "lanes"@,
    ]
}

fn stop_list() -> (v: Vec<&'static str>)
    ensures
        views(v@) == stop_words(),
{
    let v = vec![
        "the", "and", "or", "of", "your", "you", "with", "from", "that", "this", "about", "around",
        "including", "into", "for", "its", "their", "recurring", "visual", "story", "strongest",
        "lanes",
    ];
    assert(views(v@) =~= stop_words());
    v
}

/// The pieces longer than two characters that are not stop words.
pub open spec fn claim_words(pieces: Seq<Seq<char>>) -> Seq<Seq<char>>
    decreases pieces.len(),
{
    if pieces.len() == 0 {
        Seq::empty()
    } else {
        let r = claim_words(pieces.drop_last());
        if pieces.last().len() > 2 && !stop_words().contains(pieces.last()) {
            r.push(pieces.last())
        } else {
            r
        }
    }
}

/// Where a sentence first mentions a theme (or, failing that, a motif).
pub open spec fn theme_index(l: Seq<char>) -> int {
    if find_from(l, "theme"@, 0) >= 0 {
        find_from(l, "theme"@, 0)
    } else {
        find_from(l, "motif"@, 0)
    }
}

/// The up to four words just before a sentence's first "theme" (or "motif"),
/// nearest first: what the sentence claims is a theme.
pub open spec fn theme_claims_spec(sentence: Seq<char>) -> Seq<Seq<char>> {
    let l = unicode_lowercase(sentence);
    let k = theme_index(l);
    if k < 0 {
        Seq::empty()
    } else {
        let w = claim_words(alnum_pieces(l.take(k))).reverse();
        if w.len() <= 4 {
            w
        } else {
            w.take(4)
        }
    }
}

fn in_words(list: &Vec<&str>, w: &Vec<char>) -> (b: bool)
    ensures
        b == views(list@).contains(w@),
{
    let mut i: usize = 0;
    while i < list.len()
        invariant
            i <= list.len(),
            forall|k: int| 0 <= k < i ==> views(list@)[k] != w@,
        decreases list.len() - i,
    {
        let t = chars_of(list[i]);
        assert(views(list@)[i as int] == t@);
        if crate::text::seq_eq(&t, w) {
            return true;
        }
        i += 1;
    }
    false
}

/// The theme words a sentence claims, nearest to "theme" first.
pub fn theme_claims(sentence: &str) -> (r: Vec<String>)
    ensures
        strs(r@) == theme_claims_spec(sentence@),
{
    let v = chars_of(sentence);
    let l = unicode_lower(&v);
    let theme = chars_of("theme");
    let motif = chars_of("motif");
    let k = match find(&l, &theme, 0) {
        Some(k) => k,
        None => match find(&l, &motif, 0) {
            Some(k) => k,
            None => {
                return Vec::new();
            },
        },
    };
    proof {
        crate::text::lemma_find_from_bounds(l@, theme@, 0);
        crate::text::lemma_find_from_bounds(l@, motif@, 0);
    }
    let head = crate::text::slice_chars(&l, 0, k);
    assert(head@ =~= l@.take(k as int));
    let pieces = alnum_pieces_of(&head);
    let ghost pv = pieces@.map_values(|p: Vec<char>| p@);
    let stops = stop_list();
    let mut kept: Vec<Vec<char>> = Vec::new();
    let mut i: usize = 0;
    while i < pieces.len()
        invariant
            i <= pieces.len(),
            pv == pieces@.map_values(|p: Vec<char>| p@),
            views(stops@) == stop_words(),
            kept@.map_values(|p: Vec<char>| p@) == claim_words(pv.take(i as int)),
        decreases pieces.len() - i,
    {
        assert(pv.take((i + 1) as int).drop_last() =~= pv.take(i as int));
        assert(pv.take((i + 1) as int).last() == pieces@[i as int]@);
        if pieces[i].len() > 2 && !in_words(&stops, &pieces[i]) {
            let ghost before = kept@;
            kept.push(pieces[i].clone());
            assert(kept@.map_values(|p: Vec<char>| p@) =~= before.map_values(|p: Vec<char>| p@).push(
                pieces@[i as int]@,
            ));
        }
        i += 1;
    }
    assert(pv.take(pieces.len() as int) =~= pv);
    let ghost kv = kept@.map_values(|p: Vec<char>| p@);
    let ghost w = kv.reverse();
    let mut out: Vec<String> = Vec::new();
    let mut j: usize = kept.len();
    while j > 0 && out.len() < 4
        invariant
            j <= kept.len(),
            kv == kept@.map_values(|p: Vec<char>| p@),
            w == kv.reverse(),
            out.len() == kept.len() - j,
            out.len() <= 4,
            strs(out@) == w.take((kept.len() - j) as int),
        decreases j,
    {
        out.push(string_of(&kept[j - 1]));
        assert(strs(out@) =~= w.take((kept.len() - j + 1) as int));
        j -= 1;
    }
    proof {
        assert(w.len() == kept.len());
        if w.len() <= 4 {
            assert(j == 0);
            assert(w.take(w.len() as int) =~= w);
        } else {
            assert(out.len() == 4);
        }
    }
    assert(l@ == unicode_lowercase(sentence@));
    assert(head@ == l@.take(theme_index(l@)));
    out
}

// ---------------------------------------------------------------------------
// What the profile supports
// ---------------------------------------------------------------------------

pub open spec fn negative_family(f: FeatureFamily) -> bool {
    f == FeatureFamily::Genre || f == FeatureFamily::Keyword
}

/// A genre or keyword of that (lower-cased) name seen at least five times
/// with a mean of at most -0.08.
pub open spec fn negative_match(a: FeatureAffinity, n: Seq<char>) -> bool {
    ascii_lower(a.key.name@) == n && a.recommendation_mean <= -80 && a.appearances >= 5
        && negative_family(a.key.family)
}

/// The profile holds a clear negative signal for the trimmed needle.
pub open spec fn negative_signal_spec(affs: Seq<FeatureAffinity>, needle: Seq<char>) -> bool {
    let n = ascii_lower(trim(needle));
    n.len() > 0 && exists|i: int| 0 <= i < affs.len() && negative_match(#[trigger] affs[i], n)
}

/// Whether the profile clearly dislikes the named genre or keyword.
pub fn has_negative_signal(profile: &FeatureProfile, needle: &str) -> (b: bool)
    ensures
        b == negative_signal_spec(profile.affinities@, needle@),
{
    let v = chars_of(needle);
    let t = trim_chars(&v);
    let n = lower_ascii(&t);
    if n.len() == 0 {
        return false;
    }
    let affs = &profile.affinities;
    let mut i: usize = 0;
    while i < affs.len()
        invariant
            i <= affs.len(),
            affs == &profile.affinities,
            n@ == ascii_lower(trim(needle@)),
            n@.len() > 0,
            forall|k: int| 0 <= k < i ==> !negative_match(#[trigger] affs@[k], n@),
        decreases affs.len() - i,
    {
        let a = &affs[i];
        let an = chars_of(a.key.name.as_str());
        let al = lower_ascii(&an);
        if crate::text::seq_eq(&al, &n) && a.recommendation_mean <= -80 && a.appearances >= 5 && (
        a.key.family == FeatureFamily::Genre || a.key.family == FeatureFamily::Keyword) {
            assert(negative_match(affs@[i as int], n@));
            return true;
        }
        i += 1;
    }
    false
}

/// An aversion the narrative may keep: one the profile supports.
pub fn aversion_supported(label: &str, profile: &FeatureProfile) -> (b: bool)
    ensures
        b == negative_signal_spec(profile.affinities@, label@),
{
    has_negative_signal(profile, label)
}

pub open spec fn dislike_topics() -> Seq<Seq<char>> {
    seq!["horror"@, "conspiracy"@, "comedy"@, "camp"@, "humor"@, "action"@, "thriller"@]
}

fn topic_list() -> (v: Vec<&'static str>)
    ensures
        views(v@) == dislike_topics(),
{
    let v = vec!["horror", "conspiracy", "comedy", "camp", "humor", "action", "thriller"];
    assert(views(v@) =~= dislike_topics());
    v
}

/// A sentence that claims a dislike of a topic the profile does not show
/// a negative signal for.
pub open spec fn ungrounded_dislike_spec(sentence: Seq<char>, affs: Seq<FeatureAffinity>) -> bool {
    dislike_spec(sentence) && exists|i: int|
        0 <= i < dislike_topics().len() && contains(
            unicode_lowercase(sentence),
            #[trigger] dislike_topics()[i],
        ) && !negative_signal_spec(affs, dislike_topics()[i])
}

/// Whether a sentence claims a dislike the evidence does not support.
pub fn claims_ungrounded_dislike(sentence: &str, profile: &FeatureProfile) -> (b: bool)
    ensures
        b == ungrounded_dislike_spec(sentence@, profile.affinities@),
{
    if !summary_has_dislike_language(sentence) {
        return false;
    }
    let v = chars_of(sentence);
    let l = unicode_lower(&v);
    let topics = topic_list();
    let mut i: usize = 0;
    while i < topics.len()
        invariant
            i <= topics.len(),
            views(topics@) == dislike_topics(),
            l@ == unicode_lowercase(sentence@),
            dislike_spec(sentence@),
            forall|k: int|
                0 <= k < i ==> !(contains(l@, #[trigger] dislike_topics()[k]) && !negative_signal_spec(
                    profile.affinities@,
                    dislike_topics()[k],
                )),
        decreases topics.len() - i,
    {
        let t = chars_of(topics[i]);
        assert(views(topics@)[i as int] == t@);
        if contains_chars(&l, &t) && !has_negative_signal(profile, topics[i]) {
            return true;
        }
        i += 1;
    }
    false
}

pub open spec fn signal_family(f: FeatureFamily) -> bool {
    f == FeatureFamily::Genre || f == FeatureFamily::Director || f == FeatureFamily::Writer || f
        == FeatureFamily::Cinematographer || f == FeatureFamily::Keyword
}

/// Lower-cased names of the citeable genre, craft and keyword features with
/// a mean above 0.05.
pub open spec fn signal_names(affs: Seq<FeatureAffinity>) -> Seq<Seq<char>>
    decreases affs.len(),
{
    if affs.len() == 0 {
        Seq::empty()
    } else {
        let r = signal_names(affs.drop_last());
        let a = affs.last();
        if a.citeable_spec() && a.recommendation_mean > 50 && signal_family(a.key.family) {
            r.push(ascii_lower(a.key.name@))
        } else {
            r
        }
    }
}

/// Everything a title may draw on: mode names, dimension names and the
/// names of liked features, all lower-cased.
pub open spec fn profile_signals_spec(p: FeatureProfile) -> Seq<Seq<char>> {
    p.modes@.map_values(|m: TasteMode| ascii_lower(m.dimension@)) + p.dimensions@.map_values(
        |d: TasteDimensionView| ascii_lower(d.name@),
    ) + signal_names(p.affinities@)
}

/// The names a narrative title may be built from.
pub fn profile_signals(profile: &FeatureProfile) -> (out: Vec<String>)
    ensures
        strs(out@) == profile_signals_spec(*profile),
{
    let mut out: Vec<String> = Vec::new();
    let mut i: usize = 0;
    while i < profile.modes.len()
        invariant
            i <= profile.modes.len(),
            strs(out@) == profile.modes@.take(i as int).map_values(
                |m: TasteMode| ascii_lower(m.dimension@),
            ),
        decreases profile.modes.len() - i,
    {
        let d = chars_of(profile.modes[i].dimension.as_str());
        let l = lower_ascii(&d);
        let ghost before = strs(out@);
        out.push(string_of(&l));
        assert(strs(out@) =~= before.push(l@));
        assert(profile.modes@.take(i + 1) =~= profile.modes@.take(i as int).push(profile.modes@[i as int]));
        i += 1;
        assert(strs(out@) =~= profile.modes@.take(i as int).map_values(
            |m: TasteMode| ascii_lower(m.dimension@),
        ));
    }
    assert(profile.modes@.take(profile.modes.len() as int) =~= profile.modes@);
    let ghost a = strs(out@);
    let mut i: usize = 0;
    while i < profile.dimensions.len()
        invariant
            i <= profile.dimensions.len(),
            strs(out@) == a + profile.dimensions@.take(i as int).map_values(
                |d: TasteDimensionView| ascii_lower(d.name@),
            ),
        decreases profile.dimensions.len() - i,
    {
        let d = chars_of(profile.dimensions[i].name.as_str());
        let l = lower_ascii(&d);
        let ghost before = strs(out@);
        out.push(string_of(&l));
        assert(strs(out@) =~= before.push(l@));
        assert(profile.dimensions@.take(i + 1) =~= profile.dimensions@.take(i as int).push(
            profile.dimensions@[i as int],
        ));
        i += 1;
        assert(strs(out@) =~= a + profile.dimensions@.take(i as int).map_values(
            |d: TasteDimensionView| ascii_lower(d.name@),
        ));
    }
    assert(profile.dimensions@.take(profile.dimensions.len() as int) =~= profile.dimensions@);
    let ghost b = strs(out@);
    let affs = &profile.affinities;
    let mut i: usize = 0;
    while i < affs.len()
        invariant
            i <= affs.len(),
            affs == &profile.affinities,
            strs(out@) == b + signal_names(affs@.take(i as int)),
        decreases affs.len() - i,
    {
        assert(affs@.take((i + 1) as int).drop_last() =~= affs@.take(i as int));
        let f = affs[i].key.family;
        if affs[i].citeable() && affs[i].recommendation_mean > 50 && (f == FeatureFamily::Genre || f
            == FeatureFamily::Director || f == FeatureFamily::Writer || f
            == FeatureFamily::Cinematographer || f == FeatureFamily::Keyword) {
            let d = chars_of(affs[i].key.name.as_str());
            let l = lower_ascii(&d);
            let ghost before = strs(out@);
            out.push(string_of(&l));
            assert(strs(out@) =~= before.push(l@));
        }
        i += 1;
    }
    assert(affs@.take(affs.len() as int) =~= affs@);
    out
}

/// A title word the profile backs: equal to, inside, or containing a signal.
pub open spec fn token_hit(t: Seq<char>, signals: Seq<Seq<char>>) -> bool {
    exists|i: int|
        0 <= i < signals.len() && (#[trigger] signals[i] == t || contains(signals[i], t)
            || contains(t, signals[i]))
}

pub open spec fn hit_count(tokens: Seq<Seq<char>>, signals: Seq<Seq<char>>) -> nat
    decreases tokens.len(),
{
    if tokens.len() == 0 {
        0
    } else {
        hit_count(tokens.drop_last(), signals) + if token_hit(tokens.last(), signals) {
            1nat
        } else {
            0nat
        }
    }
}

/// A title with at least two words, two of which the profile backs.
pub open spec fn title_supported_spec(title: Seq<char>, p: FeatureProfile) -> bool {
    let tokens = title_tokens_spec(title);
    tokens.len() >= 2 && hit_count(tokens, profile_signals_spec(p)) >= 2
}

fn hits(t: &Vec<char>, signals: &Vec<String>) -> (b: bool)
    ensures
        b == token_hit(t@, strs(signals@)),
{
    let mut i: usize = 0;
    while i < signals.len()
        invariant
            i <= signals.len(),
            forall|k: int|
                0 <= k < i ==> !(#[trigger] strs(signals@)[k] == t@ || contains(strs(signals@)[k], t@)
                    || contains(t@, strs(signals@)[k])),
        decreases signals.len() - i,
    {
        let s = chars_of(signals[i].as_str());
        assert(strs(signals@)[i as int] == s@);
        if crate::text::seq_eq(&s, t) || contains_chars(&s, t) || contains_chars(t, &s) {
            return true;
        }
        i += 1;
    }
    false
}

/// Whether a model-written title is backed by the profile.
pub fn title_supported(title: &str, profile: &FeatureProfile) -> (b: bool)
    ensures
        b == title_supported_spec(title@, *profile),
{
    let tokens = title_tokens(title);
    if tokens.len() < 2 {
        return false;
    }
    let signals = profile_signals(profile);
    let mut n: usize = 0;
    let mut i: usize = 0;
    while i < tokens.len()
        invariant
            i <= tokens.len(),
            n <= i,
            strs(signals@) == profile_signals_spec(*profile),
            n == hit_count(strs(tokens@).take(i as int), strs(signals@)),
        decreases tokens.len() - i,
    {
        assert(strs(tokens@).take((i + 1) as int).drop_last() =~= strs(tokens@).take(i as int));
        let t = chars_of(tokens[i].as_str());
        assert(strs(tokens@).take((i + 1) as int).last() == t@);
        if hits(&t, &signals) {
            n += 1;
        }
        i += 1;
    }
    assert(strs(tokens@).take(tokens.len() as int) =~= strs(tokens@));
    n >= 2
}

// ---------------------------------------------------------------------------
// The viewer's craft people
// ---------------------------------------------------------------------------

pub open spec fn craft_family(f: FeatureFamily) -> bool {
    f == FeatureFamily::Director || f == FeatureFamily::Writer || f == FeatureFamily::Cinematographer
}

/// A citeable director, writer or cinematographer with a mean above 0.08.
pub open spec fn craft_person(a: FeatureAffinity) -> bool {
    a.citeable_spec() && a.recommendation_mean > 80 && craft_family(a.key.family)
}

pub open spec fn craft_people(affs: Seq<FeatureAffinity>) -> Seq<FeatureAffinity>
    decreases affs.len(),
{
    if affs.len() == 0 {
        Seq::empty()
    } else {
        let r = craft_people(affs.drop_last());
        if craft_person(affs.last()) {
            r.push(affs.last())
        } else {
            r
        }
    }
}

/// Scoring affinity times portability clamped to [0, 1].
pub open spec fn person_quality(a: FeatureAffinity) -> int {
    let p = if a.portability < 0 {
        0
    } else if a.portability > 1000 {
        1000
    } else {
        a.portability as int
    };
    a.scoring_affinity_spec() * p
}

/// Craft order: higher quality, then family order, then name, then id.
pub open spec fn craft_before(a: FeatureAffinity, b: FeatureAffinity) -> bool {
    let qa = person_quality(a);
    let qb = person_quality(b);
    let ka = a.key.family.sort_key_spec();
    let kb = b.key.family.sort_key_spec();
    if qa != qb {
        qb < qa
    } else if ka != kb {
        ka < kb
    } else if a.key.name@ != b.key.name@ {
        seq_lt(a.key.name@, b.key.name@)
    } else {
        opt_lt(a.key.id, b.key.id)
    }
}

pub open spec fn craft_pos(s: Seq<FeatureAffinity>, x: FeatureAffinity, i: int) -> int
    decreases s.len() - i,
{
    if i >= s.len() || i < 0 {
        s.len() as int
    } else if craft_before(x, s[i]) {
        i
    } else {
        craft_pos(s, x, i + 1)
    }
}

/// A stable sort by [`craft_before`].
pub open spec fn craft_sorted(s: Seq<FeatureAffinity>) -> Seq<FeatureAffinity>
    decreases s.len(),
{
    if s.len() == 0 {
        Seq::empty()
    } else {
        let r = craft_sorted(s.drop_last());
        r.insert(craft_pos(r, s.last(), 0), s.last())
    }
}

/// The (at most three) craft people a summary should name, strongest first.
pub open spec fn top_craft_spec(affs: Seq<FeatureAffinity>) -> Seq<FeatureAffinity> {
    let s = craft_sorted(craft_people(affs));
    if s.len() <= 3 {
        s
    } else {
        s.take(3)
    }
}

pub open spec fn derefs(v: Seq<&FeatureAffinity>) -> Seq<FeatureAffinity> {
    v.map_values(|a: &FeatureAffinity| *a)
}

fn quality_of(a: &FeatureAffinity) -> (q: i128)
    ensures
        q == person_quality(*a),
{
    let sa = a.scoring_affinity();
    let p: i128 = if a.portability < 0 {
        0
    } else if a.portability > 1000 {
        1000
    } else {
        a.portability as i128
    };
    assert(-0x2000_0000_0000_0000_0000_0000_0000 * 1000 <= sa * p <= 0x2000_0000_0000_0000_0000_0000_0000 * 1000) by (nonlinear_arith)
        requires
            -0x2000_0000_0000_0000_0000_0000_0000 <= sa <= 0x2000_0000_0000_0000_0000_0000_0000,
            0 <= p <= 1000,
    ;
    sa * p
}

fn craft_before_exec(a: &FeatureAffinity, b: &FeatureAffinity) -> (r: bool)
    ensures
        r == craft_before(*a, *b),
{
    let qa = quality_of(a);
    let qb = quality_of(b);
    if qa != qb {
        return qb < qa;
    }
    let ka = a.key.family.sort_key();
    let kb = b.key.family.sort_key();
    if ka != kb {
        return ka < kb;
    }
    let na = chars_of(a.key.name.as_str());
    let nb = chars_of(b.key.name.as_str());
    if !crate::text::seq_eq(&na, &nb) {
        return seq_less(&na, &nb);
    }
    match (a.key.id, b.key.id) {
        (Option::None, Some(_)) => true,
        (Some(x), Some(y)) => x < y,
        _ => false,
    }
}

/// The viewer's strongest craft people (at most three).
pub fn top_craft_people(profile: &FeatureProfile) -> (people: Vec<&FeatureAffinity>)
    ensures
        derefs(people@) == top_craft_spec(profile.affinities@),
{
    let affs = &profile.affinities;
    let mut sorted: Vec<&FeatureAffinity> = Vec::new();
    let mut i: usize = 0;
    while i < affs.len()
        invariant
            i <= affs.len(),
            affs == &profile.affinities,
            derefs(sorted@) == craft_sorted(craft_people(affs@.take(i as int))),
        decreases affs.len() - i,
    {
        assert(affs@.take((i + 1) as int).drop_last() =~= affs@.take(i as int));
        let a = &affs[i];
        let f = a.key.family;
        if a.citeable() && a.recommendation_mean > 80 && (f == FeatureFamily::Director || f
            == FeatureFamily::Writer || f == FeatureFamily::Cinematographer) {
            let ghost cur = derefs(sorted@);
            let mut p: usize = 0;
            while p < sorted.len() && !craft_before_exec(a, sorted[p])
                invariant
                    p <= sorted.len(),
                    cur == derefs(sorted@),
                    craft_pos(cur, *a, 0) == craft_pos(cur, *a, p as int),
                decreases sorted.len() - p,
            {
                p += 1;
            }
            sorted.insert(p, a);
            assert(derefs(sorted@) =~= cur.insert(p as int, *a));
            assert(affs@.take((i + 1) as int).last() == *a);
            assert(craft_person(*a));
            let ghost cp = craft_people(affs@.take((i + 1) as int));
            assert(cp == craft_people(affs@.take(i as int)).push(*a));
            assert(cp.drop_last() =~= craft_people(affs@.take(i as int)));
            assert(craft_sorted(cp) == cur.insert(craft_pos(cur, *a, 0), *a));
        } else {
            assert(affs@.take((i + 1) as int).last() == *a);
            assert(!craft_person(*a));
        }
        i += 1;
    }
    assert(affs@.take(affs.len() as int) =~= affs@);
    if sorted.len() > 3 {
        sorted.truncate(3);
        assert(derefs(sorted@) =~= craft_sorted(craft_people(affs@)).take(3));
    }
    sorted
}

/// A summary that names one of the viewer's craft people (by full or last
/// name); trivially so when there are none.
pub open spec fn names_craft_spec(summary: Seq<char>, people: Seq<FeatureAffinity>) -> bool {
    people.len() == 0 || exists|i: int|
        0 <= i < people.len() && (contains(
            unicode_lowercase(summary),
            ascii_lower(#[trigger] people[i].key.name@),
        ) || contains(unicode_lowercase(summary), last_name_spec(people[i].key.name@)))
}

/// Whether a summary names one of the given craft people.
pub fn summary_names_craft(summary: &str, people: &[&FeatureAffinity]) -> (b: bool)
    ensures
        b == names_craft_spec(summary@, derefs(people@)),
{
    if people.len() == 0 {
        return true;
    }
    let v = chars_of(summary);
    let l = unicode_lower(&v);
    let mut i: usize = 0;
    while i < people.len()
        invariant
            i <= people.len(),
            people.len() > 0,
            l@ == unicode_lowercase(summary@),
            forall|k: int|
                0 <= k < i ==> !(contains(l@, ascii_lower(#[trigger] derefs(people@)[k].key.name@))
                    || contains(l@, last_name_spec(derefs(people@)[k].key.name@))),
        decreases people.len() - i,
    {
        assert(derefs(people@)[i as int] == *people@[i as int]);
        let n = chars_of(people[i].key.name.as_str());
        let full = lower_ascii(&n);
        let last = last_name(people[i].key.name.as_str());
        let lastv = chars_of(last.as_str());
        if contains_chars(&l, &full) || contains_chars(&l, &lastv) {
            return true;
        }
        i += 1;
    }
    false
}

// ---------------------------------------------------------------------------
// Themes the evidence supports
// ---------------------------------------------------------------------------

pub open spec fn lowers(v: Seq<String>) -> Seq<Seq<char>> {
    v.map_values(|s: String| ascii_lower(s@))
}

/// A film's title, keywords and genres, lower-cased.
pub open spec fn film_tokens(f: EvidenceFilm) -> Seq<Seq<char>> {
    seq![ascii_lower(f.title@)] + lowers(f.keywords@) + lowers(f.genres@)
}

pub open spec fn films_tokens(s: Seq<EvidenceFilm>) -> Seq<Seq<char>>
    decreases s.len(),
{
    if s.len() == 0 {
        Seq::empty()
    } else {
        films_tokens(s.drop_last()) + film_tokens(s.last())
    }
}

pub open spec fn affinity_tokens(affs: Seq<FeatureAffinity>) -> Seq<Seq<char>>
    decreases affs.len(),
{
    if affs.len() == 0 {
        Seq::empty()
    } else {
        let r = affinity_tokens(affs.drop_last());
        let a = affs.last();
        if a.citeable_spec() {
            r + seq![ascii_lower(a.key.name@)] + films_tokens(a.positive_evidence@) + films_tokens(
                a.negative_evidence@,
            )
        } else {
            r
        }
    }
}

/// The words a theme claim may rest on: citeable feature names, the titles,
/// keywords and genres of their evidence films, and the mode names.
pub open spec fn allowed_tokens_spec(p: FeatureProfile) -> Seq<Seq<char>> {
    affinity_tokens(p.affinities@) + p.modes@.map_values(|m: TasteMode| ascii_lower(m.dimension@))
}

fn push_lowers(out: &mut Vec<String>, v: &Vec<String>)
    ensures
        strs(final(out)@) == strs(old(out)@) + lowers(v@),
{
    let ghost start = strs(out@);
    let mut i: usize = 0;
    while i < v.len()
        invariant
            i <= v.len(),
            strs(out@) == start + lowers(v@.take(i as int)),
        decreases v.len() - i,
    {
        let c = chars_of(v[i].as_str());
        let l = lower_ascii(&c);
        let ghost before = strs(out@);
        out.push(string_of(&l));
        assert(strs(out@) =~= before.push(l@));
        assert(lowers(v@.take((i + 1) as int)) =~= lowers(v@.take(i as int)).push(ascii_lower(v@[i as int]@)));
        i += 1;
    }
    assert(v@.take(v.len() as int) =~= v@);
}

fn push_film_tokens(out: &mut Vec<String>, films: &Vec<EvidenceFilm>)
    ensures
        strs(final(out)@) == strs(old(out)@) + films_tokens(films@),
{
    let ghost start = strs(out@);
    let mut i: usize = 0;
    while i < films.len()
        invariant
            i <= films.len(),
            strs(out@) == start + films_tokens(films@.take(i as int)),
        decreases films.len() - i,
    {
        assert(films@.take((i + 1) as int).drop_last() =~= films@.take(i as int));
        let ghost before = strs(out@);
        let c = chars_of(films[i].title.as_str());
        let l = lower_ascii(&c);
        out.push(string_of(&l));
        push_lowers(out, &films[i].keywords);
        push_lowers(out, &films[i].genres);
        assert(strs(out@) =~= before + film_tokens(films@[i as int]));
        i += 1;
    }
    assert(films@.take(films.len() as int) =~= films@);
}

/// The words a theme claim may rest on.
pub fn allowed_theme_tokens(profile: &FeatureProfile) -> (out: Vec<String>)
    ensures
        strs(out@) == allowed_tokens_spec(*profile),
{
    let affs = &profile.affinities;
    let mut out: Vec<String> = Vec::new();
    let mut i: usize = 0;
    while i < affs.len()
        invariant
            i <= affs.len(),
            affs == &profile.affinities,
            strs(out@) == affinity_tokens(affs@.take(i as int)),
        decreases affs.len() - i,
    {
        assert(affs@.take((i + 1) as int).drop_last() =~= affs@.take(i as int));
        let a = &affs[i];
        if a.citeable() {
            let ghost before = strs(out@);
            let c = chars_of(a.key.name.as_str());
            let l = lower_ascii(&c);
            out.push(string_of(&l));
            assert(strs(out@) =~= before + seq![l@]);
            push_film_tokens(&mut out, &a.positive_evidence);
            push_film_tokens(&mut out, &a.negative_evidence);
        }
        i += 1;
    }
    assert(affs@.take(affs.len() as int) =~= affs@);
    let ghost head = strs(out@);
    let mut i: usize = 0;
    while i < profile.modes.len()
        invariant
            i <= profile.modes.len(),
            strs(out@) == head + profile.modes@.take(i as int).map_values(
                |m: TasteMode| ascii_lower(m.dimension@),
            ),
        decreases profile.modes.len() - i,
    {
        let d = chars_of(profile.modes[i].dimension.as_str());
        let l = lower_ascii(&d);
        let ghost before = strs(out@);
        out.push(string_of(&l));
        assert(strs(out@) =~= before.push(l@));
        assert(profile.modes@.take(i + 1) =~= profile.modes@.take(i as int).push(profile.modes@[i as int]));
        i += 1;
    }
    assert(profile.modes@.take(profile.modes.len() as int) =~= profile.modes@);
    out
}

/// A theme claim no allowed word matches (by containment either way).
pub open spec fn unsupported_claim(claim: Seq<char>, allowed: Seq<Seq<char>>) -> bool {
    !exists|j: int|
        0 <= j < allowed.len() && (contains(#[trigger] allowed[j], claim) || contains(
            claim,
            allowed[j],
        ))
}

/// A sentence claiming a theme the evidence does not support.
pub open spec fn unsupported_theme_spec(sentence: Seq<char>, p: FeatureProfile) -> bool {
    let claims = theme_claims_spec(sentence);
    exists|i: int|
        0 <= i < claims.len() && unsupported_claim(#[trigger] claims[i], allowed_tokens_spec(p))
}

fn claim_supported(claim: &Vec<char>, allowed: &Vec<String>) -> (b: bool)
    ensures
        b == !unsupported_claim(claim@, strs(allowed@)),
{
    let mut j: usize = 0;
    while j < allowed.len()
        invariant
            j <= allowed.len(),
            forall|k: int|
                0 <= k < j ==> !(contains(#[trigger] strs(allowed@)[k], claim@) || contains(
                    claim@,
                    strs(allowed@)[k],
                )),
        decreases allowed.len() - j,
    {
        let a = chars_of(allowed[j].as_str());
        assert(strs(allowed@)[j as int] == a@);
        if contains_chars(&a, claim) || contains_chars(claim, &a) {
            return true;
        }
        j += 1;
    }
    false
}

/// Whether a sentence claims a theme the evidence does not support.
pub fn sentence_has_unsupported_theme(sentence: &str, profile: &FeatureProfile) -> (b: bool)
    ensures
        b == unsupported_theme_spec(sentence@, *profile),
{
    let claims = theme_claims(sentence);
    if claims.len() == 0 {
        return false;
    }
    let allowed = allowed_theme_tokens(profile);
    let mut i: usize = 0;
    while i < claims.len()
        invariant
            i <= claims.len(),
            strs(claims@) == theme_claims_spec(sentence@),
            strs(allowed@) == allowed_tokens_spec(*profile),
            forall|k: int|
                0 <= k < i ==> !unsupported_claim(#[trigger] strs(claims@)[k], strs(allowed@)),
        decreases claims.len() - i,
    {
        let c = chars_of(claims[i].as_str());
        assert(strs(claims@)[i as int] == c@);
        if !claim_supported(&c, &allowed) {
            return true;
        }
        i += 1;
    }
    false
}

// ---------------------------------------------------------------------------
// Deterministic titles and summaries
// ---------------------------------------------------------------------------

/// Modes stronger than 0.15.
pub open spec fn strong_modes(m: Seq<TasteMode>) -> Seq<TasteMode>
    decreases m.len(),
{
    if m.len() == 0 {
        Seq::empty()
    } else {
        let r = strong_modes(m.drop_last());
        if m.last().strength > 150 {
            r.push(m.last())
        } else {
            r
        }
    }
}

/// Mode order: stronger first, then by name.
pub open spec fn mode_before(a: TasteMode, b: TasteMode) -> bool {
    b.strength < a.strength || (a.strength == b.strength && seq_lt(a.dimension@, b.dimension@))
}

pub open spec fn mode_pos(s: Seq<TasteMode>, x: TasteMode, i: int) -> int
    decreases s.len() - i,
{
    if i >= s.len() || i < 0 {
        s.len() as int
    } else if mode_before(x, s[i]) {
        i
    } else {
        mode_pos(s, x, i + 1)
    }
}

/// A stable sort by [`mode_before`].
pub open spec fn modes_sorted(s: Seq<TasteMode>) -> Seq<TasteMode>
    decreases s.len(),
{
    if s.len() == 0 {
        Seq::empty()
    } else {
        let r = modes_sorted(s.drop_last());
        r.insert(mode_pos(r, s.last(), 0), s.last())
    }
}

pub open spec fn upper_char(c: char) -> char {
    if 'a' <= c <= 'z' {
        ((c as u32) - 32) as char
    } else {
        c
    }
}

/// The first character upper-cased (ASCII).
pub open spec fn capitalize(s: Seq<char>) -> Seq<char> {
    if s.len() == 0 {
        s
    } else {
        seq![upper_char(s[0])] + s.skip(1)
    }
}

/// A title from the two strongest modes: "Visual Story", "Visual taste", or
/// "Taste".
pub open spec fn title_spec(p: FeatureProfile) -> Seq<char> {
    let s = modes_sorted(strong_modes(p.modes@));
    if s.len() >= 2 {
        capitalize(s[0].dimension@) + " "@ + capitalize(s[1].dimension@)
    } else if s.len() == 1 {
        capitalize(s[0].dimension@) + " taste"@
    } else {
        "Taste"@
    }
}

fn mode_before_exec(a: &TasteMode, b: &TasteMode) -> (r: bool)
    ensures
        r == mode_before(*a, *b),
{
    if a.strength != b.strength {
        return b.strength < a.strength;
    }
    let x = chars_of(a.dimension.as_str());
    let y = chars_of(b.dimension.as_str());
    seq_less(&x, &y)
}

fn capitalize_of(s: &String) -> (r: Vec<char>)
    ensures
        r@ == capitalize(s@),
{
    let v = chars_of(s.as_str());
    if v.len() == 0 {
        return v;
    }
    let c = v[0];
    let u = if 'a' <= c && c <= 'z' {
        let x: u32 = (c as u32) - 32;
        let b: u8 = x as u8;
        b as char
    } else {
        c
    };
    let mut r: Vec<char> = Vec::new();
    r.push(u);
    let rest = crate::text::slice_chars(&v, 1, v.len());
    append_chars(&mut r, &rest);
    assert(r@ =~= seq![upper_char(v@[0])] + v@.skip(1));
    r
}

/// A title built from the profile's strongest modes.
pub fn deterministic_title(profile: &FeatureProfile) -> (t: String)
    ensures
        t@ == title_spec(*profile),
{
    let modes = &profile.modes;
    let mut sorted: Vec<&TasteMode> = Vec::new();
    let mut i: usize = 0;
    while i < modes.len()
        invariant
            i <= modes.len(),
            modes == &profile.modes,
            sorted@.map_values(|m: &TasteMode| *m) == modes_sorted(strong_modes(modes@.take(i as int))),
        decreases modes.len() - i,
    {
        assert(modes@.take((i + 1) as int).drop_last() =~= modes@.take(i as int));
        let m = &modes[i];
        assert(modes@.take((i + 1) as int).last() == *m);
        if m.strength > 150 {
            let ghost cur = sorted@.map_values(|m: &TasteMode| *m);
            let mut p: usize = 0;
            while p < sorted.len() && !mode_before_exec(m, sorted[p])
                invariant
                    p <= sorted.len(),
                    cur == sorted@.map_values(|m: &TasteMode| *m),
                    mode_pos(cur, *m, 0) == mode_pos(cur, *m, p as int),
                decreases sorted.len() - p,
            {
                p += 1;
            }
            sorted.insert(p, m);
            assert(sorted@.map_values(|m: &TasteMode| *m) =~= cur.insert(p as int, *m));
            let ghost sm = strong_modes(modes@.take((i + 1) as int));
            assert(sm == strong_modes(modes@.take(i as int)).push(*m));
            assert(sm.drop_last() =~= strong_modes(modes@.take(i as int)));
        }
        i += 1;
    }
    assert(modes@.take(modes.len() as int) =~= modes@);
    let ghost sv = sorted@.map_values(|m: &TasteMode| *m);
    if sorted.len() >= 2 {
        assert(sv[0] == *sorted@[0] && sv[1] == *sorted@[1]);
        let mut t = capitalize_of(&sorted[0].dimension);
        crate::text::append_str(&mut t, " ");
        let b = capitalize_of(&sorted[1].dimension);
        append_chars(&mut t, &b);
        string_of(&t)
    } else if sorted.len() == 1 {
        assert(sv[0] == *sorted@[0]);
        let mut t = capitalize_of(&sorted[0].dimension);
        crate::text::append_str(&mut t, " taste");
        string_of(&t)
    } else {
        "Taste".to_owned()
    }
}

/// Adds a loved film's title to the close films: rated 3.5 or more, at most
/// four, no title twice (ignoring ASCII case).
pub open spec fn add_close_films(acc: Seq<Seq<char>>, ev: Seq<EvidenceFilm>) -> Seq<Seq<char>>
    decreases ev.len(),
{
    if ev.len() == 0 {
        acc
    } else {
        let r = add_close_films(acc, ev.drop_last());
        let f = ev.last();
        if f.rating >= 3500 && r.len() < 4 && !crate::features::any_eq_ic(r, f.title@) {
            r.push(f.title@)
        } else {
            r
        }
    }
}

/// The close films of the craft people, in order.
pub open spec fn close_films(people: Seq<FeatureAffinity>) -> Seq<Seq<char>>
    decreases people.len(),
{
    if people.len() == 0 {
        Seq::empty()
    } else {
        add_close_films(close_films(people.drop_last()), people.last().positive_evidence@)
    }
}

/// A summary built from the profile alone: the title's modes, the craft
/// people and up to four of their loved films.
pub open spec fn summary_spec(p: FeatureProfile) -> Seq<char> {
    let lt = unicode_lowercase(title_spec(p));
    let people = top_craft_spec(p.affinities@);
    if people.len() == 0 {
        "Strongest lanes are "@ + lt + "."@
    } else {
        let names = crate::explain::join(
            people.map_values(|a: FeatureAffinity| a.key.name@),
            ", "@,
        );
        let films = close_films(people);
        if films.len() == 0 {
            "Strongest lanes are "@ + lt + ". Recurring craft includes "@ + names + "."@
        } else {
            "Strongest lanes are "@ + lt + ". Recurring craft includes "@ + names
                + ". Close films include "@ + crate::explain::join(films, ", "@) + "."@
        }
    }
}

fn any_title_ic(list: &Vec<Vec<char>>, x: &Vec<char>) -> (b: bool)
    ensures
        b == crate::features::any_eq_ic(list@.map_values(|v: Vec<char>| v@), x@),
{
    let ghost lv = list@.map_values(|v: Vec<char>| v@);
    let mut i: usize = 0;
    while i < list.len()
        invariant
            i <= list.len(),
            lv == list@.map_values(|v: Vec<char>| v@),
            forall|k: int| 0 <= k < i ==> !crate::text::eq_ignore_case(#[trigger] lv[k], x@),
        decreases list.len() - i,
    {
        assert(lv[i as int] == list@[i as int]@);
        if crate::text::eq_ignore_ascii_case(&list[i], x) {
            return true;
        }
        i += 1;
    }
    false
}

/// A summary of the profile that cites nothing the profile does not hold.
pub fn deterministic_summary(profile: &FeatureProfile) -> (s: String)
    ensures
        s@ == summary_spec(*profile),
{
    let title = deterministic_title(profile);
    let tv = chars_of(title.as_str());
    let lt = unicode_lower(&tv);
    let people = top_craft_people(profile);
    if people.len() == 0 {
        let mut out = chars_of("Strongest lanes are ");
        append_chars(&mut out, &lt);
        crate::text::append_str(&mut out, ".");
        return string_of(&out);
    }
    let ghost pv = derefs(people@);
    let mut names: Vec<Vec<char>> = Vec::new();
    let mut films: Vec<Vec<char>> = Vec::new();
    let mut i: usize = 0;
    while i < people.len()
        invariant
            i <= people.len(),
            pv == derefs(people@),
            names@.map_values(|v: Vec<char>| v@) == pv.take(i as int).map_values(
                |a: FeatureAffinity| a.key.name@,
            ),
            films@.map_values(|v: Vec<char>| v@) == close_films(pv.take(i as int)),
        decreases people.len() - i,
    {
        let a = people[i];
        assert(pv[i as int] == *a);
        assert(pv.take((i + 1) as int).drop_last() =~= pv.take(i as int));
        let ghost nb = names@;
        names.push(chars_of(a.key.name.as_str()));
        assert(names@.map_values(|v: Vec<char>| v@) =~= nb.map_values(|v: Vec<char>| v@).push(a.key.name@));
        assert(pv.take((i + 1) as int).map_values(|a: FeatureAffinity| a.key.name@) =~= pv.take(
            i as int,
        ).map_values(|a: FeatureAffinity| a.key.name@).push(a.key.name@));
        let ghost acc0 = films@.map_values(|v: Vec<char>| v@);
        let ev = &a.positive_evidence;
        let mut k: usize = 0;
        while k < ev.len()
            invariant
                k <= ev.len(),
                ev == &a.positive_evidence,
                films@.map_values(|v: Vec<char>| v@) == add_close_films(acc0, ev@.take(k as int)),
            decreases ev.len() - k,
        {
            assert(ev@.take((k + 1) as int).drop_last() =~= ev@.take(k as int));
            let f = &ev[k];
            let t = chars_of(f.title.as_str());
            if f.rating >= 3500 && films.len() < 4 && !any_title_ic(&films, &t) {
                let ghost fb = films@;
                films.push(t);
                assert(films@.map_values(|v: Vec<char>| v@) =~= fb.map_values(|v: Vec<char>| v@).push(
                    f.title@,
                ));
            }
            k += 1;
        }
        assert(ev@.take(ev.len() as int) =~= ev@);
        i += 1;
    }
    assert(pv.take(people.len() as int) =~= pv);
    let joined_names = crate::model::join_parts(&names, ", ");
    let mut out = chars_of("Strongest lanes are ");
    append_chars(&mut out, &lt);
    crate::text::append_str(&mut out, ". Recurring craft includes ");
    append_chars(&mut out, &joined_names);
    if films.len() == 0 {
        crate::text::append_str(&mut out, ".");
    } else {
        crate::text::append_str(&mut out, ". Close films include ");
        let jf = crate::model::join_parts(&films, ", ");
        append_chars(&mut out, &jf);
        crate::text::append_str(&mut out, ".");
    }
    string_of(&out)
}

// ---------------------------------------------------------------------------
// Grounding the narrative
// ---------------------------------------------------------------------------

pub open spec fn is_terminator(c: char) -> bool {
    c == '.' || c == '!' || c == '?'
}

/// `s` split after every `.`, `!` or `?` (`split_inclusive`): the finished
/// sentences and the one still open.
pub open spec fn sentence_split(s: Seq<char>) -> (Seq<Seq<char>>, Seq<char>)
    decreases s.len(),
{
    if s.len() == 0 {
        (Seq::empty(), Seq::empty())
    } else {
        let (done, cur) = sentence_split(s.drop_last());
        let c = s.last();
        if is_terminator(c) {
            (done.push(cur.push(c)), Seq::empty())
        } else {
            (done, cur.push(c))
        }
    }
}

/// The sentences of `s`, each with its terminator.
pub open spec fn sentences(s: Seq<char>) -> Seq<Seq<char>> {
    let (done, cur) = sentence_split(s);
    if cur.len() > 0 {
        done.push(cur)
    } else {
        done
    }
}

/// A sentence the narrative may keep: not blank, no unsupported dislike,
/// no dislike of a watchlist title, not boilerplate, no unsupported theme.
pub open spec fn keep_sentence(t: Seq<char>, p: FeatureProfile, wl: Seq<Seq<char>>) -> bool {
    &&& t.len() > 0
    &&& !ungrounded_dislike_spec(t, p.affinities@)
    &&& !(dislike_spec(t) && cites_watchlist_spec(t, wl))
    &&& !generic_spec(t)
    &&& !unsupported_theme_spec(t, p)
}

/// The kept sentences, trimmed.
pub open spec fn kept_sentences(ss: Seq<Seq<char>>, p: FeatureProfile, wl: Seq<Seq<char>>) -> Seq<
    Seq<char>,
>
    decreases ss.len(),
{
    if ss.len() == 0 {
        Seq::empty()
    } else {
        let r = kept_sentences(ss.drop_last(), p, wl);
        let t = trim(ss.last());
        if keep_sentence(t, p, wl) {
            r.push(t)
        } else {
            r
        }
    }
}

/// A model summary with unsupported sentences removed; the deterministic
/// summary when nothing specific (or no craft person) survives.
pub open spec fn ground_summary_spec(summary: Seq<char>, p: FeatureProfile, wl: Seq<Seq<char>>) -> Seq<
    char,
> {
    let kept = kept_sentences(sentences(summary), p, wl);
    if kept.len() == 0 {
        summary_spec(p)
    } else {
        let joined = crate::explain::join(kept, " "@);
        if generic_spec(joined) || !names_craft_spec(joined, top_craft_spec(p.affinities@)) {
            summary_spec(p)
        } else {
            joined
        }
    }
}

fn sentences_of(v: &Vec<char>) -> (r: Vec<Vec<char>>)
    ensures
        r@.map_values(|p: Vec<char>| p@) == sentences(v@),
{
    let mut done: Vec<Vec<char>> = Vec::new();
    let mut cur: Vec<char> = Vec::new();
    let mut i: usize = 0;
    while i < v.len()
        invariant
            i <= v.len(),
            (done@.map_values(|p: Vec<char>| p@), cur@) == sentence_split(v@.take(i as int)),
        decreases v.len() - i,
    {
        assert(v@.take((i + 1) as int).drop_last() =~= v@.take(i as int));
        let c = v[i];
        cur.push(c);
        if c == '.' || c == '!' || c == '?' {
            let ghost before = done@;
            done.push(cur);
            assert(done@.map_values(|p: Vec<char>| p@) =~= before.map_values(|p: Vec<char>| p@).push(
                done@.last()@,
            ));
            cur = Vec::new();
        }
        i += 1;
    }
    assert(v@.take(v.len() as int) =~= v@);
    if cur.len() > 0 {
        let ghost before = done@;
        done.push(cur);
        assert(done@.map_values(|p: Vec<char>| p@) =~= before.map_values(|p: Vec<char>| p@).push(
            done@.last()@,
        ));
    }
    done
}

/// Keeps the grounded sentences of a model summary.
pub fn ground_summary(summary: &str, profile: &FeatureProfile, watchlist_titles: &[String]) -> (out:
    String)
    ensures
        out@ == ground_summary_spec(summary@, *profile, strs(watchlist_titles@)),
{
    let people = top_craft_people(profile);
    let v = chars_of(summary);
    let ss = sentences_of(&v);
    let ghost sv = ss@.map_values(|p: Vec<char>| p@);
    let ghost wl = strs(watchlist_titles@);
    let mut kept: Vec<Vec<char>> = Vec::new();
    let mut i: usize = 0;
    while i < ss.len()
        invariant
            i <= ss.len(),
            sv == ss@.map_values(|p: Vec<char>| p@),
            wl == strs(watchlist_titles@),
            kept@.map_values(|p: Vec<char>| p@) == kept_sentences(sv.take(i as int), *profile, wl),
        decreases ss.len() - i,
    {
        assert(sv.take((i + 1) as int).drop_last() =~= sv.take(i as int));
        assert(sv.take((i + 1) as int).last() == ss@[i as int]@);
        let t = trim_chars(&ss[i]);
        let ts = string_of(&t);
        let keep = t.len() > 0 && !claims_ungrounded_dislike(ts.as_str(), profile) && !(
        summary_has_dislike_language(ts.as_str()) && cites_watchlist(ts.as_str(), watchlist_titles))
            && !sentence_is_generic(ts.as_str()) && !sentence_has_unsupported_theme(
            ts.as_str(),
            profile,
        );
        if keep {
            let ghost before = kept@;
            kept.push(t);
            assert(kept@.map_values(|p: Vec<char>| p@) =~= before.map_values(|p: Vec<char>| p@).push(
                trim(sv[i as int]),
            ));
        }
        i += 1;
    }
    assert(sv.take(ss.len() as int) =~= sv);
    if kept.len() == 0 {
        return deterministic_summary(profile);
    }
    let joined = crate::model::join_parts(&kept, " ");
    let js = string_of(&joined);
    if summary_is_generic(js.as_str()) || !summary_names_craft(js.as_str(), people.as_slice()) {
        return deterministic_summary(profile);
    }
    js
}

/// An aversion the narrative may keep: supported by the profile and not
/// citing a watchlist title.
pub open spec fn keep_aversion(a: TasteAffinity, p: FeatureProfile, wl: Seq<Seq<char>>) -> bool {
    negative_signal_spec(p.affinities@, a.label@) && !cites_watchlist_spec(a.evidence@, wl)
}

pub open spec fn kept_aversions(s: Seq<TasteAffinity>, p: FeatureProfile, wl: Seq<Seq<char>>) -> Seq<
    TasteAffinity,
>
    decreases s.len(),
{
    if s.len() == 0 {
        Seq::empty()
    } else {
        let r = kept_aversions(s.drop_last(), p, wl);
        if keep_aversion(s.last(), p, wl) {
            r.push(s.last())
        } else {
            r
        }
    }
}

/// A dimension take that is cleared: an unsupported dislike, or a dislike
/// of a watchlist title.
pub open spec fn clears_take(take: Seq<char>, p: FeatureProfile, wl: Seq<Seq<char>>) -> bool {
    ungrounded_dislike_spec(take, p.affinities@) || (cites_watchlist_spec(take, wl) && dislike_spec(
        take,
    ))
}

/// What grounding does to a narrator report.
pub open spec fn grounded_spec(
    out: ReasonerReport,
    report: ReasonerReport,
    p: FeatureProfile,
    wl: Seq<Seq<char>>,
) -> bool {
    &&& out.picks == report.picks
    &&& out.affinities == report.affinities
    &&& out.aversions@ == kept_aversions(report.aversions@, p, wl)
    &&& out.title@ == if title_supported_spec(report.title@, p) {
        report.title@
    } else {
        title_spec(p)
    }
    &&& out.summary@ == if dislike_spec(report.summary@) && out.aversions@.len() == 0 {
        summary_spec(p)
    } else {
        ground_summary_spec(report.summary@, p, wl)
    }
    &&& out.dimensions@.len() == report.dimensions@.len()
    &&& forall|i: int|
        0 <= i < report.dimensions@.len() ==> {
            let d = #[trigger] report.dimensions@[i];
            &&& out.dimensions@[i].name == d.name
            &&& out.dimensions@[i].take@ == if clears_take(d.take@, p, wl) {
                Seq::empty()
            } else {
                d.take@
            }
        }
}

/// Grounds a narrator report in the profile: unsupported aversions are
/// dropped, an unsupported title and summary are replaced, and dimension
/// takes that claim unsupported dislikes are cleared. Watchlist titles may
/// not be cited as dislikes.
pub fn ground_reasoner_with(report: ReasonerReport, profile: &FeatureProfile, watchlist_titles: &[String]) -> (out:
    ReasonerReport)
    ensures
        grounded_spec(out, report, *profile, strs(watchlist_titles@)),
{
    let ghost wl = strs(watchlist_titles@);
    let ghost orig = report;
    let ReasonerReport { title, summary, affinities, aversions, dimensions, picks } = report;
    // Aversions.
    let mut src = aversions;
    let ghost av = src@;
    assert(av.len() == src.len());
    let mut kept: Vec<TasteAffinity> = Vec::new();
    let mut k: usize = 0;
    while src.len() > 0
        invariant
            k <= av.len(),
            av.len() <= usize::MAX,
            src@ == av.skip(k as int),
            kept@ == kept_aversions(av.take(k as int), *profile, wl),
            wl == strs(watchlist_titles@),
        decreases src.len(),
    {
        let a = src.remove(0);
        assert(av.take((k + 1) as int).drop_last() =~= av.take(k as int));
        assert(av.take((k + 1) as int).last() == a);
        if aversion_supported(a.label.as_str(), profile) && !cites_watchlist(
            a.evidence.as_str(),
            watchlist_titles,
        ) {
            kept.push(a);
        }
        k += 1;
        assert(src@ =~= av.skip(k as int));
    }
    assert(av.take(k as int) =~= av);
    // Title.
    let new_title = if title_supported(title.as_str(), profile) {
        title
    } else {
        deterministic_title(profile)
    };
    // Summary.
    let new_summary = if summary_has_dislike_language(summary.as_str()) && kept.len() == 0 {
        deterministic_summary(profile)
    } else {
        ground_summary(summary.as_str(), profile, watchlist_titles)
    };
    // Dimension takes.
    let mut dsrc = dimensions;
    let ghost dv = dsrc@;
    assert(dv.len() == dsrc.len());
    let mut dims: Vec<TasteDimension> = Vec::new();
    let mut j: usize = 0;
    while dsrc.len() > 0
        invariant
            j <= dv.len(),
            dv.len() <= usize::MAX,
            dsrc@ == dv.skip(j as int),
            dims@.len() == j,
            wl == strs(watchlist_titles@),
            forall|i: int|
                0 <= i < j ==> {
                    let d = #[trigger] dv[i];
                    &&& dims@[i].name == d.name
                    &&& dims@[i].take@ == if clears_take(d.take@, *profile, wl) {
                        Seq::empty()
                    } else {
                        d.take@
                    }
                },
        decreases dsrc.len(),
    {
        let d = dsrc.remove(0);
        assert(d == dv[j as int]);
        let clear = claims_ungrounded_dislike(d.take.as_str(), profile) || (cites_watchlist(
            d.take.as_str(),
            watchlist_titles,
        ) && summary_has_dislike_language(d.take.as_str()));
        let TasteDimension { name, take } = d;
        let new_take = if clear {
            String::new()
        } else {
            take
        };
        dims.push(TasteDimension { name, take: new_take });
        j += 1;
        assert(dsrc@ =~= dv.skip(j as int));
    }
    ReasonerReport {
        title: new_title,
        summary: new_summary,
        affinities,
        aversions: kept,
        dimensions: dims,
        picks,
    }
}

/// [`ground_reasoner_with`] without watchlist titles.
pub fn ground_reasoner(report: ReasonerReport, profile: &FeatureProfile) -> (out: ReasonerReport)
    ensures
        grounded_spec(out, report, *profile, Seq::empty()),
{
    let none: Vec<String> = Vec::new();
    let out = ground_reasoner_with(report, profile, none.as_slice());
    assert(strs(none@) =~= Seq::<Seq<char>>::empty());
    out
}


/// The craft person of higher quality is named first.
pub proof fn lemma_better_craft_first(a: FeatureAffinity, b: FeatureAffinity)
    requires
        person_quality(a) > person_quality(b),
    ensures
        craft_before(a, b),
        !craft_before(b, a),
{
}

/// The stronger mode is listed first.
pub proof fn lemma_stronger_mode_first(a: TasteMode, b: TasteMode)
    requires
        a.strength > b.strength,
    ensures
        mode_before(a, b),
        !mode_before(b, a),
{
}

} // verus!
