//! Feature families, feature keys and the keyword / review-language
//! classification that decides which catalog facts may drive retrieval.
//!
//! Quantities that the profile carries as fractions are held here as
//! thousandths (`1000` is `1.0`).
use vstd::prelude::*;
use crate::text::{
    alnum_only, ascii_lower, chars_of, compact_form, contains, contains_chars, contains_str,
    dec_i64, eq_ignore_ascii_case, eq_ignore_case, eq_str, has_prefix, has_suffix, lower_ascii,
    keep_alnum, starts_with_str, ends_with_str, string_of, trim, trim_chars, trimmed,
    unicode_lower, unicode_lowercase, append_str, append_chars,
};

verus! {

/// Weight of each family in thousandths.
pub const DIRECTOR_W: u32 = 1000;
pub const WRITER_W: u32 = 850;
pub const CINEMATOGRAPHER_W: u32 = 800;
pub const COMPOSER_W: u32 = 650;
pub const ACTOR_W: u32 = 550;
pub const KEYWORD_W: u32 = 450;
pub const GENRE_W: u32 = 350;
pub const DECADE_W: u32 = 200;
pub const RUNTIME_W: u32 = 150;
/// Recent-window length in thousandths of a year (1.5 years).
pub const RECENT_YEARS: u32 = 1500;
/// Portability below which a feature is skipped, in thousandths.
pub const PORTABILITY_SKIP: u32 = 150;
/// Mean preference a contextual feature needs to count as portable, in thousandths.
pub const PORTABLE_CONTEXTUAL: u32 = 400;

#[derive(Clone, Copy, PartialEq, Eq, Structural, Debug, Hash)]
pub enum FeatureFamily {
    Director,
    Writer,
    Cinematographer,
    Composer,
    Actor,
    Genre,
    Keyword,
    Decade,
    Runtime,
}

impl FeatureFamily {
    pub open spec fn weight_spec(self) -> u32 {
        match self {
            FeatureFamily::Director => DIRECTOR_W,
            FeatureFamily::Writer => WRITER_W,
            FeatureFamily::Cinematographer => CINEMATOGRAPHER_W,
            FeatureFamily::Composer => COMPOSER_W,
            FeatureFamily::Actor => ACTOR_W,
            FeatureFamily::Keyword => KEYWORD_W,
            FeatureFamily::Genre => GENRE_W,
            FeatureFamily::Decade => DECADE_W,
            FeatureFamily::Runtime => RUNTIME_W,
        }
    }

    /// The family's scoring weight, in thousandths.
    pub fn weight(self) -> (w: u32)
        ensures
            w == self.weight_spec(),
    {
        match self {
            FeatureFamily::Director => DIRECTOR_W,
            FeatureFamily::Writer => WRITER_W,
            FeatureFamily::Cinematographer => CINEMATOGRAPHER_W,
            FeatureFamily::Composer => COMPOSER_W,
            FeatureFamily::Actor => ACTOR_W,
            FeatureFamily::Keyword => KEYWORD_W,
            FeatureFamily::Genre => GENRE_W,
            FeatureFamily::Decade => DECADE_W,
            FeatureFamily::Runtime => RUNTIME_W,
        }
    }

    pub open spec fn contextual(self) -> bool {
        self == FeatureFamily::Decade || self == FeatureFamily::Runtime
    }

    /// Decade and runtime describe a film's context, not its makers or content.
    pub fn is_contextual(self) -> (b: bool)
        ensures
            b == self.contextual(),
    {
        matches!(self, FeatureFamily::Decade | FeatureFamily::Runtime)
    }

    pub fn is_primary(self) -> (b: bool)
        ensures
            b == !self.contextual(),
    {
        !self.is_contextual()
    }

    pub open spec fn top_k_spec(self) -> usize {
        match self {
            FeatureFamily::Director | FeatureFamily::Writer | FeatureFamily::Cinematographer
            | FeatureFamily::Composer => 2,
            FeatureFamily::Actor => 3,
            FeatureFamily::Keyword => 5,
            _ => 4,
        }
    }

    /// How many features of this family a profile summary keeps.
    pub fn top_k(self) -> (k: usize)
        ensures
            k == self.top_k_spec(),
    {
        match self {
            FeatureFamily::Director | FeatureFamily::Writer | FeatureFamily::Cinematographer
            | FeatureFamily::Composer => 2,
            FeatureFamily::Actor => 3,
            FeatureFamily::Keyword => 5,
            _ => 4,
        }
    }

    pub open spec fn sort_key_spec(self) -> u8 {
        match self {
            FeatureFamily::Director => 0,
            FeatureFamily::Writer => 1,
            FeatureFamily::Cinematographer => 2,
            FeatureFamily::Composer => 3,
            FeatureFamily::Actor => 4,
            FeatureFamily::Keyword => 5,
            FeatureFamily::Genre => 6,
            FeatureFamily::Decade => 7,
            FeatureFamily::Runtime => 8,
        }
    }

    /// Position of the family in display order, director first.
    pub fn sort_key(self) -> (k: u8)
        ensures
            k == self.sort_key_spec(),
    {
        match self {
            FeatureFamily::Director => 0,
            FeatureFamily::Writer => 1,
            FeatureFamily::Cinematographer => 2,
            FeatureFamily::Composer => 3,
            FeatureFamily::Actor => 4,
            FeatureFamily::Keyword => 5,
            FeatureFamily::Genre => 6,
            FeatureFamily::Decade => 7,
            FeatureFamily::Runtime => 8,
        }
    }

    /// The variant's name, as `{:?}` prints it.
    pub open spec fn debug_name(self) -> Seq<char> {
        match self {
            FeatureFamily::Director => "Director"@,
            FeatureFamily::Writer => "Writer"@,
            FeatureFamily::Cinematographer => "Cinematographer"@,
            FeatureFamily::Composer => "Composer"@,
            FeatureFamily::Actor => "Actor"@,
            FeatureFamily::Genre => "Genre"@,
            FeatureFamily::Keyword => "Keyword"@,
            FeatureFamily::Decade => "Decade"@,
            FeatureFamily::Runtime => "Runtime"@,
        }
    }

    pub fn debug_str(self) -> (s: &'static str)
        ensures
            s@ == self.debug_name(),
    {
        match self {
            FeatureFamily::Director => "Director",
            FeatureFamily::Writer => "Writer",
            FeatureFamily::Cinematographer => "Cinematographer",
            FeatureFamily::Composer => "Composer",
            FeatureFamily::Actor => "Actor",
            FeatureFamily::Genre => "Genre",
            FeatureFamily::Keyword => "Keyword",
            FeatureFamily::Decade => "Decade",
            FeatureFamily::Runtime => "Runtime",
        }
    }

    pub open spec fn person_or_keyword(self) -> bool {
        match self {
            FeatureFamily::Director | FeatureFamily::Writer | FeatureFamily::Cinematographer
            | FeatureFamily::Composer | FeatureFamily::Actor | FeatureFamily::Keyword => true,
            _ => false,
        }
    }
}

/// The family a TMDB crew job belongs to.
pub open spec fn job_family(job: Seq<char>) -> Option<FeatureFamily> {
    if job == "Director"@ {
        Some(FeatureFamily::Director)
    } else if job == "Writer"@ || job == "Screenplay"@ || job == "Original Screenplay"@ || job
        == "Story"@ {
        Some(FeatureFamily::Writer)
    } else if job == "Director of Photography"@ || job == "Cinematography"@ || job
        == "Cinematographer"@ {
        Some(FeatureFamily::Cinematographer)
    } else if job == "Original Music Composer"@ || job == "Music"@ {
        Some(FeatureFamily::Composer)
    } else if job == "Actor"@ {
        Some(FeatureFamily::Actor)
    } else {
        None
    }
}

pub fn family_for_job(job: &str) -> (r: Option<FeatureFamily>)
    ensures
        r == job_family(job@),
{
    let j = chars_of(job);
    if eq_str(&j, "Director") {
        Some(FeatureFamily::Director)
    } else if eq_str(&j, "Writer") || eq_str(&j, "Screenplay") || eq_str(&j, "Original Screenplay")
        || eq_str(&j, "Story") {
        Some(FeatureFamily::Writer)
    } else if eq_str(&j, "Director of Photography") || eq_str(&j, "Cinematography") || eq_str(
        &j,
        "Cinematographer",
    ) {
        Some(FeatureFamily::Cinematographer)
    } else if eq_str(&j, "Original Music Composer") || eq_str(&j, "Music") {
        Some(FeatureFamily::Composer)
    } else if eq_str(&j, "Actor") {
        Some(FeatureFamily::Actor)
    } else {
        None
    }
}

#[derive(Clone, Debug)]
pub struct FeatureKey {
    pub family: FeatureFamily,
    pub id: Option<i64>,
    pub name: String,
}

/// `format!("{:?}:{id}:{name}")` / `format!("{:?}:{name}")` of a key, with the
/// name Unicode-lower-cased.
pub open spec fn storage_key_of(family: FeatureFamily, id: Option<i64>, name: Seq<char>) -> Seq<
    char,
> {
    let lower = unicode_lowercase(name);
    match id {
        Some(i) => family.debug_name() + ":"@ + crate::text::dec_int(i as int) + ":"@ + lower,
        None => family.debug_name() + ":"@ + lower,
    }
}

impl FeatureKey {
    /// A key whose name is the given name with surrounding white space removed.
    pub fn new(family: FeatureFamily, id: Option<i64>, name: &str) -> (k: Self)
        ensures
            k.family == family,
            k.id == id,
            k.name@ == trim(name@),
    {
        let t = trimmed(name);
        FeatureKey { family, id, name: string_of(&t) }
    }

    /// The key under which observations of one feature are grouped.
    pub fn storage_key(&self) -> (s: String)
        ensures
            s@ == storage_key_of(self.family, self.id, self.name@),
    {
        let n = chars_of(self.name.as_str());
        let lower = unicode_lower(&n);
        let mut out: Vec<char> = Vec::new();
        append_str(&mut out, self.family.debug_str());
        append_str(&mut out, ":");
        match self.id {
            Some(i) => {
                let d = dec_i64(i);
                append_chars(&mut out, &d);
                append_str(&mut out, ":");
            },
            None => {},
        }
        append_chars(&mut out, &lower);
        string_of(&out)
    }

    pub fn is_person_or_keyword(&self) -> (b: bool)
        ensures
            b == self.family.person_or_keyword(),
    {
        matches!(
            self.family,
            FeatureFamily::Director | FeatureFamily::Writer | FeatureFamily::Cinematographer
                | FeatureFamily::Composer | FeatureFamily::Actor | FeatureFamily::Keyword
        )
    }
}

/// How a TMDB keyword may be used. Signal keywords are specific enough that
/// matching them should retrieve another film. Contextual keywords are kept
/// on the profile (location, cartoon, format) but are not hunt targets.
/// Ignore keywords are catalog junk and are not observed.
#[derive(Clone, Copy, PartialEq, Eq, Structural, Debug)]
pub enum KeywordRole {
    Signal,
    Contextual,
    Ignore,
}

/// Strength class for keywords that already made it past ignore/contextual.
#[derive(Clone, Copy, PartialEq, Eq, Structural, Debug)]
pub enum KeywordStrength {
    Strong,
    Thematic,
    Broad,
    Contextual,
    Ignore,
}

// ---------------------------------------------------------------------------
// Keyword vocabularies
// ---------------------------------------------------------------------------

pub open spec fn views(v: Seq<&str>) -> Seq<Seq<char>> {
    v.map_values(|s: &str| s@)
}

pub open spec fn thematic_words() -> Seq<Seq<char>> {
    seq![
        "comingofage"@,
        "dysfunctionalfamily"@,
        "fathersonrelationship"@,
        "fatherdaughterrelationship"@,
        "motherdaughterrelationship"@,
        "parentchildrelationship"@,
        "siblingrelationship"@,
        "lossoflovedone"@,
        "foundfamily"@,
        "heist"@,
        "creature"@,
        "supernaturalhorror"@,
    ]
}

fn thematic_list() -> (v: Vec<&'static str>)
    ensures
        views(v@) == thematic_words(),
{
    let v = vec![
        "comingofage",
        "dysfunctionalfamily",
        "fathersonrelationship",
        "fatherdaughterrelationship",
        "motherdaughterrelationship",
        "parentchildrelationship",
        "siblingrelationship",
        "lossoflovedone",
        "foundfamily",
        "heist",
        "creature",
        "supernaturalhorror",
    ];
    assert(views(v@) =~= thematic_words());
    v
}

pub open spec fn broad_words() -> Seq<Seq<char>> {
    seq![
        "drugs"@,
        "drug"@,
        "murder"@,
        "battle"@,
        "friends"@,
        "friendship"@,
        "bestfriend"@,
        "war"@,
        "violence"@,
        "fight"@,
        "dramatic"@,
        "spacecraft"@,
        "spinoff"@,
        "prequel"@,
        "sequel"@,
        "phonecall"@,
        "workaholic"@,
        "teenmovie"@,
        "highschool"@,
        "sports"@,
        "revenge"@,
        "crime"@,
    ]
}

fn broad_list() -> (v: Vec<&'static str>)
    ensures
        views(v@) == broad_words(),
{
    let v = vec![
        "drugs",
        "drug",
        "murder",
        "battle",
        "friends",
        "friendship",
        "bestfriend",
        "war",
        "violence",
        "fight",
        "dramatic",
        "spacecraft",
        "spinoff",
        "prequel",
        "sequel",
        "phonecall",
        "workaholic",
        "teenmovie",
        "highschool",
        "sports",
        "revenge",
        "crime",
    ];
    assert(views(v@) =~= broad_words());
    v
}

pub open spec fn broad_phrases() -> Seq<Seq<char>> {
    seq!["best friend"@, "phone call"@, "spin off"@, "teen movie"@, "high school"@]
}

fn broad_phrase_list() -> (v: Vec<&'static str>)
    ensures
        views(v@) == broad_phrases(),
{
    let v = vec!["best friend", "phone call", "spin off", "teen movie", "high school"];
    assert(views(v@) =~= broad_phrases());
    v
}

pub open spec fn generic_words() -> Seq<Seq<char>> {
    seq![
        "cartoon"@,
        "antihero"@,
        "liveaction"@,
        "liveactionandanimation"@,
        "cgi"@,
        "3d"@,
        "imax"@,
        "stopmotion"@,
    ]
}

fn generic_list() -> (v: Vec<&'static str>)
    ensures
        views(v@) == generic_words(),
{
    let v = vec![
        "cartoon",
        "antihero",
        "liveaction",
        "liveactionandanimation",
        "cgi",
        "3d",
        "imax",
        "stopmotion",
    ];
    assert(views(v@) =~= generic_words());
    v
}

pub open spec fn reaction_words() -> Seq<Seq<char>> {
    seq![
        "hilarious"@,
        "admiring"@,
        "funny"@,
        "amusing"@,
        "entertaining"@,
        "cute"@,
        "cool"@,
        "awesome"@,
        "weird"@,
        "quirky"@,
        "sad"@,
        "scary"@,
        "exciting"@,
        "emotional"@,
        "touching"@,
        "heartwarming"@,
        "feelgood"@,
        "feelgoodmovie"@,
    ]
}

fn reaction_list() -> (v: Vec<&'static str>)
    ensures
        views(v@) == reaction_words(),
{
    let v = vec![
        "hilarious",
        "admiring",
        "funny",
        "amusing",
        "entertaining",
        "cute",
        "cool",
        "awesome",
        "weird",
        "quirky",
        "sad",
        "scary",
        "exciting",
        "emotional",
        "touching",
        "heartwarming",
        "feelgood",
        "feelgoodmovie",
    ];
    assert(views(v@) =~= reaction_words());
    v
}

pub open spec fn adjective_words() -> Seq<Seq<char>> {
    seq![
        "bold"@,
        "enthusiastic"@,
        "amused"@,
        "adoring"@,
        "joyful"@,
        "nostalgic"@,
        "dramatic"@,
        "excited"@,
        "whimsical"@,
        "romantic"@,
        "anxious"@,
    ]
}

fn adjective_list() -> (v: Vec<&'static str>)
    ensures
        views(v@) == adjective_words(),
{
    let v = vec![
        "bold",
        "enthusiastic",
        "amused",
        "adoring",
        "joyful",
        "nostalgic",
        "dramatic",
        "excited",
        "whimsical",
        "romantic",
        "anxious",
    ];
    assert(views(v@) =~= adjective_words());
    v
}

/// Whether `c` is one of the listed words.
pub fn in_list(c: &Vec<char>, list: &Vec<&str>) -> (b: bool)
    ensures
        b == views(list@).contains(c@),
{
    let mut i: usize = 0;
    while i < list.len()
        invariant
            i <= list.len(),
            forall|k: int| 0 <= k < i ==> views(list@)[k] != c@,
        decreases list.len() - i,
    {
        if eq_str(c, list[i]) {
            assert(views(list@)[i as int] == c@);
            return true;
        }
        i += 1;
    }
    false
}

// ---------------------------------------------------------------------------
// Keyword classes
// ---------------------------------------------------------------------------

pub open spec fn is_thematic(compact: Seq<char>) -> bool {
    thematic_words().contains(compact)
}

pub open spec fn is_strong(lower: Seq<char>, compact: Seq<char>) -> bool {
    contains(compact, "neonoir"@) || contains(compact, "filmnoir"@) || contains(
        compact,
        "nonlinear"@,
    ) || contains(compact, "longtake"@) || compact == "oner"@ || contains(compact, "oneshot"@)
        || contains(compact, "timeloop"@) || contains(lower, "neo-noir"@) || contains(
        lower,
        "film noir"@,
    ) || contains(lower, "long take"@) || contains(lower, "one-shot"@) || contains(
        lower,
        "non-linear"@,
    )
}

pub open spec fn is_broad(lower: Seq<char>, compact: Seq<char>) -> bool {
    broad_words().contains(compact) || broad_phrases().contains(lower)
}

pub open spec fn is_geographic(lower: Seq<char>) -> bool {
    contains(lower, ","@) || has_suffix(lower, " city"@) || has_suffix(lower, " town"@)
        || has_suffix(lower, " county"@)
}

pub open spec fn is_generic(compact: Seq<char>) -> bool {
    generic_words().contains(compact)
}

/// Mood/reaction adjectives: too broad to retrieve with.
pub open spec fn is_reaction(compact: Seq<char>) -> bool {
    reaction_words().contains(compact)
}

/// Catalog junk: post-credit stingers and "based on ..." tags.
pub open spec fn is_junk(compact: Seq<char>) -> bool {
    contains(compact, "stinger"@) || contains(compact, "duringcredits"@) || contains(
        compact,
        "aftercredits"@,
    ) || has_prefix(compact, "basedon"@)
}

/// The strength class of a keyword name. `lower` is the trimmed,
/// ASCII-lower-cased name and `compact` its letters and digits.
pub open spec fn strength_of(name: Seq<char>) -> KeywordStrength {
    let lower = ascii_lower(trim(name));
    let compact = alnum_only(lower);
    if is_junk(compact) {
        KeywordStrength::Ignore
    } else if is_geographic(lower) || is_generic(compact) || is_reaction(compact) {
        KeywordStrength::Contextual
    } else if is_strong(lower, compact) {
        KeywordStrength::Strong
    } else if is_broad(lower, compact) {
        KeywordStrength::Broad
    } else if is_thematic(compact) {
        KeywordStrength::Thematic
    } else {
        KeywordStrength::Contextual
    }
}

pub open spec fn role_of(name: Seq<char>) -> KeywordRole {
    match strength_of(name) {
        KeywordStrength::Ignore => KeywordRole::Ignore,
        KeywordStrength::Contextual => KeywordRole::Contextual,
        _ => KeywordRole::Signal,
    }
}

/// Adjectival metadata: reactions and a short list of mood words.
pub open spec fn is_adjectival(name: Seq<char>) -> bool {
    let compact = alnum_only(ascii_lower(trim(name)));
    is_reaction(compact) || adjective_words().contains(compact)
}

pub open spec fn display_reason_spec(name: Seq<char>) -> bool {
    !is_adjectival(name) && (strength_of(name) == KeywordStrength::Strong || strength_of(name)
        == KeywordStrength::Thematic)
}

fn is_strong_keyword(lower: &Vec<char>, compact: &Vec<char>) -> (b: bool)
    ensures
        b == is_strong(lower@, compact@),
{
    contains_str(compact, "neonoir") || contains_str(compact, "filmnoir") || contains_str(
        compact,
        "nonlinear",
    ) || contains_str(compact, "longtake") || eq_str(compact, "oner") || contains_str(
        compact,
        "oneshot",
    ) || contains_str(compact, "timeloop") || contains_str(lower, "neo-noir") || contains_str(
        lower,
        "film noir",
    ) || contains_str(lower, "long take") || contains_str(lower, "one-shot") || contains_str(
        lower,
        "non-linear",
    )
}

fn is_geographic_keyword(lower: &Vec<char>) -> (b: bool)
    ensures
        b == is_geographic(lower@),
{
    contains_str(lower, ",") || ends_with_str(lower, " city") || ends_with_str(lower, " town")
        || ends_with_str(lower, " county")
}

fn is_junk_keyword(compact: &Vec<char>) -> (b: bool)
    ensures
        b == is_junk(compact@),
{
    contains_str(compact, "stinger") || contains_str(compact, "duringcredits") || contains_str(
        compact,
        "aftercredits",
    ) || starts_with_str(compact, "basedon")
}

fn is_thematic_keyword(compact: &Vec<char>) -> (b: bool)
    ensures
        b == is_thematic(compact@),
{
    in_list(compact, &thematic_list())
}

fn is_broad_keyword(lower: &Vec<char>, compact: &Vec<char>) -> (b: bool)
    ensures
        b == is_broad(lower@, compact@),
{
    in_list(compact, &broad_list()) || in_list(lower, &broad_phrase_list())
}

fn is_generic_keyword(compact: &Vec<char>) -> (b: bool)
    ensures
        b == is_generic(compact@),
{
    in_list(compact, &generic_list())
}

fn is_reaction_keyword(compact: &Vec<char>) -> (b: bool)
    ensures
        b == is_reaction(compact@),
{
    in_list(compact, &reaction_list())
}

/// The strength class of a keyword.
pub fn keyword_strength(name: &str) -> (s: KeywordStrength)
    ensures
        s == strength_of(name@),
{
    let t = trimmed(name);
    let lower = lower_ascii(&t);
    let compact = keep_alnum(&lower);
    if is_junk_keyword(&compact) {
        return KeywordStrength::Ignore;
    }
    if is_geographic_keyword(&lower) || is_generic_keyword(&compact) || is_reaction_keyword(
        &compact,
    ) {
        return KeywordStrength::Contextual;
    }
    if is_strong_keyword(&lower, &compact) {
        return KeywordStrength::Strong;
    }
    if is_broad_keyword(&lower, &compact) {
        return KeywordStrength::Broad;
    }
    if is_thematic_keyword(&compact) {
        return KeywordStrength::Thematic;
    }
    KeywordStrength::Contextual
}

/// How a keyword may be used: Ignore and Contextual strengths keep their
/// name, every other strength is a retrieval signal.
pub fn keyword_role(name: &str) -> (r: KeywordRole)
    ensures
        r == role_of(name@),
{
    match keyword_strength(name) {
        KeywordStrength::Ignore => KeywordRole::Ignore,
        KeywordStrength::Contextual => KeywordRole::Contextual,
        KeywordStrength::Strong | KeywordStrength::Thematic | KeywordStrength::Broad => {
            KeywordRole::Signal
        },
    }
}

/// Only strong keywords may retrieve a film on their own.
pub fn keyword_can_carry_alone(name: &str) -> (b: bool)
    ensures
        b == (strength_of(name@) == KeywordStrength::Strong),
{
    keyword_strength(name) == KeywordStrength::Strong
}

pub open spec fn strength_label(s: KeywordStrength) -> Seq<char> {
    match s {
        KeywordStrength::Strong => "strong"@,
        KeywordStrength::Thematic => "thematic"@,
        KeywordStrength::Broad => "broad"@,
        KeywordStrength::Contextual => "contextual"@,
        KeywordStrength::Ignore => "ignore"@,
    }
}

pub fn keyword_strength_label(name: &str) -> (l: &'static str)
    ensures
        l@ == strength_label(strength_of(name@)),
{
    match keyword_strength(name) {
        KeywordStrength::Strong => "strong",
        KeywordStrength::Thematic => "thematic",
        KeywordStrength::Broad => "broad",
        KeywordStrength::Contextual => "contextual",
        KeywordStrength::Ignore => "ignore",
    }
}

fn is_adjectival_keyword(name: &str) -> (b: bool)
    ensures
        b == is_adjectival(name@),
{
    let t = trimmed(name);
    let lower = lower_ascii(&t);
    let compact = keep_alnum(&lower);
    is_reaction_keyword(&compact) || in_list(&compact, &adjective_list())
}

/// Headline reasons on a pick card: strong or thematic keywords that are
/// not adjectival metadata.
pub fn keyword_is_display_reason(name: &str) -> (b: bool)
    ensures
        b == display_reason_spec(name@),
{
    if is_adjectival_keyword(name) {
        return false;
    }
    let s = keyword_strength(name);
    s == KeywordStrength::Strong || s == KeywordStrength::Thematic
}

/// Observed keywords: everything but catalog junk.
pub fn keyword_is_taste_signal(name: &str) -> (b: bool)
    ensures
        b == (role_of(name@) != KeywordRole::Ignore),
{
    keyword_role(name) != KeywordRole::Ignore
}


// ---------------------------------------------------------------------------
// Credits, keywords and evidence films
// ---------------------------------------------------------------------------

#[derive(Clone, Debug)]
pub struct Credit {
    pub id: Option<i64>,
    pub name: String,
    pub job: String,
}

#[derive(Clone, Debug)]
pub struct Keyword {
    pub id: Option<i64>,
    pub name: String,
}

/// A rated film cited as evidence for a feature. `rating` is in thousandths
/// of a star.
#[derive(Clone, Debug)]
pub struct EvidenceFilm {
    pub title: String,
    pub rating: i32,
    pub tmdb_id: Option<i64>,
    pub people: Vec<String>,
    pub keywords: Vec<String>,
    pub genres: Vec<String>,
    pub year: Option<i32>,
    pub runtime: Option<i32>,
}

pub open spec fn strs(v: Seq<String>) -> Seq<Seq<char>> {
    v.map_values(|s: String| s@)
}

pub open spec fn keyword_names(v: Seq<Keyword>) -> Seq<Seq<char>> {
    v.map_values(|k: Keyword| k.name@)
}

/// `"tmdb:{id}"` when the film has a TMDB id, else its trimmed, lower-cased title.
pub open spec fn evidence_id_of(tmdb_id: Option<i64>, title: Seq<char>) -> Seq<char> {
    match tmdb_id {
        Some(id) => "tmdb:"@ + crate::text::dec_int(id as int),
        None => unicode_lowercase(trim(title)),
    }
}

/// The identity under which evidence films are de-duplicated.
pub fn evidence_film_id(e: &EvidenceFilm) -> (s: String)
    ensures
        s@ == evidence_id_of(e.tmdb_id, e.title@),
{
    match e.tmdb_id {
        Some(id) => {
            let mut out = chars_of("tmdb:");
            let d = dec_i64(id);
            append_chars(&mut out, &d);
            string_of(&out)
        },
        None => {
            let t = trimmed(e.title.as_str());
            let l = unicode_lower(&t);
            string_of(&l)
        },
    }
}

// ---------------------------------------------------------------------------
// Review execution language
// ---------------------------------------------------------------------------

/// Number of entries in the review lexicon.
pub const LEXICON_LEN: usize = 10;

/// Label of the `i`-th lexicon entry.
pub open spec fn lex_label(i: int) -> Seq<char> {
    if i == 0 {
        "strong performances"@
    } else if i == 1 {
        "beautiful cinematography"@
    } else if i == 2 {
        "polished visual effects"@
    } else if i == 3 {
        "tight pacing"@
    } else if i == 4 {
        "strong dialogue"@
    } else if i == 5 {
        "weak performances"@
    } else if i == 6 {
        "poor visual effects"@
    } else if i == 7 {
        "slow pacing"@
    } else if i == 8 {
        "overlong"@
    } else {
        "weak dialogue"@
    }
}

/// Phrases of the `i`-th lexicon entry.
pub open spec fn lex_phrases(i: int) -> Seq<Seq<char>> {
    if i == 0 {
        seq![
            "great acting"@,
            "excellent acting"@,
            "strong acting"@,
            "acting was great"@,
            "acting was excellent"@,
            "great performances"@,
            "excellent performances"@,
            "strong performances"@,
            "well acted"@,
            "well-acted"@,
            "phenomenal acting"@,
            "brilliant acting"@,
        ]
    } else if i == 1 {
        seq![
            "beautiful cinematography"@,
            "great cinematography"@,
            "stunning cinematography"@,
            "beautifully shot"@,
            "stunning visuals"@,
        ]
    } else if i == 2 {
        seq![
            "great visual effects"@,
            "excellent visual effects"@,
            "impressive visual effects"@,
            "great effects"@,
            "excellent effects"@,
        ]
    } else if i == 3 {
        seq![
            "tight pacing"@,
            "pacing was tight"@,
            "well paced"@,
            "well-paced"@,
            "good pacing"@,
            "pacing was good"@,
        ]
    } else if i == 4 {
        seq![
            "great dialogue"@,
            "excellent dialogue"@,
            "strong dialogue"@,
            "sharp dialogue"@,
            "witty dialogue"@,
        ]
    } else if i == 5 {
        seq![
            "bad acting"@,
            "poor acting"@,
            "weak acting"@,
            "bad performances"@,
            "poor performances"@,
            "weak performances"@,
            "badly acted"@,
        ]
    } else if i == 6 {
        seq![
            "bad visual effects"@,
            "poor visual effects"@,
            "cheap visual effects"@,
            "bad cgi"@,
            "poor cgi"@,
            "cheap cgi"@,
            "terrible cgi"@,
        ]
    } else if i == 7 {
        seq!["slow pacing"@, "poor pacing"@, "dragged"@, "dragging"@]
    } else if i == 8 {
        seq!["too long"@, "overlong"@, "way too long"@, "felt too long"@]
    } else {
        seq![
            "bad dialogue"@,
            "poor dialogue"@,
            "weak dialogue"@,
            "clunky dialogue"@,
            "wooden dialogue"@,
            "terrible dialogue"@,
        ]
    }
}

fn lexicon_label(i: usize) -> (l: &'static str)
    requires
        i < LEXICON_LEN,
    ensures
        l@ == lex_label(i as int),
{
    if i == 0 {
        "strong performances"
    } else if i == 1 {
        "beautiful cinematography"
    } else if i == 2 {
        "polished visual effects"
    } else if i == 3 {
        "tight pacing"
    } else if i == 4 {
        "strong dialogue"
    } else if i == 5 {
        "weak performances"
    } else if i == 6 {
        "poor visual effects"
    } else if i == 7 {
        "slow pacing"
    } else if i == 8 {
        "overlong"
    } else {
        "weak dialogue"
    }
}

fn lexicon_phrases(i: usize) -> (v: Vec<&'static str>)
    requires
        i < LEXICON_LEN,
    ensures
        views(v@) == lex_phrases(i as int),
{
    let v = if i == 0 {
        vec![
            "great acting",
            "excellent acting",
            "strong acting",
            "acting was great",
            "acting was excellent",
            "great performances",
            "excellent performances",
            "strong performances",
            "well acted",
            "well-acted",
            "phenomenal acting",
            "brilliant acting",
        ]
    } else if i == 1 {
        vec![
            "beautiful cinematography",
            "great cinematography",
            "stunning cinematography",
            "beautifully shot",
            "stunning visuals",
        ]
    } else if i == 2 {
        vec![
            "great visual effects",
            "excellent visual effects",
            "impressive visual effects",
            "great effects",
            "excellent effects",
        ]
    } else if i == 3 {
        vec![
            "tight pacing",
            "pacing was tight",
            "well paced",
            "well-paced",
            "good pacing",
            "pacing was good",
        ]
    } else if i == 4 {
        vec![
            "great dialogue",
            "excellent dialogue",
            "strong dialogue",
            "sharp dialogue",
            "witty dialogue",
        ]
    } else if i == 5 {
        vec![
            "bad acting",
            "poor acting",
            "weak acting",
            "bad performances",
            "poor performances",
            "weak performances",
            "badly acted",
        ]
    } else if i == 6 {
        vec![
            "bad visual effects",
            "poor visual effects",
            "cheap visual effects",
            "bad cgi",
            "poor cgi",
            "cheap cgi",
            "terrible cgi",
        ]
    } else if i == 7 {
        vec!["slow pacing", "poor pacing", "dragged", "dragging"]
    } else if i == 8 {
        vec!["too long", "overlong", "way too long", "felt too long"]
    } else {
        vec![
            "bad dialogue",
            "poor dialogue",
            "weak dialogue",
            "clunky dialogue",
            "wooden dialogue",
            "terrible dialogue",
        ]
    };
    assert(views(v@) =~= lex_phrases(i as int));
    v
}

pub open spec fn dash_to_space(c: char) -> char {
    if c == '-' || c == '\u{2013}' || c == '\u{2014}' {
        ' '
    } else {
        c
    }
}

/// ASCII lower-casing with hyphens and en/em dashes turned into spaces.
pub open spec fn normalize_review(s: Seq<char>) -> Seq<char> {
    ascii_lower(s).map_values(|c: char| dash_to_space(c))
}

pub open spec fn mentions(review: Seq<char>, phrase: Seq<char>) -> bool {
    contains(normalize_review(review), normalize_review(phrase))
}

pub open spec fn mentions_any(review: Seq<char>, phrases: Seq<Seq<char>>) -> bool {
    exists|k: int| 0 <= k < phrases.len() && mentions(review, phrases[k])
}

/// How many of the reviews mention one of the phrases.
pub open spec fn mention_count(reviews: Seq<Seq<char>>, phrases: Seq<Seq<char>>) -> nat
    decreases reviews.len(),
{
    if reviews.len() == 0 {
        0
    } else {
        mention_count(reviews.drop_last(), phrases) + if mentions_any(reviews.last(), phrases) {
            1nat
        } else {
            0nat
        }
    }
}

/// Labels of the first `n` lexicon entries mentioned by at least two reviews.
pub open spec fn signals_upto(reviews: Seq<Seq<char>>, n: int) -> Seq<Seq<char>>
    decreases n,
{
    if n <= 0 {
        Seq::empty()
    } else {
        let r = signals_upto(reviews, n - 1);
        if mention_count(reviews, lex_phrases(n - 1)) >= 2 {
            r.push(lex_label(n - 1))
        } else {
            r
        }
    }
}

/// Labels of the first `n` lexicon entries that are accepted and that the review mentions.
pub open spec fn review_keywords_upto(review: Seq<char>, accepted: Seq<Seq<char>>, n: int) -> Seq<
    Seq<char>,
>
    decreases n,
{
    if n <= 0 {
        Seq::empty()
    } else {
        let r = review_keywords_upto(review, accepted, n - 1);
        if accepted.contains(lex_label(n - 1)) && mentions_any(review, lex_phrases(n - 1)) {
            r.push(lex_label(n - 1))
        } else {
            r
        }
    }
}

fn normalize_for_review(s: &Vec<char>) -> (r: Vec<char>)
    ensures
        r@ == normalize_review(s@),
{
    let l = lower_ascii(s);
    let mut r: Vec<char> = Vec::new();
    let mut i: usize = 0;
    while i < l.len()
        invariant
            i <= l.len(),
            l@ == ascii_lower(s@),
            r@ == l@.take(i as int).map_values(|c: char| dash_to_space(c)),
        decreases l.len() - i,
    {
        let c = l[i];
        let d = if c == '-' || c == '\u{2013}' || c == '\u{2014}' {
            ' '
        } else {
            c
        };
        r.push(d);
        i += 1;
        assert(l@.take(i as int).map_values(|c: char| dash_to_space(c)) =~= l@.take(
            (i - 1) as int,
        ).map_values(|c: char| dash_to_space(c)).push(d));
    }
    assert(l@.take(l.len() as int) =~= l@);
    r
}

/// Whether the review mentions any of the phrases.
pub fn review_mentions_any(review: &str, phrases: &Vec<&str>) -> (b: bool)
    ensures
        b == mentions_any(review@, views(phrases@)),
{
    let rv = chars_of(review);
    let norm = normalize_for_review(&rv);
    let mut k: usize = 0;
    while k < phrases.len()
        invariant
            k <= phrases.len(),
            norm@ == normalize_review(review@),
            forall|j: int| 0 <= j < k ==> !mentions(review@, views(phrases@)[j]),
        decreases phrases.len() - k,
    {
        let p = chars_of(phrases[k]);
        let np = normalize_for_review(&p);
        if contains_chars(&norm, &np) {
            assert(mentions(review@, views(phrases@)[k as int]));
            return true;
        }
        k += 1;
    }
    false
}

pub open spec fn str_views(v: Seq<&str>) -> Seq<Seq<char>> {
    v.map_values(|s: &str| s@)
}

/// Explicit execution-language signals from personal reviews. A lexicon
/// label is kept when phrases of it occur in at least two separate reviews.
pub fn repeated_execution_signals(reviews: &[&str]) -> (out: Vec<String>)
    ensures
        strs(out@) == signals_upto(str_views(reviews@), LEXICON_LEN as int),
{
    let ghost rv = str_views(reviews@);
    let mut out: Vec<String> = Vec::new();
    let mut i: usize = 0;
    while i < LEXICON_LEN
        invariant
            i <= LEXICON_LEN,
            rv == str_views(reviews@),
            strs(out@) == signals_upto(rv, i as int),
        decreases LEXICON_LEN - i,
    {
        let phrases = lexicon_phrases(i);
        let mut count: usize = 0;
        let mut r: usize = 0;
        while r < reviews.len()
            invariant
                r <= reviews.len(),
                rv == str_views(reviews@),
                views(phrases@) == lex_phrases(i as int),
                count == mention_count(rv.take(r as int), lex_phrases(i as int)),
                count <= r,
            decreases reviews.len() - r,
        {
            assert(rv.take((r + 1) as int).drop_last() =~= rv.take(r as int));
            if review_mentions_any(reviews[r], &phrases) {
                count += 1;
            }
            r += 1;
        }
        assert(rv.take(reviews.len() as int) =~= rv);
        let ghost before = out@;
        if count >= 2 {
            let label = lexicon_label(i);
            out.push(string_of(&chars_of(label)));
            assert(strs(out@) =~= strs(before).push(lex_label(i as int)));
        }
        i += 1;
    }
    out
}

/// Whether `list` holds a string equal to `x`.
pub fn contains_string(list: &[String], x: &Vec<char>) -> (b: bool)
    ensures
        b == strs(list@).contains(x@),
{
    let mut i: usize = 0;
    while i < list.len()
        invariant
            i <= list.len(),
            forall|k: int| 0 <= k < i ==> strs(list@)[k] != x@,
        decreases list.len() - i,
    {
        let c = chars_of(list[i].as_str());
        if crate::text::seq_eq(&c, x) {
            assert(strs(list@)[i as int] == x@);
            return true;
        }
        i += 1;
    }
    false
}

/// Turn only already-repeated review signals into keywords for one review:
/// the accepted lexicon labels whose phrases this review uses.
pub fn execution_keywords_for_review(review: &str, accepted: &[String]) -> (out: Vec<Keyword>)
    ensures
        keyword_names(out@) == review_keywords_upto(review@, strs(accepted@), LEXICON_LEN as int),
        forall|k: int| 0 <= k < out.len() ==> (#[trigger] out@[k]).id.is_none(),
{
    let mut out: Vec<Keyword> = Vec::new();
    let mut i: usize = 0;
    while i < LEXICON_LEN
        invariant
            i <= LEXICON_LEN,
            keyword_names(out@) == review_keywords_upto(review@, strs(accepted@), i as int),
            forall|k: int| 0 <= k < out.len() ==> (#[trigger] out@[k]).id.is_none(),
        decreases LEXICON_LEN - i,
    {
        let label = chars_of(lexicon_label(i));
        let phrases = lexicon_phrases(i);
        let ghost before = out@;
        if contains_string(accepted, &label) && review_mentions_any(review, &phrases) {
            out.push(Keyword { id: None, name: string_of(&label) });
            assert(keyword_names(out@) =~= keyword_names(before).push(lex_label(i as int)));
        }
        i += 1;
    }
    out
}

pub open spec fn polarity_of(name: Seq<char>) -> Option<i32> {
    let n = ascii_lower(trim(name));
    if n == "strong performances"@ || n == "beautiful cinematography"@ || n
        == "polished visual effects"@ || n == "tight pacing"@ || n == "strong dialogue"@ {
        Some(1000i32)
    } else if n == "weak performances"@ || n == "poor visual effects"@ || n == "slow pacing"@
        || n == "overlong"@ || n == "weak dialogue"@ {
        Some(-1000i32)
    } else {
        None
    }
}

/// Polarity of a lexicon label, in thousandths: +1 for praise, -1 for criticism.
pub fn execution_signal_polarity(name: &str) -> (p: Option<i32>)
    ensures
        p == polarity_of(name@),
{
    let t = trimmed(name);
    let n = lower_ascii(&t);
    if eq_str(&n, "strong performances") || eq_str(&n, "beautiful cinematography") || eq_str(
        &n,
        "polished visual effects",
    ) || eq_str(&n, "tight pacing") || eq_str(&n, "strong dialogue") {
        Some(1000)
    } else if eq_str(&n, "weak performances") || eq_str(&n, "poor visual effects") || eq_str(
        &n,
        "slow pacing",
    ) || eq_str(&n, "overlong") || eq_str(&n, "weak dialogue") {
        Some(-1000)
    } else {
        None
    }
}


// ---------------------------------------------------------------------------
// Evidence clusters
// ---------------------------------------------------------------------------

/// Whether some string of `list` equals `x` up to ASCII case.
pub open spec fn any_eq_ic(list: Seq<Seq<char>>, x: Seq<char>) -> bool {
    exists|i: int| 0 <= i < list.len() && eq_ignore_case(list[i], x)
}

/// Whether some string of `a` equals some string of `b` up to ASCII case.
pub open spec fn any_shared_ic(a: Seq<Seq<char>>, b: Seq<Seq<char>>) -> bool {
    exists|i: int| 0 <= i < a.len() && any_eq_ic(b, a[i])
}

/// Whether `list` holds a string equal to `x` up to ASCII case.
pub fn any_eq_ignore_case(list: &[String], x: &Vec<char>) -> (b: bool)
    ensures
        b == any_eq_ic(strs(list@), x@),
{
    let mut i: usize = 0;
    while i < list.len()
        invariant
            i <= list.len(),
            forall|k: int| 0 <= k < i ==> !eq_ignore_case(strs(list@)[k], x@),
        decreases list.len() - i,
    {
        let c = chars_of(list[i].as_str());
        if eq_ignore_ascii_case(&c, x) {
            assert(eq_ignore_case(strs(list@)[i as int], x@));
            return true;
        }
        i += 1;
    }
    false
}

pub(crate) fn any_keyword_eq_ignore_case(list: &[Keyword], x: &Vec<char>) -> (b: bool)
    ensures
        b == any_eq_ic(keyword_names(list@), x@),
{
    let mut i: usize = 0;
    while i < list.len()
        invariant
            i <= list.len(),
            forall|k: int| 0 <= k < i ==> !eq_ignore_case(keyword_names(list@)[k], x@),
        decreases list.len() - i,
    {
        let c = chars_of(list[i].name.as_str());
        if eq_ignore_ascii_case(&c, x) {
            assert(eq_ignore_case(keyword_names(list@)[i as int], x@));
            return true;
        }
        i += 1;
    }
    false
}

/// Portable facets (genres, modes, keywords) shared by a majority of a
/// person's liked films. An empty cluster places no constraint.
#[derive(Clone, Debug)]
pub struct EvidenceCluster {
    pub genres: Vec<String>,
    pub modes: Vec<String>,
    pub keywords: Vec<String>,
}

impl EvidenceCluster {
    pub open spec fn empty(&self) -> bool {
        self.genres.len() == 0 && self.modes.len() == 0 && self.keywords.len() == 0
    }

    pub fn is_empty(&self) -> (b: bool)
        ensures
            b == self.empty(),
    {
        self.genres.len() == 0 && self.modes.len() == 0 && self.keywords.len() == 0
    }

    pub open spec fn overlaps_spec(
        &self,
        genres: Seq<Seq<char>>,
        keywords: Seq<Seq<char>>,
        modes: Seq<Seq<char>>,
    ) -> bool {
        self.empty() || any_shared_ic(strs(self.genres@), genres) || any_shared_ic(
            strs(self.modes@),
            modes,
        ) || any_shared_ic(strs(self.keywords@), keywords)
    }

    /// Whether a candidate with these genres, keywords and modes shares a
    /// facet (case-insensitively) with the cluster; always true for an
    /// empty cluster.
    pub fn overlaps(&self, genres: &[String], keywords: &[Keyword], modes: &[String]) -> (b: bool)
        ensures
            b == self.overlaps_spec(strs(genres@), keyword_names(keywords@), strs(modes@)),
    {
        if self.is_empty() {
            return true;
        }
        let mut i: usize = 0;
        while i < self.genres.len()
            invariant
                i <= self.genres.len(),
                forall|k: int| 0 <= k < i ==> !any_eq_ic(strs(genres@), strs(self.genres@)[k]),
            decreases self.genres.len() - i,
        {
            let g = chars_of(self.genres[i].as_str());
            if any_eq_ignore_case(genres, &g) {
                assert(any_eq_ic(strs(genres@), strs(self.genres@)[i as int]));
                return true;
            }
            i += 1;
        }
        let mut i: usize = 0;
        while i < self.modes.len()
            invariant
                i <= self.modes.len(),
                forall|k: int| 0 <= k < i ==> !any_eq_ic(strs(modes@), strs(self.modes@)[k]),
            decreases self.modes.len() - i,
        {
            let m = chars_of(self.modes[i].as_str());
            if any_eq_ignore_case(modes, &m) {
                assert(any_eq_ic(strs(modes@), strs(self.modes@)[i as int]));
                return true;
            }
            i += 1;
        }
        let mut i: usize = 0;
        while i < self.keywords.len()
            invariant
                i <= self.keywords.len(),
                forall|k: int|
                    0 <= k < i ==> !any_eq_ic(keyword_names(keywords@), strs(self.keywords@)[k]),
            decreases self.keywords.len() - i,
        {
            let k = chars_of(self.keywords[i].as_str());
            if any_keyword_eq_ignore_case(keywords, &k) {
                assert(any_eq_ic(keyword_names(keywords@), strs(self.keywords@)[i as int]));
                return true;
            }
            i += 1;
        }
        false
    }
}

// ---------------------------------------------------------------------------
// Feature affinities
// ---------------------------------------------------------------------------

/// A feature liked and disliked in roughly equal measure. Confidence,
/// affinity and variance are in thousandths.
#[derive(Clone, Debug)]
pub struct PolarizingFeature {
    pub feature: String,
    pub family: FeatureFamily,
    pub id: Option<i64>,
    pub confidence: i32,
    pub affinity: i32,
    pub variance: i32,
    pub positive_evidence: Vec<EvidenceFilm>,
    pub negative_evidence: Vec<EvidenceFilm>,
}

/// A feature whose recent affinity differs from its long-term one, in
/// thousandths.
#[derive(Clone, Debug)]
pub struct RecentShift {
    pub feature: String,
    pub family: FeatureFamily,
    pub long_term: i32,
    pub recent: i32,
    pub delta: i32,
    pub long_term_evidence: Vec<EvidenceFilm>,
    pub recent_evidence: Vec<EvidenceFilm>,
}

/// The viewer's taste profile: feature affinities, polarizing features,
/// recent shifts, and the experience dimensions and modes.
#[derive(Clone, Debug)]
pub struct FeatureProfile {
    pub affinities: Vec<FeatureAffinity>,
    pub polarizing: Vec<PolarizingFeature>,
    pub shifts: Vec<RecentShift>,
    pub dimensions: Vec<crate::dimensions::TasteDimensionView>,
    pub modes: Vec<crate::dimensions::TasteMode>,
    pub mode_shifts: Vec<crate::dimensions::ModeShift>,
}

/// Variance at or above which a feature with both liked and disliked
/// evidence is polarizing, in thousandths.
pub const POLARIZING_VAR: i32 = 120;

/// A profile feature and the evidence behind it. All means, weights,
/// confidences and portabilities are in thousandths.
#[derive(Clone, Debug)]
pub struct FeatureAffinity {
    pub key: FeatureKey,
    pub appearances: u32,
    pub weighted_mean: i32,
    pub preference_mean: i32,
    pub recommendation_mean: i32,
    pub weighted_variance: i32,
    pub positive_weight: i32,
    pub negative_weight: i32,
    pub recent_weight: i32,
    pub long_term_weight: i32,
    pub confidence: i32,
    pub feature_strength: i32,
    pub portability: i32,
    pub positive_evidence: Vec<EvidenceFilm>,
    pub negative_evidence: Vec<EvidenceFilm>,
    pub evidence_cluster: EvidenceCluster,
}

/// Integer division rounding toward zero, as Rust's `/` does.
pub open spec fn div_trunc(p: int, d: int) -> int
    recommends
        d > 0,
{
    if p >= 0 {
        p / d
    } else {
        -((-p) / d)
    }
}

impl FeatureAffinity {
    /// recommendation mean × confidence × family weight × portability, in
    /// thousandths (rounded toward zero).
    pub open spec fn scoring_affinity_spec(&self) -> int {
        div_trunc(
            self.recommendation_mean as int * self.confidence as int
                * self.key.family.weight_spec() as int * self.portability as int,
            1_000_000_000,
        )
    }

    pub fn scoring_affinity(&self) -> (a: i128)
        ensures
            a as int == self.scoring_affinity_spec(),
            -0x2000_0000_0000_0000_0000_0000_0000 <= a <= 0x2000_0000_0000_0000_0000_0000_0000,
    {
        let w = self.key.family.weight();
        let a: i128 = self.recommendation_mean as i128;
        let b: i128 = self.confidence as i128;
        let c: i128 = w as i128;
        let d: i128 = self.portability as i128;
        assert(-0x4000_0000_0000_0000 <= a * b <= 0x4000_0000_0000_0000) by (nonlinear_arith)
            requires
                -0x8000_0000 <= a <= 0x8000_0000,
                -0x8000_0000 <= b <= 0x8000_0000,
        ;
        let p1: i128 = a * b;
        assert(-0x4000_0000_0000_0000_0000 <= p1 * c <= 0x4000_0000_0000_0000_0000) by (
        nonlinear_arith)
            requires
                -0x4000_0000_0000_0000 <= p1 <= 0x4000_0000_0000_0000,
                0 <= c <= 1000,
        ;
        let p2: i128 = p1 * c;
        assert(-0x2000_0000_0000_0000_0000_0000_0000 <= p2 * d <= 0x2000_0000_0000_0000_0000_0000_0000)
            by (nonlinear_arith)
            requires
                -0x4000_0000_0000_0000_0000 <= p2 <= 0x4000_0000_0000_0000_0000,
                -0x8000_0000 <= d <= 0x8000_0000,
        ;
        let p: i128 = p2 * d;
        assert(p == self.recommendation_mean as int * self.confidence as int
            * self.key.family.weight_spec() as int * self.portability as int);
        if p >= 0 {
            p / 1_000_000_000
        } else {
            -((-p) / 1_000_000_000)
        }
    }

    pub open spec fn polarizing_spec(&self) -> bool {
        self.weighted_variance >= POLARIZING_VAR && self.positive_evidence.len() > 0
            && self.negative_evidence.len() > 0
    }

    /// High variance with evidence on both sides.
    pub fn polarizing(&self) -> (b: bool)
        ensures
            b == self.polarizing_spec(),
    {
        self.weighted_variance >= POLARIZING_VAR && self.positive_evidence.len() > 0
            && self.negative_evidence.len() > 0
    }

    pub open spec fn citeable_spec(&self) -> bool {
        if self.key.family.contextual() {
            false
        } else if self.key.family == FeatureFamily::Keyword && role_of(self.key.name@)
            != KeywordRole::Signal {
            false
        } else if self.key.family.person_or_keyword() {
            self.appearances >= 2
        } else {
            true
        }
    }

    /// Whether the feature may be cited as a reason: never contextual
    /// families or non-signal keywords, and people and keywords only after
    /// two films.
    pub fn citeable(&self) -> (b: bool)
        ensures
            b == self.citeable_spec(),
    {
        if self.key.family.is_contextual() {
            return false;
        }
        if self.key.family == FeatureFamily::Keyword {
            match keyword_role(self.key.name.as_str()) {
                KeywordRole::Ignore | KeywordRole::Contextual => return false,
                KeywordRole::Signal => {},
            }
        }
        if self.key.is_person_or_keyword() {
            return self.appearances >= 2;
        }
        true
    }
}

// ---------------------------------------------------------------------------
// Context buckets
// ---------------------------------------------------------------------------

pub open spec fn runtime_bucket_spec(rt: i32) -> Seq<char> {
    if rt < 90 {
        "under 90"@
    } else if rt < 120 {
        "90-119"@
    } else if rt < 150 {
        "120-149"@
    } else {
        "150+"@
    }
}

/// The runtime band a film falls in.
pub fn runtime_bucket(rt: i32) -> (s: &'static str)
    ensures
        s@ == runtime_bucket_spec(rt),
{
    if rt < 90 {
        "under 90"
    } else if rt < 120 {
        "90-119"
    } else if rt < 150 {
        "120-149"
    } else {
        "150+"
    }
}

/// `format!("{}s", (year / 10) * 10)`.
pub open spec fn decade_label_spec(year: i32) -> Seq<char> {
    crate::text::dec_int(div_trunc(year as int, 10) * 10) + "s"@
}

pub fn decade_label(year: i32) -> (s: String)
    ensures
        s@ == decade_label_spec(year),
{
    let y: i64 = year as i64;
    let d: i64 = if y >= 0 {
        (y / 10) * 10
    } else {
        -(((-y) / 10) * 10)
    };
    let mut out = dec_i64(d);
    append_str(&mut out, "s");
    string_of(&out)
}

/// Story/intensity/comedy/spectacle/atmosphere modes suggested by genres.
pub open spec fn modes_from_genres_spec(g: Seq<Seq<char>>) -> Seq<Seq<char>> {
    let a = if any_eq_ic(g, "Drama"@) {
        seq!["story"@]
    } else {
        Seq::empty()
    };
    let b = if any_eq_ic(g, "Thriller"@) || any_eq_ic(g, "Horror"@) {
        seq!["intensity"@]
    } else {
        Seq::empty()
    };
    let c = if any_eq_ic(g, "Comedy"@) {
        seq!["comedy"@]
    } else {
        Seq::empty()
    };
    let d = if any_eq_ic(g, "Action"@) || any_eq_ic(g, "Science Fiction"@) || any_eq_ic(
        g,
        "Sci-Fi"@,
    ) || any_eq_ic(g, "Fantasy"@) {
        seq!["spectacle"@]
    } else {
        Seq::empty()
    };
    let e = if any_eq_ic(g, "Mystery"@) {
        seq!["atmosphere"@]
    } else {
        Seq::empty()
    };
    a + b + c + d + e
}

fn has_genre(genres: &[String], name: &str) -> (b: bool)
    ensures
        b == any_eq_ic(strs(genres@), name@),
{
    let n = chars_of(name);
    any_eq_ignore_case(genres, &n)
}

fn push_lit(out: &mut Vec<String>, lit: &str)
    ensures
        strs(final(out)@) == strs(old(out)@).push(lit@),
{
    let v = chars_of(lit);
    out.push(string_of(&v));
    assert(strs(out@) =~= strs(old(out)@).push(lit@));
}

pub fn modes_from_genres(genres: &[String]) -> (out: Vec<String>)
    ensures
        strs(out@) == modes_from_genres_spec(strs(genres@)),
{
    let ghost g = strs(genres@);
    let mut out: Vec<String> = Vec::new();
    if has_genre(genres, "Drama") {
        push_lit(&mut out, "story");
    }
    let ghost s1 = strs(out@);
    if has_genre(genres, "Thriller") || has_genre(genres, "Horror") {
        push_lit(&mut out, "intensity");
    }
    let ghost s2 = strs(out@);
    if has_genre(genres, "Comedy") {
        push_lit(&mut out, "comedy");
    }
    let ghost s3 = strs(out@);
    if has_genre(genres, "Action") || has_genre(genres, "Science Fiction") || has_genre(
        genres,
        "Sci-Fi",
    ) || has_genre(genres, "Fantasy") {
        push_lit(&mut out, "spectacle");
    }
    let ghost s4 = strs(out@);
    if has_genre(genres, "Mystery") {
        push_lit(&mut out, "atmosphere");
    }
    assert(strs(out@) =~= modes_from_genres_spec(g));
    out
}

// ---------------------------------------------------------------------------
// Laws of the review lexicon
// ---------------------------------------------------------------------------

/// The lexicon's labels are distinct.
pub proof fn lemma_lex_labels_distinct()
    ensures
        forall|i: int, j: int|
            0 <= i < LEXICON_LEN && 0 <= j < LEXICON_LEN && i != j ==> lex_label(i) != lex_label(j),
{
    reveal_strlit("strong performances");
    reveal_strlit("beautiful cinematography");
    reveal_strlit("polished visual effects");
    reveal_strlit("tight pacing");
    reveal_strlit("strong dialogue");
    reveal_strlit("weak performances");
    reveal_strlit("poor visual effects");
    reveal_strlit("slow pacing");
    reveal_strlit("overlong");
    reveal_strlit("weak dialogue");
    assert(lex_label(0).len() == 19 && lex_label(0)[0] == 's');
    assert(lex_label(1).len() == 24);
    assert(lex_label(2).len() == 23);
    assert(lex_label(3).len() == 12);
    assert(lex_label(4).len() == 15);
    assert(lex_label(5).len() == 17);
    assert(lex_label(6).len() == 19 && lex_label(6)[0] == 'p');
    assert(lex_label(7).len() == 11);
    assert(lex_label(8).len() == 8);
    assert(lex_label(9).len() == 13);
    assert forall|i: int, j: int|
        0 <= i < LEXICON_LEN && 0 <= j < LEXICON_LEN && i != j implies lex_label(i) != lex_label(j) by {
        if lex_label(i) == lex_label(j) {
            assert(lex_label(i).len() == lex_label(j).len());
            if (i == 0 && j == 6) || (i == 6 && j == 0) {
                assert(lex_label(i)[0] == lex_label(j)[0]);
            }
        }
    }
}

proof fn lemma_signals_upto(reviews: Seq<Seq<char>>, n: int)
    requires
        0 <= n <= LEXICON_LEN,
    ensures
        forall|i: int|
            0 <= i < LEXICON_LEN ==> (signals_upto(reviews, n).contains(lex_label(i)) <==> (i < n
                && mention_count(reviews, lex_phrases(i)) >= 2)),
        signals_upto(reviews, n).no_duplicates(),
    decreases n,
{
    lemma_lex_labels_distinct();
    if n > 0 {
        lemma_signals_upto(reviews, n - 1);
        let r = signals_upto(reviews, n - 1);
        if mention_count(reviews, lex_phrases(n - 1)) >= 2 {
            let t = r.push(lex_label(n - 1));
            assert forall|i: int| 0 <= i < LEXICON_LEN implies (t.contains(lex_label(i)) <==> (i < n
                && mention_count(reviews, lex_phrases(i)) >= 2)) by {
                if t.contains(lex_label(i)) && i != n - 1 {
                    let k = choose|k: int| 0 <= k < t.len() && t[k] == lex_label(i);
                    if k < r.len() {
                        assert(r[k] == lex_label(i));
                    }
                }
                if i < n - 1 && mention_count(reviews, lex_phrases(i)) >= 2 {
                    let k = choose|k: int| 0 <= k < r.len() && r[k] == lex_label(i);
                    assert(t[k] == lex_label(i));
                }
                if i == n - 1 {
                    assert(t[r.len() as int] == lex_label(i));
                }
            }
        }
    }
}

/// A lexicon label is among the repeated execution signals exactly when
/// at least two reviews mention one of its phrases; none is listed twice.
pub proof fn lemma_repeated_signals(reviews: Seq<Seq<char>>)
    ensures
        forall|i: int|
            0 <= i < LEXICON_LEN ==> (signals_upto(reviews, LEXICON_LEN as int).contains(lex_label(i))
                <==> mention_count(reviews, lex_phrases(i)) >= 2),
        signals_upto(reviews, LEXICON_LEN as int).no_duplicates(),
{
    lemma_signals_upto(reviews, LEXICON_LEN as int);
}

proof fn lemma_review_keywords_upto(review: Seq<char>, accepted: Seq<Seq<char>>, n: int)
    requires
        0 <= n <= LEXICON_LEN,
    ensures
        forall|i: int|
            0 <= i < LEXICON_LEN ==> (review_keywords_upto(review, accepted, n).contains(lex_label(i))
                <==> (i < n && accepted.contains(lex_label(i)) && mentions_any(review, lex_phrases(i)))),
        forall|k: int|
            0 <= k < review_keywords_upto(review, accepted, n).len() ==> accepted.contains(
                #[trigger] review_keywords_upto(review, accepted, n)[k],
            ),
        review_keywords_upto(review, accepted, n).no_duplicates(),
    decreases n,
{
    lemma_lex_labels_distinct();
    if n > 0 {
        lemma_review_keywords_upto(review, accepted, n - 1);
        let r = review_keywords_upto(review, accepted, n - 1);
        if accepted.contains(lex_label(n - 1)) && mentions_any(review, lex_phrases(n - 1)) {
            let t = r.push(lex_label(n - 1));
            assert forall|i: int| 0 <= i < LEXICON_LEN implies (t.contains(lex_label(i)) <==> (i < n
                && accepted.contains(lex_label(i)) && mentions_any(review, lex_phrases(i)))) by {
                if t.contains(lex_label(i)) && i != n - 1 {
                    let k = choose|k: int| 0 <= k < t.len() && t[k] == lex_label(i);
                    if k < r.len() {
                        assert(r[k] == lex_label(i));
                    }
                }
                if i < n - 1 && accepted.contains(lex_label(i)) && mentions_any(review, lex_phrases(i)) {
                    let k = choose|k: int| 0 <= k < r.len() && r[k] == lex_label(i);
                    assert(t[k] == lex_label(i));
                }
                if i == n - 1 {
                    assert(t[r.len() as int] == lex_label(i));
                }
            }
            assert forall|k: int| 0 <= k < t.len() implies accepted.contains(#[trigger] t[k]) by {
                if k < r.len() {
                    assert(t[k] == r[k]);
                }
            }
        }
    }
}

/// The execution keywords read from a review are accepted labels, each
/// once: a label appears exactly when it is accepted and the review
/// mentions one of its phrases.
pub proof fn lemma_review_keywords(review: Seq<char>, accepted: Seq<Seq<char>>)
    ensures
        forall|i: int|
            0 <= i < LEXICON_LEN ==> (review_keywords_upto(review, accepted, LEXICON_LEN as int).contains(
                lex_label(i),
            ) <==> (accepted.contains(lex_label(i)) && mentions_any(review, lex_phrases(i)))),
        forall|k: int|
            0 <= k < review_keywords_upto(review, accepted, LEXICON_LEN as int).len() ==> accepted.contains(
                #[trigger] review_keywords_upto(review, accepted, LEXICON_LEN as int)[k],
            ),
        review_keywords_upto(review, accepted, LEXICON_LEN as int).no_duplicates(),
{
    lemma_review_keywords_upto(review, accepted, LEXICON_LEN as int);
}

/// The credit jobs that name a family, case-sensitively: each job names
/// exactly one family, and every other job none.
pub proof fn lemma_job_families(job: Seq<char>)
    ensures
        (job_family(job) == Some(FeatureFamily::Director)) <==> job == "Director"@,
        (job_family(job) == Some(FeatureFamily::Writer)) <==> (job == "Writer"@ || job
            == "Screenplay"@ || job == "Original Screenplay"@ || job == "Story"@),
        (job_family(job) == Some(FeatureFamily::Cinematographer)) <==> (job
            == "Director of Photography"@ || job == "Cinematography"@ || job == "Cinematographer"@),
        (job_family(job) == Some(FeatureFamily::Composer)) <==> (job == "Original Music Composer"@
            || job == "Music"@),
        (job_family(job) == Some(FeatureFamily::Actor)) <==> job == "Actor"@,
{
    reveal_strlit("Director");
    reveal_strlit("Writer");
    reveal_strlit("Screenplay");
    reveal_strlit("Original Screenplay");
    reveal_strlit("Story");
    reveal_strlit("Director of Photography");
    reveal_strlit("Cinematography");
    reveal_strlit("Cinematographer");
    reveal_strlit("Original Music Composer");
    reveal_strlit("Music");
    reveal_strlit("Actor");
    assert("Director"@.len() == 8);
    assert("Writer"@.len() == 6 && "Screenplay"@.len() == 10 && "Original Screenplay"@.len() == 19);
    assert("Story"@.len() == 5 && "Story"@[0] == 'S');
    assert("Director of Photography"@.len() == 23 && "Director of Photography"@[0] == 'D');
    assert("Cinematography"@.len() == 14 && "Cinematographer"@.len() == 15);
    assert("Original Music Composer"@.len() == 23 && "Original Music Composer"@[0] == 'O');
    assert("Music"@.len() == 5 && "Music"@[0] == 'M');
    assert("Actor"@.len() == 5 && "Actor"@[0] == 'A');
}

} // verus!
