//! What a pick card may say about itself: provenance lines, reason lines,
//! evidence grades and the grounding of generated copy.
use vstd::prelude::*;
use crate::features::{
    display_reason_spec, keyword_is_display_reason, keyword_strength, strength_of, strs,
    views, FeatureAffinity, FeatureFamily, KeywordStrength,
};
use crate::retrieve::{RetrievalKind, RetrievalSource};
use crate::text::{
    alnum_only, append_chars, append_str, ascii_lower, chars_of, contains, contains_chars,
    contains_str, dec_int, dec_u64, eq_ignore_ascii_case, eq_ignore_case, eq_str, first_segment,
    first_segment_of, has_prefix, keep_alnum, lower_ascii, slice_chars, starts_with_str, string_of,
    trim, trim_chars, trimmed, unicode_lower, unicode_lowercase,
};

verus! {

/// Displayable New-for-you evidence. `Ungraded` is a retrieval lead, not a card.
#[derive(Clone, Copy, PartialEq, Eq, Structural, Debug)]
pub enum EvidenceGrade {
    Ungraded,
    Medium,
    Strong,
}

impl EvidenceGrade {
    pub open spec fn displayable_spec(self) -> bool {
        self == EvidenceGrade::Medium || self == EvidenceGrade::Strong
    }

    pub fn displayable(self) -> (b: bool)
        ensures
            b == self.displayable_spec(),
    {
        matches!(self, EvidenceGrade::Medium | EvidenceGrade::Strong)
    }

    pub open spec fn rank_spec(self) -> i32 {
        match self {
            EvidenceGrade::Ungraded => 0,
            EvidenceGrade::Medium => 2,
            EvidenceGrade::Strong => 3,
        }
    }

    /// Numeric rank used only as a component of internal selection scores.
    pub fn rank(self) -> (r: i32)
        ensures
            r == self.rank_spec(),
    {
        match self {
            EvidenceGrade::Ungraded => 0,
            EvidenceGrade::Medium => 2,
            EvidenceGrade::Strong => 3,
        }
    }
}

/// A profile feature as it matched one candidate. Means, affinities,
/// confidences and portabilities are in thousandths.
#[derive(Clone, Debug)]
pub struct MatchedFeatureView {
    pub feature_key: String,
    pub name: String,
    pub family: String,
    pub appearances: u32,
    pub recommendation_mean: i32,
    pub scoring_affinity: i32,
    pub confidence: i32,
    pub portability: i32,
    pub citeable: bool,
    pub cited: bool,
}

/// Why a candidate passed (or failed) the eligibility gate. `candidate_fit`
/// is in thousandths: 1000 is specific visual/story/craft overlap, about 300
/// is person-only.
#[derive(Clone, Debug)]
pub struct EligibilityTrace {
    pub portable_evidence_required: bool,
    pub passed: bool,
    pub passed_because: Vec<String>,
    pub candidate_fit: i32,
    pub evidence_grade: EvidenceGrade,
}

impl Default for EligibilityTrace {
    /// No requirement, not passed, no reasons, full fit, ungraded.
    fn default() -> (t: Self)
        ensures
            !t.portable_evidence_required,
            !t.passed,
            t.passed_because@.len() == 0,
            t.candidate_fit == 1000,
            t.evidence_grade == EvidenceGrade::Ungraded,
    {
        EligibilityTrace {
            portable_evidence_required: false,
            passed: false,
            passed_because: Vec::new(),
            candidate_fit: 1000,
            evidence_grade: EvidenceGrade::Ungraded,
        }
    }
}

pub open spec fn kind_label(kind: RetrievalKind) -> Seq<char> {
    match kind {
        RetrievalKind::Related | RetrievalKind::RelatedRecommendations
        | RetrievalKind::RelatedSimilar => "related"@,
        RetrievalKind::Filmography => "filmography"@,
        RetrievalKind::Friend => "friend"@,
        RetrievalKind::Watchlist => "watchlist"@,
        RetrievalKind::Exploration => "exploration"@,
        RetrievalKind::Discovery => "discovery"@,
    }
}

pub fn retrieval_kind_label(kind: RetrievalKind) -> (s: &'static str)
    ensures
        s@ == kind_label(kind),
        (s@ == "related"@) == kind.related(),
{
    let r = match kind {
        RetrievalKind::Related | RetrievalKind::RelatedRecommendations
        | RetrievalKind::RelatedSimilar => "related",
        RetrievalKind::Filmography => "filmography",
        RetrievalKind::Friend => "friend",
        RetrievalKind::Watchlist => "watchlist",
        RetrievalKind::Exploration => "exploration",
        RetrievalKind::Discovery => "discovery",
    };
    proof {
        reveal_strlit("related");
        reveal_strlit("filmography");
        reveal_strlit("friend");
        reveal_strlit("watchlist");
        reveal_strlit("exploration");
        reveal_strlit("discovery");
        assert("related"@.len() == 7);
        assert(r@.len() == 7 ==> kind.related());
    }
    r
}

pub open spec fn family_label_spec(family: FeatureFamily) -> Seq<char> {
    match family {
        FeatureFamily::Director => "director"@,
        FeatureFamily::Writer => "writer"@,
        FeatureFamily::Cinematographer => "cinematographer"@,
        FeatureFamily::Composer => "composer"@,
        FeatureFamily::Actor => "actor"@,
        FeatureFamily::Genre => "genre"@,
        FeatureFamily::Keyword => "keyword"@,
        FeatureFamily::Decade => "decade"@,
        FeatureFamily::Runtime => "runtime"@,
    }
}

pub fn family_label(family: FeatureFamily) -> (s: &'static str)
    ensures
        s@ == family_label_spec(family),
{
    match family {
        FeatureFamily::Director => "director",
        FeatureFamily::Writer => "writer",
        FeatureFamily::Cinematographer => "cinematographer",
        FeatureFamily::Composer => "composer",
        FeatureFamily::Actor => "actor",
        FeatureFamily::Genre => "genre",
        FeatureFamily::Keyword => "keyword",
        FeatureFamily::Decade => "decade",
        FeatureFamily::Runtime => "runtime",
    }
}

/// The kind label and label of the first source, or `("unknown", "")`.
pub fn primary_retrieval(sources: &[RetrievalSource]) -> (r: (String, String))
    ensures
        sources.len() == 0 ==> r.0@ == "unknown"@ && r.1@ == Seq::<char>::empty(),
        sources.len() > 0 ==> r.0@ == kind_label(sources@[0].kind) && r.1@ == sources@[0].label@,
{
    if sources.len() == 0 {
        let u = chars_of("unknown");
        let e: Vec<char> = Vec::new();
        return (string_of(&u), string_of(&e));
    }
    let k = chars_of(retrieval_kind_label(sources[0].kind));
    let l = chars_of(sources[0].label.as_str());
    (string_of(&k), string_of(&l))
}

pub open spec fn relational_words() -> Seq<Seq<char>> {
    seq![
        "dysfunctionalfamily"@,
        "fathersonrelationship"@,
        "fatherson"@,
        "fatherdaughterrelationship"@,
        "fatherdaughter"@,
        "motherdaughterrelationship"@,
        "motherdaughter"@,
        "mothersonrelationship"@,
        "motherson"@,
        "parentchildrelationship"@,
        "parentchild"@,
        "siblingrelationship"@,
        "friends"@,
        "friendship"@,
        "comingofage"@,
        "lossoflovedone"@,
        "lossofalovedone"@,
    ]
}

fn relational_list() -> (v: Vec<&'static str>)
    ensures
        views(v@) == relational_words(),
{
    let v = vec![
        "dysfunctionalfamily",
        "fathersonrelationship",
        "fatherson",
        "fatherdaughterrelationship",
        "fatherdaughter",
        "motherdaughterrelationship",
        "motherdaughter",
        "mothersonrelationship",
        "motherson",
        "parentchildrelationship",
        "parentchild",
        "siblingrelationship",
        "friends",
        "friendship",
        "comingofage",
        "lossoflovedone",
        "lossofalovedone",
    ];
    assert(views(v@) =~= relational_words());
    v
}

pub open spec fn relational_spec(name: Seq<char>) -> bool {
    relational_words().contains(alnum_only(ascii_lower(name)))
}

/// Family tropes and relationship tags: true stories, poor headlines.
pub fn is_relational_keyword(name: &str) -> (b: bool)
    ensures
        b == relational_spec(name@),
{
    let v = chars_of(name);
    let l = lower_ascii(&v);
    let c = keep_alnum(&l);
    crate::features::in_list(&c, &relational_list())
}

pub open spec fn display_priority_spec(aff: &FeatureAffinity) -> i32 {
    match aff.key.family {
        FeatureFamily::Cinematographer | FeatureFamily::Director => 100,
        FeatureFamily::Writer => 90,
        FeatureFamily::Composer => 80,
        FeatureFamily::Keyword => match strength_of(aff.key.name@) {
            KeywordStrength::Strong => 78,
            KeywordStrength::Thematic => if relational_spec(aff.key.name@) {
                25
            } else {
                52
            },
            KeywordStrength::Broad => 12,
            _ => 8,
        },
        FeatureFamily::Actor => 60,
        FeatureFamily::Genre => 20,
        FeatureFamily::Decade | FeatureFamily::Runtime => 5,
    }
}

/// Display rank, not scoring weight: craft and specific keywords explain a
/// recommendation better than family tropes or broad genres.
pub fn display_priority(aff: &FeatureAffinity) -> (p: i32)
    ensures
        p == display_priority_spec(aff),
{
    match aff.key.family {
        FeatureFamily::Cinematographer | FeatureFamily::Director => 100,
        FeatureFamily::Writer => 90,
        FeatureFamily::Composer => 80,
        FeatureFamily::Keyword => match keyword_strength(aff.key.name.as_str()) {
            KeywordStrength::Strong => 78,
            KeywordStrength::Thematic => if is_relational_keyword(aff.key.name.as_str()) {
                25
            } else {
                52
            },
            KeywordStrength::Broad => 12,
            _ => 8,
        },
        FeatureFamily::Actor => 60,
        FeatureFamily::Genre => 20,
        FeatureFamily::Decade | FeatureFamily::Runtime => 5,
    }
}

/// `"{name} · 1 film"` / `"{name} · {n} films"`, with `" · limited evidence"`
/// appended when the feature rests on two films or fewer.
pub open spec fn display_reason_line(name: Seq<char>, n: u32) -> Seq<char> {
    let films = if n == 1 {
        "1 film"@
    } else {
        dec_int(n as int) + " films"@
    };
    if n <= 2 {
        name + " · "@ + films + " · limited evidence"@
    } else {
        name + " · "@ + films
    }
}

pub fn format_display_reason(aff: &FeatureAffinity) -> (s: String)
    ensures
        s@ == display_reason_line(aff.key.name@, aff.appearances),
{
    let n = aff.appearances;
    let mut out = chars_of(aff.key.name.as_str());
    append_str(&mut out, " · ");
    if n == 1 {
        append_str(&mut out, "1 film");
    } else {
        let d = dec_u64(n as u64);
        append_chars(&mut out, &d);
        append_str(&mut out, " films");
    }
    if n <= 2 {
        append_str(&mut out, " · limited evidence");
    }
    string_of(&out)
}

// ---------------------------------------------------------------------------
// Reason-line canonicalisation
// ---------------------------------------------------------------------------

/// The collapse key of a reason line: its text before the first `" · "`,
/// trimmed and ASCII-lower-cased.
pub open spec fn line_key(line: Seq<char>) -> Seq<char> {
    ascii_lower(trim(first_segment(line, " · "@)))
}

/// The non-empty keys of the lines, in order.
pub open spec fn nonempty_keys(s: Seq<Seq<char>>) -> Seq<Seq<char>>
    decreases s.len(),
{
    if s.len() == 0 {
        Seq::empty()
    } else {
        let r = nonempty_keys(s.drop_last());
        if line_key(s.last()).len() > 0 {
            r.push(line_key(s.last()))
        } else {
            r
        }
    }
}

/// Whether the last line survives canonicalisation: its key is non-empty and
/// no earlier line has the same key.
pub open spec fn keeps_last(s: Seq<Seq<char>>) -> bool
    recommends
        s.len() > 0,
{
    line_key(s.last()).len() > 0 && !nonempty_keys(s.drop_last()).contains(line_key(s.last()))
}

/// The lines that survive canonicalisation, in order.
pub open spec fn canonical_lines(s: Seq<Seq<char>>) -> Seq<Seq<char>>
    decreases s.len(),
{
    if s.len() == 0 {
        Seq::empty()
    } else {
        let r = canonical_lines(s.drop_last());
        if keeps_last(s) {
            r.push(s.last())
        } else {
            r
        }
    }
}

fn line_key_of(line: &String) -> (k: Vec<char>)
    ensures
        k@ == line_key(line@),
{
    let v = chars_of(line.as_str());
    let seg = first_segment_of(&v, " · ");
    let t = trim_chars(&seg);
    lower_ascii(&t)
}

pub open spec fn char_vecs(v: Seq<Vec<char>>) -> Seq<Seq<char>> {
    v.map_values(|x: Vec<char>| x@)
}

fn seen_contains(seen: &Vec<Vec<char>>, k: &Vec<char>) -> (b: bool)
    ensures
        b == char_vecs(seen@).contains(k@),
{
    let mut i: usize = 0;
    while i < seen.len()
        invariant
            i <= seen.len(),
            forall|j: int| 0 <= j < i ==> char_vecs(seen@)[j] != k@,
        decreases seen.len() - i,
    {
        if crate::text::seq_eq(&seen[i], k) {
            assert(char_vecs(seen@)[i as int] == k@);
            return true;
        }
        i += 1;
    }
    false
}

/// Collapse duplicate `"Name · N films"` lines: a line is kept when the text
/// before its first `" · "` is non-empty and no earlier line had the same
/// text (trimmed, ignoring ASCII case).
pub fn canonicalize_reason_lines(lines: Vec<String>) -> (out: Vec<String>)
    ensures
        strs(out@) == canonical_lines(strs(lines@)),
{
    let ghost s = strs(lines@);
    let mut seen: Vec<Vec<char>> = Vec::new();
    let mut out: Vec<String> = Vec::new();
    let mut i: usize = 0;
    while i < lines.len()
        invariant
            i <= lines.len(),
            s == strs(lines@),
            strs(out@) == canonical_lines(s.take(i as int)),
            char_vecs(seen@) == nonempty_keys(s.take(i as int)),
        decreases lines.len() - i,
    {
        let k = line_key_of(&lines[i]);
        let ghost t = s.take((i + 1) as int);
        assert(t.drop_last() =~= s.take(i as int));
        let dup = seen_contains(&seen, &k);
        let ghost before = out@;
        let ghost seen_before = seen@;
        if k.len() > 0 && !dup {
            out.push(lines[i].clone());
            assert(strs(out@) =~= strs(before).push(s[i as int]));
        }
        if k.len() > 0 {
            seen.push(k);
            assert(char_vecs(seen@) =~= char_vecs(seen_before).push(line_key(s[i as int])));
        }
        i += 1;
    }
    assert(s.take(lines.len() as int) =~= s);
    out
}


// ---------------------------------------------------------------------------
// Provenance
// ---------------------------------------------------------------------------

/// The seed title in a related source's label: the trimmed label without a
/// leading "similar to ", "Similar to " or "recommended from ".
pub open spec fn seed_of(label: Seq<char>) -> Seq<char> {
    let t = trim(label);
    if has_prefix(t, "similar to "@) {
        t.subrange(11, t.len() as int)
    } else if has_prefix(t, "Similar to "@) {
        t.subrange(11, t.len() as int)
    } else if has_prefix(t, "recommended from "@) {
        t.subrange(17, t.len() as int)
    } else {
        t
    }
}

/// How one source reads on a card.
pub open spec fn provenance_part(src: RetrievalSource) -> Seq<char> {
    match src.kind {
        RetrievalKind::Watchlist => "On your watchlist"@,
        RetrievalKind::Related | RetrievalKind::RelatedRecommendations
        | RetrievalKind::RelatedSimilar => {
            let seed = seed_of(src.label@);
            if seed.len() == 0 || eq_ignore_case(seed, "related"@) {
                "Related"@
            } else if src.kind == RetrievalKind::RelatedRecommendations {
                "Recommended from "@ + seed
            } else {
                "Related to "@ + seed
            }
        },
        RetrievalKind::Filmography => {
            let name = trim(src.label@);
            if name.len() == 0 || eq_ignore_case(name, "filmography"@) {
                "Filmography"@
            } else {
                "Filmography · "@ + name
            }
        },
        RetrievalKind::Friend => "Friends"@,
        RetrievalKind::Discovery => "Discovery"@,
        RetrievalKind::Exploration => "Exploration"@,
    }
}

/// Whether an earlier source has the same kind as source `i`.
pub open spec fn kind_seen_before(s: Seq<RetrievalSource>, i: int) -> bool {
    exists|j: int| 0 <= j < i && (#[trigger] s[j]).kind == s[i].kind
}

/// The parts of a provenance line: one per source kind, in first-seen order.
pub open spec fn provenance_parts(s: Seq<RetrievalSource>) -> Seq<Seq<char>>
    decreases s.len(),
{
    if s.len() == 0 {
        Seq::empty()
    } else {
        let r = provenance_parts(s.drop_last());
        if kind_seen_before(s, s.len() - 1) {
            r
        } else {
            r.push(provenance_part(s.last()))
        }
    }
}

/// `parts.join(sep)`.
pub open spec fn join(parts: Seq<Seq<char>>, sep: Seq<char>) -> Seq<char>
    decreases parts.len(),
{
    if parts.len() == 0 {
        Seq::empty()
    } else if parts.len() == 1 {
        parts[0]
    } else {
        join(parts.drop_last(), sep) + sep + parts.last()
    }
}

fn strip_seed_prefix(t: &Vec<char>) -> (r: Vec<char>)
    ensures
        r@ == (if has_prefix(t@, "similar to "@) {
            t@.subrange(11, t@.len() as int)
        } else if has_prefix(t@, "Similar to "@) {
            t@.subrange(11, t@.len() as int)
        } else if has_prefix(t@, "recommended from "@) {
            t@.subrange(17, t@.len() as int)
        } else {
            t@
        }),
{
    proof {
        reveal_strlit("similar to ");
        reveal_strlit("Similar to ");
        reveal_strlit("recommended from ");
    }
    if starts_with_str(t, "similar to ") {
        slice_chars(t, 11, t.len())
    } else if starts_with_str(t, "Similar to ") {
        slice_chars(t, 11, t.len())
    } else if starts_with_str(t, "recommended from ") {
        slice_chars(t, 17, t.len())
    } else {
        t.clone()
    }
}

fn provenance_part_of(src: &RetrievalSource) -> (r: Vec<char>)
    ensures
        r@ == provenance_part(*src),
{
    match src.kind {
        RetrievalKind::Watchlist => chars_of("On your watchlist"),
        RetrievalKind::Related | RetrievalKind::RelatedRecommendations
        | RetrievalKind::RelatedSimilar => {
            let t = trimmed(src.label.as_str());
            let seed = strip_seed_prefix(&t);
            let related = chars_of("related");
            if seed.len() == 0 || eq_ignore_ascii_case(&seed, &related) {
                chars_of("Related")
            } else if src.kind == RetrievalKind::RelatedRecommendations {
                let mut out = chars_of("Recommended from ");
                append_chars(&mut out, &seed);
                out
            } else {
                let mut out = chars_of("Related to ");
                append_chars(&mut out, &seed);
                out
            }
        },
        RetrievalKind::Filmography => {
            let name = trimmed(src.label.as_str());
            let film = chars_of("filmography");
            if name.len() == 0 || eq_ignore_ascii_case(&name, &film) {
                chars_of("Filmography")
            } else {
                let mut out = chars_of("Filmography · ");
                append_chars(&mut out, &name);
                out
            }
        },
        RetrievalKind::Friend => chars_of("Friends"),
        RetrievalKind::Discovery => chars_of("Discovery"),
        RetrievalKind::Exploration => chars_of("Exploration"),
    }
}

fn kind_in(kinds: &Vec<RetrievalKind>, k: RetrievalKind) -> (b: bool)
    ensures
        b == kinds@.contains(k),
{
    let mut i: usize = 0;
    while i < kinds.len()
        invariant
            i <= kinds.len(),
            forall|j: int| 0 <= j < i ==> kinds@[j] != k,
        decreases kinds.len() - i,
    {
        if kinds[i] == k {
            return true;
        }
        i += 1;
    }
    false
}

/// The provenance line of a card: one part per source kind, in the order the
/// kinds first appear, joined with `" · "`.
pub fn format_provenance(sources: &[RetrievalSource]) -> (out: String)
    ensures
        out@ == join(provenance_parts(sources@), " · "@),
{
    let mut out: Vec<char> = Vec::new();
    let mut nparts: usize = 0;
    let mut seen: Vec<RetrievalKind> = Vec::new();
    let mut i: usize = 0;
    while i < sources.len()
        invariant
            i <= sources.len(),
            out@ == join(provenance_parts(sources@.take(i as int)), " · "@),
            nparts == provenance_parts(sources@.take(i as int)).len(),
            nparts <= i,
            forall|k: RetrievalKind|
                seen@.contains(k) <==> (exists|j: int| 0 <= j < i && (#[trigger] sources@[j]).kind == k),
        decreases sources.len() - i,
    {
        let ghost t = sources@.take((i + 1) as int);
        assert(t.drop_last() =~= sources@.take(i as int));
        let k = sources[i].kind;
        let dup = kind_in(&seen, k);
        assert(dup == kind_seen_before(t, i as int)) by {
            if dup {
                let j = choose|j: int| 0 <= j < i && (#[trigger] sources@[j]).kind == k;
                assert(t[j] == sources@[j]);
            }
            if kind_seen_before(t, i as int) {
                let j = choose|j: int| 0 <= j < i && (#[trigger] t[j]).kind == t[i as int].kind;
                assert(t[j] == sources@[j]);
            }
        }
        if !dup {
            let part = provenance_part_of(&sources[i]);
            if nparts > 0 {
                append_str(&mut out, " · ");
            }
            let ghost prev = out@;
            append_chars(&mut out, &part);
            proof {
                let ps = provenance_parts(t);
                assert(ps == provenance_parts(sources@.take(i as int)).push(part@));
                assert(ps.drop_last() =~= provenance_parts(sources@.take(i as int)));
            }
            nparts += 1;
        }
        let ghost seen_before = seen@;
        if !dup {
            seen.push(k);
        }
        assert forall|kk: RetrievalKind|
            seen@.contains(kk) <==> (exists|j: int| 0 <= j < i + 1 && (#[trigger] sources@[j]).kind == kk) by {
            if seen@.contains(kk) {
                let m = choose|m: int| 0 <= m < seen@.len() && seen@[m] == kk;
                if m < seen_before.len() {
                    assert(seen_before[m] == kk);
                    assert(seen_before.contains(kk));
                } else {
                    assert(sources@[i as int].kind == kk);
                }
            }
            if exists|j: int| 0 <= j < i + 1 && (#[trigger] sources@[j]).kind == kk {
                let j = choose|j: int| 0 <= j < i + 1 && (#[trigger] sources@[j]).kind == kk;
                if j < i {
                    assert(seen_before.contains(kk));
                    let m = choose|m: int| 0 <= m < seen_before.len() && seen_before[m] == kk;
                    assert(seen@[m] == kk);
                } else if dup {
                    assert(seen_before.contains(kk));
                    let m = choose|m: int| 0 <= m < seen_before.len() && seen_before[m] == kk;
                    assert(seen@[m] == kk);
                } else {
                    assert(seen@[seen@.len() - 1] == kk);
                }
            }
        }
        i += 1;
    }
    assert(sources@.take(sources.len() as int) =~= sources@);
    string_of(&out)
}

/// Adding a source of a kind the card already shows leaves its provenance
/// line unchanged: identical origins render once.
pub proof fn lemma_repeated_kind_renders_once(s: Seq<RetrievalSource>, x: RetrievalSource)
    requires
        exists|j: int| 0 <= j < s.len() && (#[trigger] s[j]).kind == x.kind,
    ensures
        provenance_parts(s.push(x)) == provenance_parts(s),
{
    let t = s.push(x);
    assert(t.drop_last() =~= s);
    let j = choose|j: int| 0 <= j < s.len() && (#[trigger] s[j]).kind == x.kind;
    assert(t[j] == s[j]);
}

// ---------------------------------------------------------------------------
// Grounding generated copy
// ---------------------------------------------------------------------------

/// UTF-8 length of a character.
pub open spec fn utf8_len_char(c: char) -> nat {
    if (c as u32) < 0x80 {
        1
    } else if (c as u32) < 0x800 {
        2
    } else if (c as u32) < 0x10000 {
        3
    } else {
        4
    }
}

/// UTF-8 length of a string (`str::len`).
pub open spec fn utf8_len(s: Seq<char>) -> nat
    decreases s.len(),
{
    if s.len() == 0 {
        0
    } else {
        utf8_len(s.drop_last()) + utf8_len_char(s.last())
    }
}

pub(crate) fn utf8_len_of(v: &Vec<char>) -> (n: usize)
    ensures
        n as nat == utf8_len(v@) || (n == usize::MAX && utf8_len(v@) >= usize::MAX),
{
    let mut n: usize = 0;
    let mut i: usize = 0;
    while i < v.len()
        invariant
            i <= v.len(),
            n as nat == utf8_len(v@.take(i as int)) || (n == usize::MAX && utf8_len(
                v@.take(i as int),
            ) >= usize::MAX),
        decreases v.len() - i,
    {
        assert(v@.take((i + 1) as int).drop_last() =~= v@.take(i as int));
        let c = v[i] as u32;
        let w: usize = if c < 0x80 {
            1
        } else if c < 0x800 {
            2
        } else if c < 0x10000 {
            3
        } else {
            4
        };
        if n > usize::MAX - w {
            n = usize::MAX;
        } else {
            n = n + w;
        }
        i += 1;
    }
    assert(v@.take(v.len() as int) =~= v@);
    n
}

/// The name a display line cites: its text before `" · "`, trimmed and
/// ASCII-lower-cased, when that is non-empty and not the watchlist line.
pub open spec fn allowed_name(line: Seq<char>) -> Option<Seq<char>> {
    let n = line_key(line);
    if n.len() == 0 || n == "on your watchlist"@ {
        Option::None
    } else {
        Some(n)
    }
}

/// Whether some visible line's name contains `name` or is contained in it.
pub open spec fn covered_by_display(display: Seq<Seq<char>>, name: Seq<char>) -> bool {
    exists|i: int|
        0 <= i < display.len() && (#[trigger] allowed_name(display[i])).is_some() && (contains(
            allowed_name(display[i]).unwrap(),
            name,
        ) || contains(name, allowed_name(display[i]).unwrap()))
}

/// Whether some visible line's name contains `word`.
pub open spec fn word_on_display(display: Seq<Seq<char>>, word: Seq<char>) -> bool {
    exists|i: int|
        0 <= i < display.len() && (#[trigger] allowed_name(display[i])).is_some() && contains(
            allowed_name(display[i]).unwrap(),
            word,
        )
}

pub open spec fn broad_genre_words() -> Seq<Seq<char>> {
    seq![
        "mystery"@,
        "crime"@,
        "thriller"@,
        "drama"@,
        "horror"@,
        "action"@,
        "comedy"@,
        "suspense"@,
        "suspenseful"@,
        "conspiracy"@,
        "adventure"@,
        "fantasy"@,
    ]
}

fn broad_genre_list() -> (v: Vec<&'static str>)
    ensures
        views(v@) == broad_genre_words(),
{
    let v = vec![
        "mystery",
        "crime",
        "thriller",
        "drama",
        "horror",
        "action",
        "comedy",
        "suspense",
        "suspenseful",
        "conspiracy",
        "adventure",
        "fantasy",
    ];
    assert(views(v@) =~= broad_genre_words());
    v
}

/// A hidden feature the copy names (four bytes or longer) without any visible
/// line backing it.
pub open spec fn hidden_leak(lower: Seq<char>, display: Seq<Seq<char>>, h: MatchedFeatureView) -> bool {
    let name = ascii_lower(h.name@);
    utf8_len(name) >= 4 && contains(lower, name) && !covered_by_display(display, name)
}

/// A broad genre word the copy uses without any visible line containing it.
pub open spec fn broad_leak(lower: Seq<char>, display: Seq<Seq<char>>, word: Seq<char>) -> bool {
    contains(lower, word) && !word_on_display(display, word)
}

/// Generated copy survives only if it cites nothing hidden: no hidden feature
/// name and no broad genre word that the visible reason lines do not carry.
pub open spec fn ground_why_spec(
    why: Seq<char>,
    display: Seq<Seq<char>>,
    hidden: Seq<MatchedFeatureView>,
) -> Seq<char> {
    let w = trim(why);
    let lower = unicode_lowercase(w);
    if w.len() == 0 {
        Seq::empty()
    } else if exists|k: int| 0 <= k < hidden.len() && hidden_leak(lower, display, #[trigger] hidden[k]) {
        Seq::empty()
    } else if exists|k: int|
        0 <= k < broad_genre_words().len() && broad_leak(lower, display, #[trigger] broad_genre_words()[k]) {
        Seq::empty()
    } else {
        w
    }
}

fn allowed_names(display: &[String]) -> (names: Vec<Vec<char>>)
    ensures
        names.len() == display.len(),
        forall|i: int| 0 <= i < display.len() ==> (#[trigger] names@[i])@ == line_key(display@[i]@),
{
    let mut names: Vec<Vec<char>> = Vec::new();
    let mut i: usize = 0;
    while i < display.len()
        invariant
            i <= display.len(),
            names.len() == i,
            forall|k: int| 0 <= k < i ==> (#[trigger] names@[k])@ == line_key(display@[k]@),
        decreases display.len() - i,
    {
        names.push(line_key_of(&display[i]));
        i += 1;
    }
    names
}

fn name_allowed(n: &Vec<char>) -> (b: bool)
    ensures
        b == (n@.len() > 0 && n@ != "on your watchlist"@),
{
    n.len() > 0 && !eq_str(n, "on your watchlist")
}

fn covered(names: &Vec<Vec<char>>, display: &[String], name: &Vec<char>) -> (b: bool)
    requires
        names.len() == display.len(),
        forall|i: int| 0 <= i < display.len() ==> (#[trigger] names@[i])@ == line_key(display@[i]@),
    ensures
        b == covered_by_display(strs(display@), name@),
{
    let ghost d = strs(display@);
    let mut i: usize = 0;
    while i < names.len()
        invariant
            i <= names.len() == display.len(),
            d == strs(display@),
            forall|k: int| 0 <= k < display.len() ==> (#[trigger] names@[k])@ == line_key(display@[k]@),
            forall|k: int|
                0 <= k < i ==> !((#[trigger] allowed_name(d[k])).is_some() && (contains(
                    allowed_name(d[k]).unwrap(),
                    name@,
                ) || contains(name@, allowed_name(d[k]).unwrap()))),
        decreases names.len() - i,
    {
        assert(d[i as int] == display@[i as int]@);
        if name_allowed(&names[i]) && (contains_chars(&names[i], name) || contains_chars(
            name,
            &names[i],
        )) {
            assert(allowed_name(d[i as int]).is_some());
            return true;
        }
        i += 1;
    }
    false
}

fn word_shown(names: &Vec<Vec<char>>, display: &[String], word: &Vec<char>) -> (b: bool)
    requires
        names.len() == display.len(),
        forall|i: int| 0 <= i < display.len() ==> (#[trigger] names@[i])@ == line_key(display@[i]@),
    ensures
        b == word_on_display(strs(display@), word@),
{
    let ghost d = strs(display@);
    let mut i: usize = 0;
    while i < names.len()
        invariant
            i <= names.len() == display.len(),
            d == strs(display@),
            forall|k: int| 0 <= k < display.len() ==> (#[trigger] names@[k])@ == line_key(display@[k]@),
            forall|k: int|
                0 <= k < i ==> !((#[trigger] allowed_name(d[k])).is_some() && contains(
                    allowed_name(d[k]).unwrap(),
                    word@,
                )),
        decreases names.len() - i,
    {
        assert(d[i as int] == display@[i as int]@);
        if name_allowed(&names[i]) && contains_chars(&names[i], word) {
            assert(allowed_name(d[i as int]).is_some());
            return true;
        }
        i += 1;
    }
    false
}

/// Drop generated copy that cites features not on the visible card.
pub fn ground_why(why: &str, display: &[String], hidden: &[MatchedFeatureView]) -> (out: String)
    ensures
        out@ == ground_why_spec(why@, strs(display@), hidden@),
{
    let w = trimmed(why);
    if w.len() == 0 {
        let e: Vec<char> = Vec::new();
        return string_of(&e);
    }
    let names = allowed_names(display);
    let lower = unicode_lower(&w);
    let ghost d = strs(display@);
    let mut k: usize = 0;
    while k < hidden.len()
        invariant
            k <= hidden.len(),
            d == strs(display@),
            names.len() == display.len(),
            forall|i: int| 0 <= i < display.len() ==> (#[trigger] names@[i])@ == line_key(display@[i]@),
            lower@ == unicode_lowercase(w@),
            w@ == trim(why@),
            w.len() > 0,
            forall|j: int| 0 <= j < k ==> !hidden_leak(lower@, d, #[trigger] hidden@[j]),
        decreases hidden.len() - k,
    {
        let hn = chars_of(hidden[k].name.as_str());
        let name = lower_ascii(&hn);
        let blen = utf8_len_of(&name);
        if blen >= 4 && contains_chars(&lower, &name) && !covered(&names, display, &name) {
            assert(hidden_leak(lower@, d, hidden@[k as int]));
            assert(trim(why@).len() != 0);
            assert(lower@ == unicode_lowercase(trim(why@)));
            assert(exists|j: int| 0 <= j < hidden@.len() && hidden_leak(lower@, d, #[trigger] hidden@[j]));
            let e: Vec<char> = Vec::new();
            let out = string_of(&e);
            assert(out@ =~= Seq::<char>::empty());
            return out;
        }
        k += 1;
    }
    let broad = broad_genre_list();
    let mut b: usize = 0;
    while b < broad.len()
        invariant
            b <= broad.len(),
            views(broad@) == broad_genre_words(),
            d == strs(display@),
            names.len() == display.len(),
            forall|i: int| 0 <= i < display.len() ==> (#[trigger] names@[i])@ == line_key(display@[i]@),
            lower@ == unicode_lowercase(w@),
            w@ == trim(why@),
            w.len() > 0,
            forall|j: int| 0 <= j < hidden@.len() ==> !hidden_leak(lower@, d, #[trigger] hidden@[j]),
            forall|j: int|
                0 <= j < b ==> !broad_leak(lower@, d, #[trigger] broad_genre_words()[j]),
        decreases broad.len() - b,
    {
        let word = chars_of(broad[b]);
        assert(word@ == broad_genre_words()[b as int]);
        if contains_chars(&lower, &word) && !word_shown(&names, display, &word) {
            assert(broad_leak(lower@, d, broad_genre_words()[b as int]));
            assert(!(exists|j: int| 0 <= j < hidden@.len() && hidden_leak(lower@, d, #[trigger] hidden@[j])));
            let e: Vec<char> = Vec::new();
            let out = string_of(&e);
            assert(out@ =~= Seq::<char>::empty());
            return out;
        }
        b += 1;
    }
    string_of(&w)
}

// ---------------------------------------------------------------------------
// Eligibility trace
// ---------------------------------------------------------------------------

pub open spec fn aff_names(cited: Seq<&FeatureAffinity>) -> Seq<Seq<char>> {
    cited.map_values(|a: &FeatureAffinity| a.key.name@)
}

/// Names of the cited people and keywords, in order.
pub open spec fn portable_names(cited: Seq<&FeatureAffinity>) -> Seq<Seq<char>>
    decreases cited.len(),
{
    if cited.len() == 0 {
        Seq::empty()
    } else {
        let r = portable_names(cited.drop_last());
        if cited.last().key.family.person_or_keyword() {
            r.push(cited.last().key.name@)
        } else {
            r
        }
    }
}

/// Why a candidate passed: its cited people and keywords; failing those, all
/// cited names (followed by "genre-only" for a genre-only pass).
pub open spec fn passed_because_spec(cited: Seq<&FeatureAffinity>, genre_only: bool) -> Seq<Seq<char>> {
    let portable = portable_names(cited);
    if portable.len() > 0 {
        portable
    } else if genre_only {
        aff_names(cited).push("genre-only"@)
    } else {
        aff_names(cited)
    }
}

/// The eligibility trace of a candidate before grading: portable evidence is
/// required, fit starts at 1000 and the grade is still `Ungraded`.
pub fn eligibility_trace(cited: &[&FeatureAffinity], genre_only: bool, passed: bool) -> (t:
    EligibilityTrace)
    ensures
        t.portable_evidence_required,
        t.passed == passed,
        strs(t.passed_because@) == passed_because_spec(cited@, genre_only),
        t.candidate_fit == 1000,
        t.evidence_grade == EvidenceGrade::Ungraded,
{
    let mut portable: Vec<String> = Vec::new();
    let mut all: Vec<String> = Vec::new();
    let mut i: usize = 0;
    while i < cited.len()
        invariant
            i <= cited.len(),
            strs(portable@) == portable_names(cited@.take(i as int)),
            strs(all@) == aff_names(cited@.take(i as int)),
        decreases cited.len() - i,
    {
        assert(cited@.take((i + 1) as int).drop_last() =~= cited@.take(i as int));
        let a = cited[i];
        let ghost pb = portable@;
        let ghost ab = all@;
        if a.key.is_person_or_keyword() {
            portable.push(a.key.name.clone());
            assert(strs(portable@) =~= strs(pb).push(a.key.name@));
        }
        all.push(a.key.name.clone());
        assert(strs(all@) =~= strs(ab).push(a.key.name@));
        assert(aff_names(cited@.take((i + 1) as int)) =~= aff_names(cited@.take(i as int)).push(
            a.key.name@,
        ));
        i += 1;
    }
    assert(cited@.take(cited.len() as int) =~= cited@);
    let passed_because = if portable.len() > 0 {
        portable
    } else if genre_only {
        let ghost ab = all@;
        all.push(string_of(&chars_of("genre-only")));
        assert(strs(all@) =~= strs(ab).push("genre-only"@));
        all
    } else {
        all
    };
    EligibilityTrace {
        portable_evidence_required: true,
        passed,
        passed_because,
        candidate_fit: 1000,
        evidence_grade: EvidenceGrade::Ungraded,
    }
}


// ---------------------------------------------------------------------------
// Display reasons
// ---------------------------------------------------------------------------

/// Lexicographic order of character sequences by code point (`String`'s `<`).
pub open spec fn seq_lt(a: Seq<char>, b: Seq<char>) -> bool
    decreases a.len(),
{
    if a.len() == 0 {
        b.len() > 0
    } else if b.len() == 0 {
        false
    } else if a[0] != b[0] {
        a[0] < b[0]
    } else {
        seq_lt(a.drop_first(), b.drop_first())
    }
}

/// `Option<i64>`'s `<`: `None` first, then by value.
pub open spec fn opt_lt(a: Option<i64>, b: Option<i64>) -> bool {
    match (a, b) {
        (Option::None, Some(_)) => true,
        (Some(x), Some(y)) => x < y,
        _ => false,
    }
}

/// Display order of cited features: higher display priority, then higher
/// scoring affinity, then family order, then name, then id.
pub open spec fn display_before(a: &FeatureAffinity, b: &FeatureAffinity) -> bool {
    let pa = display_priority_spec(a);
    let pb = display_priority_spec(b);
    let sa = a.scoring_affinity_spec();
    let sb = b.scoring_affinity_spec();
    let ka = a.key.family.sort_key_spec();
    let kb = b.key.family.sort_key_spec();
    if pa != pb {
        pb < pa
    } else if sa != sb {
        sb < sa
    } else if ka != kb {
        ka < kb
    } else if a.key.name@ != b.key.name@ {
        seq_lt(a.key.name@, b.key.name@)
    } else {
        opt_lt(a.key.id, b.key.id)
    }
}

/// First position in `s` before which `x` must go (the first element that
/// `x` displays before), or the end.
pub open spec fn insert_pos(s: Seq<&FeatureAffinity>, x: &FeatureAffinity, i: int) -> int
    decreases s.len() - i,
{
    if i >= s.len() || i < 0 {
        s.len() as int
    } else if display_before(x, s[i]) {
        i
    } else {
        insert_pos(s, x, i + 1)
    }
}

/// The features in display order: a stable sort by [`display_before`].
pub open spec fn display_sorted(s: Seq<&FeatureAffinity>) -> Seq<&FeatureAffinity>
    decreases s.len(),
{
    if s.len() == 0 {
        Seq::empty()
    } else {
        let r = display_sorted(s.drop_last());
        r.insert(insert_pos(r, s.last(), 0), s.last())
    }
}

/// The features that may headline: everything but keywords that are not
/// display reasons.
pub open spec fn displayable_features(s: Seq<&FeatureAffinity>) -> Seq<&FeatureAffinity>
    decreases s.len(),
{
    if s.len() == 0 {
        Seq::empty()
    } else {
        let r = displayable_features(s.drop_last());
        let a = s.last();
        if a.key.family != FeatureFamily::Keyword || display_reason_spec(a.key.name@) {
            r.push(a)
        } else {
            r
        }
    }
}

/// The key under which reason lines about the same person collapse.
pub open spec fn collapse_key(a: &FeatureAffinity) -> Seq<char> {
    if a.key.family.person_or_keyword() && a.key.family != FeatureFamily::Keyword {
        "person:"@ + ascii_lower(a.key.name@)
    } else {
        a.key.family.debug_name() + ":"@ + ascii_lower(a.key.name@)
    }
}

/// Reason lines for the sorted features: one per collapse key, at most three.
/// Returns the lines and the keys used.
pub open spec fn pick_reasons(s: Seq<&FeatureAffinity>) -> (Seq<Seq<char>>, Seq<Seq<char>>)
    decreases s.len(),
{
    if s.len() == 0 {
        (Seq::empty(), Seq::empty())
    } else {
        let (lines, keys) = pick_reasons(s.drop_last());
        let a = s.last();
        if lines.len() >= 3 || keys.contains(collapse_key(a)) {
            (lines, keys)
        } else {
            (
                lines.push(display_reason_line(a.key.name@, a.appearances)),
                keys.push(collapse_key(a)),
            )
        }
    }
}

/// `lines` followed by the extras that fit within four lines and are not
/// already present (ignoring ASCII case).
pub open spec fn add_extras(lines: Seq<Seq<char>>, extras: Seq<Seq<char>>) -> Seq<Seq<char>>
    decreases extras.len(),
{
    if extras.len() == 0 {
        lines
    } else {
        let r = add_extras(lines, extras.drop_last());
        if r.len() >= 4 || any_eq_ic(r, extras.last()) {
            r
        } else {
            r.push(extras.last())
        }
    }
}

pub open spec fn any_eq_ic(list: Seq<Seq<char>>, x: Seq<char>) -> bool {
    exists|i: int| 0 <= i < list.len() && eq_ignore_case(list[i], x)
}

/// The headline reasons of a card.
pub open spec fn display_reasons_spec(cited: Seq<&FeatureAffinity>, extras: Seq<Seq<char>>) -> Seq<
    Seq<char>,
> {
    canonical_lines(add_extras(pick_reasons(display_sorted(displayable_features(cited))).0, extras))
}

pub(crate) fn seq_less(a: &Vec<char>, b: &Vec<char>) -> (r: bool)
    ensures
        r == seq_lt(a@, b@),
{
    let mut i: usize = 0;
    assert(a@.subrange(0, a.len() as int) =~= a@);
    assert(b@.subrange(0, b.len() as int) =~= b@);
    while i < a.len() && i < b.len()
        invariant
            i <= a.len(),
            i <= b.len(),
            forall|k: int| 0 <= k < i ==> a@[k] == b@[k],
            seq_lt(a@, b@) == seq_lt(a@.subrange(i as int, a.len() as int), b@.subrange(
                i as int,
                b.len() as int,
            )),
        decreases a.len() - i,
    {
        if a[i] != b[i] {
            return a[i] < b[i];
        }
        proof {
            let sa = a@.subrange(i as int, a.len() as int);
            let sb = b@.subrange(i as int, b.len() as int);
            assert(sa.drop_first() =~= a@.subrange(i + 1, a.len() as int));
            assert(sb.drop_first() =~= b@.subrange(i + 1, b.len() as int));
        }
        i += 1;
    }
    i == a.len() && i < b.len()
}

fn display_before_exec(a: &FeatureAffinity, b: &FeatureAffinity) -> (r: bool)
    ensures
        r == display_before(a, b),
{
    let pa = display_priority(a);
    let pb = display_priority(b);
    if pa != pb {
        return pb < pa;
    }
    let sa = a.scoring_affinity();
    let sb = b.scoring_affinity();
    if sa != sb {
        return sb < sa;
    }
    let ka = a.key.family.sort_key();
    let kb = b.key.family.sort_key();
    if ka != kb {
        return ka < kb;
    }
    let na = chars_of(a.key.name.as_str());
    let nb = chars_of(b.key.name.as_str());
    if !crate::text::seq_eq(&na, &nb) {
        return seq_less(&na, &nb);
    }
    match (a.key.id, b.key.id) {
        (Option::None, Some(_)) => true,
        (Some(x), Some(y)) => x < y,
        _ => false,
    }
}

fn display_collapse_key(a: &FeatureAffinity) -> (k: Vec<char>)
    ensures
        k@ == collapse_key(a),
{
    let n = chars_of(a.key.name.as_str());
    let l = lower_ascii(&n);
    if a.key.is_person_or_keyword() && a.key.family != FeatureFamily::Keyword {
        let mut out = chars_of("person:");
        append_chars(&mut out, &l);
        out
    } else {
        let mut out = chars_of(a.key.family.debug_str());
        append_str(&mut out, ":");
        append_chars(&mut out, &l);
        out
    }
}

fn any_line_eq_ic(lines: &Vec<String>, x: &Vec<char>) -> (b: bool)
    ensures
        b == any_eq_ic(strs(lines@), x@),
{
    let mut i: usize = 0;
    while i < lines.len()
        invariant
            i <= lines.len(),
            forall|k: int| 0 <= k < i ==> !eq_ignore_case(strs(lines@)[k], x@),
        decreases lines.len() - i,
    {
        let c = chars_of(lines[i].as_str());
        if eq_ignore_ascii_case(&c, x) {
            assert(eq_ignore_case(strs(lines@)[i as int], x@));
            return true;
        }
        i += 1;
    }
    false
}

/// Up to three headline reasons from the cited features (craft and specific
/// keywords first, one line per person), topped up to four with extras that
/// are not already there, then canonicalised.
pub fn select_display_reasons(cited: &[&FeatureAffinity], extras: &[String]) -> (out: Vec<String>)
    ensures
        strs(out@) == display_reasons_spec(cited@, strs(extras@)),
{
    // Keep the features that may headline.
    let mut ranked: Vec<&FeatureAffinity> = Vec::new();
    let mut i: usize = 0;
    while i < cited.len()
        invariant
            i <= cited.len(),
            ranked@ == displayable_features(cited@.take(i as int)),
        decreases cited.len() - i,
    {
        assert(cited@.take((i + 1) as int).drop_last() =~= cited@.take(i as int));
        let a = cited[i];
        if a.key.family != FeatureFamily::Keyword || keyword_is_display_reason(a.key.name.as_str()) {
            ranked.push(a);
        }
        i += 1;
    }
    assert(cited@.take(cited.len() as int) =~= cited@);
    // Stable insertion sort into display order.
    let mut sorted: Vec<&FeatureAffinity> = Vec::new();
    let mut i: usize = 0;
    while i < ranked.len()
        invariant
            i <= ranked.len(),
            sorted@ == display_sorted(ranked@.take(i as int)),
        decreases ranked.len() - i,
    {
        assert(ranked@.take((i + 1) as int).drop_last() =~= ranked@.take(i as int));
        let x = ranked[i];
        let mut p: usize = 0;
        while p < sorted.len() && !display_before_exec(x, sorted[p])
            invariant
                p <= sorted.len(),
                insert_pos(sorted@, x, 0) == insert_pos(sorted@, x, p as int),
            decreases sorted.len() - p,
        {
            p += 1;
        }
        sorted.insert(p, x);
        i += 1;
    }
    assert(ranked@.take(ranked.len() as int) =~= ranked@);
    // One line per collapse key, at most three.
    let mut seen: Vec<Vec<char>> = Vec::new();
    let mut out: Vec<String> = Vec::new();
    let mut i: usize = 0;
    while i < sorted.len()
        invariant
            i <= sorted.len(),
            strs(out@) == pick_reasons(sorted@.take(i as int)).0,
            char_vecs(seen@) == pick_reasons(sorted@.take(i as int)).1,
        decreases sorted.len() - i,
    {
        assert(sorted@.take((i + 1) as int).drop_last() =~= sorted@.take(i as int));
        if out.len() >= 3 {
            i += 1;
            continue;
        }
        let a = sorted[i];
        let k = display_collapse_key(a);
        if seen_contains(&seen, &k) {
            i += 1;
            continue;
        }
        let ghost ob = out@;
        let ghost sb = seen@;
        out.push(format_display_reason(a));
        seen.push(k);
        assert(strs(out@) =~= strs(ob).push(display_reason_line(a.key.name@, a.appearances)));
        assert(char_vecs(seen@) =~= char_vecs(sb).push(collapse_key(a)));
        i += 1;
    }
    assert(sorted@.take(sorted.len() as int) =~= sorted@);
    let ghost picked = strs(out@);
    // Top up with extras.
    let mut e: usize = 0;
    while e < extras.len()
        invariant
            e <= extras.len(),
            strs(out@) == add_extras(picked, strs(extras@).take(e as int)),
        decreases extras.len() - e,
    {
        assert(strs(extras@).take((e + 1) as int).drop_last() =~= strs(extras@).take(e as int));
        if out.len() >= 4 {
            e += 1;
            continue;
        }
        let x = chars_of(extras[e].as_str());
        if !any_line_eq_ic(&out, &x) {
            let ghost ob = out@;
            out.push(extras[e].clone());
            assert(strs(out@) =~= strs(ob).push(extras@[e as int]@));
        }
        e += 1;
    }
    assert(strs(extras@).take(extras.len() as int) =~= strs(extras@));
    canonicalize_reason_lines(out)
}


/// Of two cited features, the one with the higher display priority
/// headlines first.
pub proof fn lemma_display_priority_first(a: &FeatureAffinity, b: &FeatureAffinity)
    requires
        display_priority_spec(a) > display_priority_spec(b),
    ensures
        display_before(a, b),
        !display_before(b, a),
{
}

/// Of two cited features with the same display priority, the one with the
/// higher scoring affinity headlines first.
pub proof fn lemma_display_stronger_first(a: &FeatureAffinity, b: &FeatureAffinity)
    requires
        display_priority_spec(a) == display_priority_spec(b),
        a.scoring_affinity_spec() > b.scoring_affinity_spec(),
    ensures
        display_before(a, b),
        !display_before(b, a),
{
}

proof fn lemma_display_asymmetric(a: &FeatureAffinity, b: &FeatureAffinity)
    ensures
        !(display_before(a, b) && display_before(b, a)),
{
    crate::assemble::lemma_seq_lt_asymmetric(a.key.name@, b.key.name@);
}

proof fn lemma_display_transitive(a: &FeatureAffinity, b: &FeatureAffinity, c: &FeatureAffinity)
    requires
        display_before(a, b),
        display_before(b, c),
    ensures
        display_before(a, c),
{
    let (x, y, z) = (a.key.name@, b.key.name@, c.key.name@);
    crate::assemble::lemma_seq_lt_irreflexive(x);
    crate::assemble::lemma_seq_lt_asymmetric(x, z);
    if seq_lt(x, y) && seq_lt(y, z) {
        crate::assemble::lemma_seq_lt_transitive(x, y, z);
    }
}

proof fn lemma_insert_pos(s: Seq<&FeatureAffinity>, x: &FeatureAffinity, i: int)
    requires
        0 <= i <= s.len(),
    ensures
        i <= insert_pos(s, x, i) <= s.len(),
        forall|k: int| i <= k < insert_pos(s, x, i) ==> !display_before(x, #[trigger] s[k]),
        insert_pos(s, x, i) < s.len() ==> display_before(x, s[insert_pos(s, x, i)]),
    decreases s.len() - i,
{
    if i < s.len() && !display_before(x, s[i]) {
        lemma_insert_pos(s, x, i + 1);
    }
}

/// No feature in the list should headline before one listed earlier.
pub open spec fn display_ordered(s: Seq<&FeatureAffinity>) -> bool {
    forall|i: int, j: int| 0 <= i < j < s.len() ==> !display_before(#[trigger] s[j], #[trigger] s[i])
}

proof fn lemma_display_sorted_ordered(s: Seq<&FeatureAffinity>)
    ensures
        display_sorted(s).len() == s.len(),
        display_ordered(display_sorted(s)),
    decreases s.len(),
{
    if s.len() > 0 {
        lemma_display_sorted_ordered(s.drop_last());
        let r = display_sorted(s.drop_last());
        let x = s.last();
        lemma_insert_pos(r, x, 0);
        let p = insert_pos(r, x, 0);
        let t = r.insert(p, x);
        assert(display_sorted(s) == t);
        assert forall|i: int, j: int| 0 <= i < j < t.len() implies !display_before(#[trigger] t[j], #[trigger] t[i]) by {
            if j < p {
                assert(t[i] == r[i] && t[j] == r[j]);
            } else if j == p {
                assert(t[i] == r[i] && t[j] == x);
            } else if i == p {
                assert(t[i] == x && t[j] == r[j - 1]);
                lemma_display_asymmetric(x, r[p]);
                if j - 1 > p {
                    if display_before(r[j - 1], x) {
                        lemma_display_transitive(r[j - 1], x, r[p]);
                    }
                }
            } else if i < p {
                assert(t[i] == r[i] && t[j] == r[j - 1]);
            } else {
                assert(t[i] == r[i - 1] && t[j] == r[j - 1]);
            }
        }
    }
}

/// In headline order, display priority never rises, and within one
/// priority the scoring affinity never rises.
pub proof fn lemma_display_sorted_order(s: Seq<&FeatureAffinity>)
    ensures
        display_sorted(s).len() == s.len(),
        forall|i: int, j: int| 0 <= i < j < s.len() ==> display_priority_spec(#[trigger] display_sorted(s)[i])
            >= display_priority_spec(#[trigger] display_sorted(s)[j]),
        forall|i: int, j: int| 0 <= i < j < s.len() && display_priority_spec(#[trigger] display_sorted(s)[i])
            == display_priority_spec(#[trigger] display_sorted(s)[j]) ==> display_sorted(s)[i].scoring_affinity_spec()
            >= display_sorted(s)[j].scoring_affinity_spec(),
{
    lemma_display_sorted_ordered(s);
    let t = display_sorted(s);
    assert forall|i: int, j: int| 0 <= i < j < s.len() implies display_priority_spec(#[trigger] t[i])
        >= display_priority_spec(#[trigger] t[j]) by {
        assert(!display_before(t[j], t[i]));
    }
    assert forall|i: int, j: int| 0 <= i < j < s.len() && display_priority_spec(#[trigger] t[i])
        == display_priority_spec(#[trigger] t[j]) implies t[i].scoring_affinity_spec() >= t[j].scoring_affinity_spec() by {
        assert(!display_before(t[j], t[i]));
    }
}


/// Of two cited features with the same display priority and scoring
/// affinity, the family earlier in display order headlines first, then the
/// name earlier in order.
pub proof fn lemma_display_ties(a: &FeatureAffinity, b: &FeatureAffinity)
    requires
        display_priority_spec(a) == display_priority_spec(b),
        a.scoring_affinity_spec() == b.scoring_affinity_spec(),
    ensures
        a.key.family.sort_key_spec() < b.key.family.sort_key_spec() ==> display_before(a, b) && !display_before(b, a),
        a.key.family == b.key.family && seq_lt(a.key.name@, b.key.name@) ==> display_before(a, b) && !display_before(b, a),
{
    crate::assemble::lemma_seq_lt_asymmetric(a.key.name@, b.key.name@);
    crate::assemble::lemma_seq_lt_irreflexive(a.key.name@);
}

} // verus!
