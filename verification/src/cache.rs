//! The warm-start cache: fingerprints of what a run was computed from, and
//! the rules that decide whether a stored run can be reused.
use vstd::prelude::*;
use std::collections::hash_map::DefaultHasher;
use std::hash::Hasher;
use vstd::std_specs::hash::DefaultHasherAdditionalSpecFns;
use crate::explain::{seq_less, seq_lt};
use crate::explain::join;
use crate::features::{Credit, Keyword};
use crate::model::join_parts;
use crate::reason::{TasteAffinity, TasteDimension};
use crate::retrieve::{Candidate, FilmRecord, MediaKind, RetrievalKind, RetrievalSource};
use crate::score::{ScoredCandidate, FROZEN_FORMULA_ID};
use crate::text::{
    append_chars, append_str, chars_of, dec_i64, dec_int, dec_nat, dec_u64, digit_char,
    ends_with_chars, has_suffix, hex16, hex16_u64, seq_eq, string_of,
};

verus! {

/// Days a cached catalog stays valid.
pub const CATALOG_TTL_DAYS: i64 = 30;

/// The narrative part of a stored run.
#[derive(Clone, Debug)]
pub struct TasteNarrative {
    pub title: String,
    pub summary: String,
    pub affinities: Vec<TasteAffinity>,
    pub aversions: Vec<TasteAffinity>,
    pub dimensions: Vec<TasteDimension>,
}

/// What a run was computed from.
#[derive(Clone, Debug)]
pub struct Fingerprints {
    pub algorithm_version: String,
    pub profile_fingerprint: String,
    pub library_state_fingerprint: String,
    pub candidate_input_fingerprint: String,
    pub scoring_fingerprint: String,
    pub narrative_key: String,
}

/// A stored run: its fingerprints, until when its catalog is valid (RFC
/// 3339), the scored pool and the narrative.
#[derive(Clone, Debug)]
pub struct RunSnapshot {
    pub fingerprints: Fingerprints,
    pub catalog_valid_until: String,
    pub scored_pool: Vec<ScoredCandidate>,
    pub narrative: TasteNarrative,
}

// ---------------------------------------------------------------------------
// Hashing
// ---------------------------------------------------------------------------

/// The writes that hashing the parts as strings makes: each part's UTF-8
/// bytes, then the terminator byte `0xff`.
pub open spec fn hash_writes(parts: Seq<Seq<char>>) -> Seq<Seq<u8>>
    decreases parts.len(),
{
    if parts.len() == 0 {
        Seq::empty()
    } else {
        hash_writes(parts.drop_last()).push(vstd::utf8::encode_utf8(parts.last())).push(
            seq![0xffu8],
        )
    }
}

/// The fingerprint of a list of strings: std's default hasher over the
/// strings in order, as 16 lower-case hexadecimal digits.
pub open spec fn fingerprint_of(parts: Seq<Seq<char>>) -> Seq<char> {
    hex16(DefaultHasher::spec_finish(hash_writes(parts)) as nat)
}

pub open spec fn views_of(v: Seq<String>) -> Seq<Seq<char>> {
    v.map_values(|s: String| s@)
}

/// Hashes the parts in order and renders the hash as 16 hex digits.
pub fn hash_parts(parts: &[String]) -> (h: String)
    ensures
        h@ == fingerprint_of(views_of(parts@)),
{
    let mut hasher = DefaultHasher::new();
    let terminator: [u8; 1] = [0xff];
    let mut i: usize = 0;
    while i < parts.len()
        invariant
            i <= parts.len(),
            hasher@ == hash_writes(views_of(parts@.take(i as int))),
            terminator@ == seq![0xffu8],
        decreases parts.len() - i,
    {
        assert(views_of(parts@.take((i + 1) as int)).drop_last() =~= views_of(
            parts@.take(i as int),
        ));
        hasher.write(parts[i].as_str().as_bytes());
        hasher.write(&terminator);
        i += 1;
    }
    assert(parts@.take(parts.len() as int) =~= parts@);
    let h = hex16_u64(hasher.finish());
    string_of(&h)
}

fn owned(s: &str) -> (r: String)
    ensures
        r@ == s@,
{
    s.to_owned()
}

/// The scoring fingerprint: the algorithm version and the frozen formula id.
pub fn scoring_fingerprint(algorithm_version: &str) -> (f: String)
    ensures
        f@ == fingerprint_of(seq![algorithm_version@, FROZEN_FORMULA_ID@]),
{
    let mut parts: Vec<String> = Vec::new();
    parts.push(owned(algorithm_version));
    parts.push(owned(FROZEN_FORMULA_ID));
    assert(views_of(parts@) =~= seq![algorithm_version@, FROZEN_FORMULA_ID@]);
    hash_parts(parts.as_slice())
}

pub open spec fn web_tag(web: bool) -> Seq<char> {
    if web {
        "web1"@
    } else {
        "web0"@
    }
}

/// The key of a narrative: the three input fingerprints, the model and the
/// web-search switch.
pub open spec fn narrative_key_spec(
    profile: Seq<char>,
    library: Seq<char>,
    candidate: Seq<char>,
    model: Seq<char>,
    web: bool,
) -> Seq<char> {
    fingerprint_of(seq![profile, library, candidate, model, web_tag(web)])
}

/// All fingerprints of a run, from the three input fingerprints, the model
/// and the web-search switch.
pub fn fingerprints(
    algorithm_version: &str,
    profile: String,
    library: String,
    candidate: String,
    model: &str,
    web: bool,
) -> (f: Fingerprints)
    ensures
        f.algorithm_version@ == algorithm_version@,
        f.profile_fingerprint@ == profile@,
        f.library_state_fingerprint@ == library@,
        f.candidate_input_fingerprint@ == candidate@,
        f.scoring_fingerprint@ == fingerprint_of(seq![algorithm_version@, FROZEN_FORMULA_ID@]),
        f.narrative_key@ == narrative_key_spec(profile@, library@, candidate@, model@, web),
{
    let scoring = scoring_fingerprint(algorithm_version);
    let mut parts: Vec<String> = Vec::new();
    parts.push(profile.clone());
    parts.push(library.clone());
    parts.push(candidate.clone());
    parts.push(owned(model));
    parts.push(if web {
        owned("web1")
    } else {
        owned("web0")
    });
    assert(views_of(parts@) =~= seq![profile@, library@, candidate@, model@, web_tag(web)]);
    let narrative_key = hash_parts(parts.as_slice());
    Fingerprints {
        algorithm_version: owned(algorithm_version),
        profile_fingerprint: profile,
        library_state_fingerprint: library,
        candidate_input_fingerprint: candidate,
        scoring_fingerprint: scoring,
        narrative_key,
    }
}

// ---------------------------------------------------------------------------
// Catalog fingerprints
// ---------------------------------------------------------------------------

pub open spec fn strictly_increasing(s: Seq<i64>) -> bool {
    forall|a: int, b: int| 0 <= a < b < s.len() ==> s[a] < s[b]
}

/// The ids whose catalog rows a pool depends on: sorted, each once.
pub fn catalog_payload_ids(ids: &[i64]) -> (out: Vec<i64>)
    ensures
        strictly_increasing(out@),
        forall|x: i64| out@.contains(x) <==> ids@.contains(x),
{
    let mut out: Vec<i64> = Vec::new();
    let mut i: usize = 0;
    while i < ids.len()
        invariant
            i <= ids.len(),
            strictly_increasing(out@),
            forall|x: i64| out@.contains(x) <==> ids@.take(i as int).contains(x),
        decreases ids.len() - i,
    {
        let x = ids[i];
        let mut k: usize = 0;
        while k < out.len() && out[k] < x
            invariant
                k <= out.len(),
                forall|a: int| 0 <= a < k ==> out@[a] < x,
            decreases out.len() - k,
        {
            k += 1;
        }
        let ghost before = out@;
        if k == out.len() || out[k] != x {
            out.insert(k, x);
            assert forall|a: int, b: int| 0 <= a < b < out@.len() implies out@[a] < out@[b] by {
                if b < k {
                } else if a < k && b == k {
                } else if a < k {
                    assert(out@[b] == before[b - 1]);
                } else if a == k {
                    assert(out@[b] == before[b - 1]);
                    assert(before[k as int] >= x);
                    if b - 1 > k {
                        assert(before[k as int] < before[b - 1]);
                    }
                } else {
                    assert(out@[a] == before[a - 1]);
                    assert(out@[b] == before[b - 1]);
                }
            }
            assert forall|y: i64| out@.contains(y) <==> before.contains(y) || y == x by {
                if out@.contains(y) {
                    let j = choose|j: int| 0 <= j < out@.len() && #[trigger] out@[j] == y;
                    if j < k {
                        assert(before[j] == y);
                    } else if j > k {
                        assert(before[j - 1] == y);
                    }
                }
                if before.contains(y) {
                    let j = choose|j: int| 0 <= j < before.len() && #[trigger] before[j] == y;
                    if j < k {
                        assert(out@[j] == y);
                    } else {
                        assert(out@[j + 1] == y);
                    }
                }
                if y == x {
                    assert(out@[k as int] == x);
                }
            }
        } else {
            assert(out@[k as int] == x);
            assert(out@.contains(x));
        }
        let ghost pre = ids@.take(i as int);
        let ghost post = pre.push(x);
        assert(ids@.take((i + 1) as int) =~= post);
        assert forall|y: i64| post.contains(y) <==> pre.contains(y) || y == x by {
            if post.contains(y) {
                let j = choose|j: int| 0 <= j < post.len() && #[trigger] post[j] == y;
                if j < pre.len() {
                    assert(pre[j] == y);
                }
            }
            if pre.contains(y) {
                let j = choose|j: int| 0 <= j < pre.len() && #[trigger] pre[j] == y;
                assert(post[j] == y);
            }
            if y == x {
                assert(post[pre.len() as int] == x);
            }
        }
        assert forall|y: i64| out@.contains(y) <==> ids@.take((i + 1) as int).contains(y) by {
            assert(before.contains(y) <==> pre.contains(y));
        }
        i += 1;
    }
    assert(ids@.take(ids.len() as int) =~= ids@);
    out
}

/// The cached catalog columns of one title (`None` where the column is empty).
#[derive(Clone, Debug)]
pub struct CatalogRow {
    pub tmdb_id: i64,
    pub credits_json: Option<String>,
    pub keywords_json: Option<String>,
}

pub open spec fn or_empty(o: Option<String>) -> Seq<char> {
    match o {
        Some(s) => s@,
        None => Seq::empty(),
    }
}

/// `"{id}:{credits}:{keywords}"` for one catalog row.
pub open spec fn catalog_part(r: CatalogRow) -> Seq<char> {
    dec_int(r.tmdb_id as int) + ":"@ + or_empty(r.credits_json) + ":"@ + or_empty(r.keywords_json)
}

/// The fingerprint of the catalog rows a pool was scored from, given the rows
/// of [`catalog_payload_ids`] in that order.
pub fn catalog_payload_fingerprint(rows: &[CatalogRow]) -> (f: String)
    ensures
        f@ == fingerprint_of(rows@.map_values(|r: CatalogRow| catalog_part(r))),
{
    let mut parts: Vec<String> = Vec::new();
    let mut i: usize = 0;
    while i < rows.len()
        invariant
            i <= rows.len(),
            views_of(parts@) == rows@.take(i as int).map_values(|r: CatalogRow| catalog_part(r)),
        decreases rows.len() - i,
    {
        let r = &rows[i];
        let mut p = dec_i64(r.tmdb_id);
        append_str(&mut p, ":");
        match &r.credits_json {
            Some(c) => append_str(&mut p, c.as_str()),
            None => {},
        }
        append_str(&mut p, ":");
        match &r.keywords_json {
            Some(k) => append_str(&mut p, k.as_str()),
            None => {},
        }
        assert(p@ =~= catalog_part(rows@[i as int]));
        let ghost before = parts@;
        parts.push(string_of(&p));
        assert(views_of(parts@) =~= views_of(before).push(p@));
        assert(rows@.take((i + 1) as int).map_values(|r: CatalogRow| catalog_part(r))
            =~= rows@.take(i as int).map_values(|r: CatalogRow| catalog_part(r)).push(
            catalog_part(rows@[i as int]),
        ));
        i += 1;
    }
    assert(rows@.take(rows.len() as int) =~= rows@);
    hash_parts(parts.as_slice())
}

/// The stored candidate fingerprint: the retrieval fingerprint bound to the
/// catalog payload fingerprint.
pub open spec fn bound_fingerprint(retrieve_fp: Seq<char>, payload_fp: Seq<char>) -> Seq<char> {
    retrieve_fp + ":"@ + payload_fp
}

/// `"{retrieve_fp}:{payload_fp}"`.
pub fn bind_catalog_fingerprint(retrieve_fp: &str, payload_fp: &str) -> (f: String)
    ensures
        f@ == bound_fingerprint(retrieve_fp@, payload_fp@),
{
    let mut v = chars_of(retrieve_fp);
    append_str(&mut v, ":");
    append_str(&mut v, payload_fp);
    string_of(&v)
}

/// Whether a stored candidate fingerprint was bound to this catalog payload.
pub fn catalog_fingerprint_matches(stored: &str, payload_fp: &str) -> (b: bool)
    ensures
        b == has_suffix(stored@, ":"@ + payload_fp@),
{
    let s = chars_of(stored);
    let mut t = chars_of(":");
    append_str(&mut t, payload_fp);
    ends_with_chars(&s, &t)
}

/// A fingerprint bound to a catalog payload matches that payload.
pub proof fn lemma_bound_fingerprint_matches(retrieve_fp: Seq<char>, payload_fp: Seq<char>)
    ensures
        has_suffix(bound_fingerprint(retrieve_fp, payload_fp), ":"@ + payload_fp),
{
    let b = bound_fingerprint(retrieve_fp, payload_fp);
    let t = ":"@ + payload_fp;
    assert(b.subrange(b.len() - t.len(), b.len() as int) =~= t);
}

// ---------------------------------------------------------------------------
// Reusing a stored run
// ---------------------------------------------------------------------------

/// Whether a stored run may be reused: it was computed by this algorithm
/// from the same profile, library and scoring formula, its catalog has not
/// expired (`now` is earlier than the stored limit, both RFC 3339), its
/// candidate fingerprint is bound to the current catalog payload, and every
/// cached catalog row is fresh.
pub open spec fn snapshot_usable_spec(
    stored: Fingerprints,
    catalog_valid_until: Seq<char>,
    algorithm_version: Seq<char>,
    profile_fp: Seq<char>,
    library_fp: Seq<char>,
    now: Seq<char>,
    payload_fp: Seq<char>,
    rows_fresh: bool,
) -> bool {
    &&& stored.algorithm_version@ == algorithm_version
    &&& stored.profile_fingerprint@ == profile_fp
    &&& stored.library_state_fingerprint@ == library_fp
    &&& stored.scoring_fingerprint@ == fingerprint_of(seq![algorithm_version, FROZEN_FORMULA_ID@])
    &&& seq_lt(now, catalog_valid_until)
    &&& has_suffix(stored.candidate_input_fingerprint@, ":"@ + payload_fp)
    &&& rows_fresh
}

fn same(a: &String, b: &str) -> (r: bool)
    ensures
        r == (a@ == b@),
{
    let x = chars_of(a.as_str());
    let y = chars_of(b);
    crate::text::seq_eq(&x, &y)
}

/// Whether a stored run can be reused instead of recomputing, given the
/// current fingerprints, the time, the current catalog payload fingerprint
/// and whether the cached catalog rows are fresh.
pub fn snapshot_usable(
    stored: &Fingerprints,
    catalog_valid_until: &str,
    algorithm_version: &str,
    profile_fp: &str,
    library_fp: &str,
    now: &str,
    payload_fp: &str,
    rows_fresh: bool,
) -> (b: bool)
    ensures
        b == snapshot_usable_spec(
            *stored,
            catalog_valid_until@,
            algorithm_version@,
            profile_fp@,
            library_fp@,
            now@,
            payload_fp@,
            rows_fresh,
        ),
{
    let scoring = scoring_fingerprint(algorithm_version);
    if !same(&stored.algorithm_version, algorithm_version) || !same(
        &stored.profile_fingerprint,
        profile_fp,
    ) || !same(&stored.library_state_fingerprint, library_fp) || !same(
        &stored.scoring_fingerprint,
        scoring.as_str(),
    ) {
        return false;
    }
    let n = chars_of(now);
    let u = chars_of(catalog_valid_until);
    if !seq_less(&n, &u) {
        return false;
    }
    if !catalog_fingerprint_matches(stored.candidate_input_fingerprint.as_str(), payload_fp) {
        return false;
    }
    rows_fresh
}


// ---------------------------------------------------------------------------
// Input fingerprints
// ---------------------------------------------------------------------------

/// The digits of a fraction in thousandths (1 to 999), without trailing
/// zeros.
pub open spec fn frac_text(f: nat) -> Seq<char> {
    if f % 100 == 0 {
        seq![digit_char(f / 100)]
    } else if f % 10 == 0 {
        seq![digit_char(f / 100), digit_char((f / 10) % 10)]
    } else {
        seq![digit_char(f / 100), digit_char((f / 10) % 10), digit_char(f % 10)]
    }
}

/// A value in thousandths written as a decimal: `4500` is `4.5`, `4000`
/// is `4`.
pub open spec fn milli_text(r: int) -> Seq<char> {
    let a = if r < 0 {
        -r
    } else {
        r
    };
    let whole = dec_nat((a / 1000) as nat);
    let body = if a % 1000 == 0 {
        whole
    } else {
        whole + "."@ + frac_text((a % 1000) as nat)
    };
    if r < 0 {
        "-"@ + body
    } else {
        body
    }
}

fn digit(d: u64) -> (c: char)
    requires
        d < 10,
    ensures
        c == digit_char(d as nat),
{
    ((d as u8) + 48) as char
}

/// Writes a value in thousandths as a decimal.
pub fn milli_string(r: i32) -> (v: Vec<char>)
    ensures
        v@ == milli_text(r as int),
{
    proof {
        reveal_strlit("-");
        reveal_strlit(".");
    }
    let a: u64 = if r < 0 {
        (-(r as i64)) as u64
    } else {
        r as u64
    };
    let mut v: Vec<char> = Vec::new();
    if r < 0 {
        v.push('-');
    }
    let whole = dec_u64(a / 1000);
    append_chars(&mut v, &whole);
    let f = a % 1000;
    if f != 0 {
        v.push('.');
        v.push(digit(f / 100));
        if f % 100 != 0 {
            v.push(digit((f / 10) % 10));
            if f % 10 != 0 {
                v.push(digit(f % 10));
            }
        }
    }
    proof {
        let ghost body = if a % 1000 == 0 {
            dec_nat((a / 1000) as nat)
        } else {
            dec_nat((a / 1000) as nat) + "."@ + frac_text((a % 1000) as nat)
        };
        if r < 0 {
            assert(v@ =~= "-"@ + body);
        } else {
            assert(v@ =~= body);
        }
    }
    v
}

pub open spec fn text_slot(s: Seq<Seq<char>>, x: Seq<char>, i: int) -> int
    decreases s.len() - i,
{
    if i >= s.len() || i < 0 || seq_lt(x, s[i]) {
        if i < 0 {
            s.len() as int
        } else {
            i
        }
    } else {
        text_slot(s, x, i + 1)
    }
}

/// Texts in ascending order.
pub open spec fn sort_texts(s: Seq<Seq<char>>) -> Seq<Seq<char>>
    decreases s.len(),
{
    if s.len() == 0 {
        Seq::empty()
    } else {
        let r = sort_texts(s.drop_last());
        r.insert(text_slot(r, s.last(), 0), s.last())
    }
}

proof fn lemma_text_slot_bounds(s: Seq<Seq<char>>, x: Seq<char>, i: int)
    requires
        0 <= i <= s.len(),
    ensures
        i <= text_slot(s, x, i) <= s.len(),
    decreases s.len() - i,
{
    if i < s.len() && !seq_lt(x, s[i]) {
        lemma_text_slot_bounds(s, x, i + 1);
    }
}

/// The texts of `v`, sorted.
fn sorted_texts(v: &Vec<Vec<char>>) -> (out: Vec<Vec<char>>)
    ensures
        out@.map_values(|t: Vec<char>| t@) == sort_texts(v@.map_values(|t: Vec<char>| t@)),
{
    let ghost vs = v@.map_values(|t: Vec<char>| t@);
    let mut out: Vec<Vec<char>> = Vec::new();
    let mut i: usize = 0;
    while i < v.len()
        invariant
            i <= v.len(),
            vs == v@.map_values(|t: Vec<char>| t@),
            out@.map_values(|t: Vec<char>| t@) == sort_texts(vs.take(i as int)),
        decreases v.len() - i,
    {
        let ghost r = sort_texts(vs.take(i as int));
        assert(vs.take(i + 1).drop_last() =~= vs.take(i as int));
        assert(vs.take(i + 1).last() == v@[i as int]@);
        let mut p: usize = 0;
        while p < out.len() && !seq_less(&v[i], &out[p])
            invariant
                p <= out.len(),
                i < v.len(),
                out@.map_values(|t: Vec<char>| t@) == r,
                text_slot(r, v@[i as int]@, 0) == text_slot(r, v@[i as int]@, p as int),
            decreases out.len() - p,
        {
            assert(r[p as int] == out@[p as int]@);
            p += 1;
        }
        proof {
            if p < out.len() {
                assert(r[p as int] == out@[p as int]@);
            }
            lemma_text_slot_bounds(r, v@[i as int]@, 0);
        }
        let ghost before = out@;
        out.insert(p, v[i].clone());
        assert(out@.map_values(|t: Vec<char>| t@) =~= r.insert(p as int, v@[i as int]@)) by {
            assert forall|q: int| 0 <= q < out@.len() implies out@.map_values(|t: Vec<char>| t@)[q] == r.insert(p as int, v@[i as int]@)[q] by {
                if q < p {
                    assert(out@[q] == before[q]);
                } else if q > p {
                    assert(out@[q] == before[q - 1]);
                }
            }
        }
        i += 1;
    }
    assert(vs.take(v.len() as int) =~= vs);
    out
}

/// What rows are ordered by: an id (the TMDB id, or a stand-in when there
/// is none), the title, then the year (`None` first).
pub open spec fn row_before(a: (int, Seq<char>, Option<i32>), b: (int, Seq<char>, Option<i32>)) -> bool {
    a.0 < b.0 || (a.0 == b.0 && (seq_lt(a.1, b.1) || (a.1 == b.1 && match (a.2, b.2) {
        (None, Some(_)) => true,
        (Some(x), Some(y)) => x < y,
        _ => false,
    })))
}

pub open spec fn row_slot(rows: Seq<(int, Seq<char>, Option<i32>)>, order: Seq<int>, x: int, i: int) -> int
    decreases order.len() - i,
{
    if i >= order.len() || i < 0 || row_before(rows[x], rows[order[i]]) {
        if i < 0 {
            order.len() as int
        } else {
            i
        }
    } else {
        row_slot(rows, order, x, i + 1)
    }
}

/// The indices below `n` whose `keep` is set, stably sorted by their rows.
pub open spec fn row_order(rows: Seq<(int, Seq<char>, Option<i32>)>, keep: Seq<bool>, n: int) -> Seq<int>
    decreases n,
{
    if n <= 0 {
        Seq::empty()
    } else {
        let r = row_order(rows, keep, n - 1);
        if keep[n - 1] {
            r.insert(row_slot(rows, r, n - 1, 0), n - 1)
        } else {
            r
        }
    }
}

proof fn lemma_row_slot_bounds(rows: Seq<(int, Seq<char>, Option<i32>)>, order: Seq<int>, x: int, i: int)
    requires
        0 <= i <= order.len(),
    ensures
        i <= row_slot(rows, order, x, i) <= order.len(),
    decreases order.len() - i,
{
    if i < order.len() && !row_before(rows[x], rows[order[i]]) {
        lemma_row_slot_bounds(rows, order, x, i + 1);
    }
}

proof fn lemma_row_order_bounds(rows: Seq<(int, Seq<char>, Option<i32>)>, keep: Seq<bool>, n: int)
    requires
        0 <= n,
    ensures
        forall|k: int| 0 <= k < row_order(rows, keep, n).len() ==> 0 <= #[trigger] row_order(rows, keep, n)[k] < n,
    decreases n,
{
    if n > 0 {
        lemma_row_order_bounds(rows, keep, n - 1);
        let r = row_order(rows, keep, n - 1);
        if keep[n - 1] {
            lemma_row_slot_bounds(rows, r, n - 1, 0);
            let p = row_slot(rows, r, n - 1, 0);
            let t = r.insert(p, n - 1);
            assert forall|k: int| 0 <= k < t.len() implies 0 <= #[trigger] t[k] < n by {
                if k < p {
                    assert(t[k] == r[k]);
                } else if k > p {
                    assert(t[k] == r[k - 1]);
                }
            }
        }
    }
}

fn row_first(a: &(i64, Vec<char>, Option<i32>), b: &(i64, Vec<char>, Option<i32>)) -> (r: bool)
    ensures
        r == row_before((a.0 as int, a.1@, a.2), (b.0 as int, b.1@, b.2)),
{
    if a.0 != b.0 {
        return a.0 < b.0;
    }
    if seq_less(&a.1, &b.1) {
        return true;
    }
    if !seq_eq(&a.1, &b.1) {
        return false;
    }
    match (a.2, b.2) {
        (None, Some(_)) => true,
        (Some(x), Some(y)) => x < y,
        _ => false,
    }
}

pub open spec fn row_views(rows: Seq<(i64, Vec<char>, Option<i32>)>) -> Seq<(int, Seq<char>, Option<i32>)> {
    rows.map_values(|r: (i64, Vec<char>, Option<i32>)| (r.0 as int, r.1@, r.2))
}

/// The indices of the kept rows, stably sorted.
fn ordered_rows(rows: &Vec<(i64, Vec<char>, Option<i32>)>, keep: &Vec<bool>) -> (order: Vec<usize>)
    requires
        keep.len() == rows.len(),
    ensures
        order@.map_values(|i: usize| i as int) == row_order(row_views(rows@), keep@, rows.len() as int),
        forall|k: int| 0 <= k < order@.len() ==> #[trigger] order@[k] < rows.len(),
{
    let ghost rv = row_views(rows@);
    let mut order: Vec<usize> = Vec::new();
    let mut n: usize = 0;
    while n < rows.len()
        invariant
            n <= rows.len(),
            keep.len() == rows.len(),
            rv == row_views(rows@),
            order@.map_values(|i: usize| i as int) == row_order(rv, keep@, n as int),
            forall|k: int| 0 <= k < order@.len() ==> #[trigger] order@[k] < n,
        decreases rows.len() - n,
    {
        if keep[n] {
            let ghost r = row_order(rv, keep@, n as int);
            let mut p: usize = 0;
            while p < order.len() && !row_first(&rows[n], &rows[order[p]])
                invariant
                    p <= order.len(),
                    n < rows.len(),
                    rv == row_views(rows@),
                    order@.map_values(|i: usize| i as int) == r,
                    forall|k: int| 0 <= k < order@.len() ==> #[trigger] order@[k] < n,
                    row_slot(rv, r, n as int, 0) == row_slot(rv, r, n as int, p as int),
                decreases order.len() - p,
            {
                assert(r[p as int] == order@[p as int] as int);
                p += 1;
            }
            proof {
                if p < order.len() {
                    assert(r[p as int] == order@[p as int] as int);
                }
                lemma_row_slot_bounds(rv, r, n as int, 0);
            }
            let ghost before = order@;
            order.insert(p, n);
            assert(order@.map_values(|i: usize| i as int) =~= r.insert(p as int, n as int));
            assert forall|k: int| 0 <= k < order@.len() implies #[trigger] order@[k] < n + 1 by {
                if k < p {
                    assert(order@[k] == before[k]);
                } else if k > p {
                    assert(order@[k] == before[k - 1]);
                }
            }
        }
        n += 1;
    }
    order
}


pub open spec fn credit_texts(cs: Seq<Credit>) -> Seq<Seq<char>> {
    cs.map_values(|c: Credit| c.job@ + ":"@ + c.name@)
}

pub open spec fn keyword_texts(ks: Seq<Keyword>) -> Seq<Seq<char>> {
    ks.map_values(|k: Keyword| k.name@)
}

/// A film's credits (`job:name`) and keywords, each sorted and joined by
/// commas, separated by `|`.
pub open spec fn credit_sig_spec(f: FilmRecord) -> Seq<char> {
    join(sort_texts(credit_texts(f.credits@)), ","@) + "|"@ + join(
        sort_texts(keyword_texts(f.keywords@)),
        ","@,
    )
}

pub open spec fn review_text(r: Option<String>) -> Seq<char> {
    match r {
        Some(t) => t@,
        None => Seq::empty(),
    }
}

pub open spec fn id_or(o: Option<i64>, d: int) -> int {
    match o {
        Some(i) => i as int,
        None => d,
    }
}

pub open spec fn film_rows(films: Seq<FilmRecord>) -> Seq<(int, Seq<char>, Option<i32>)> {
    films.map_values(|f: FilmRecord| (id_or(f.tmdb_id, 0), f.title@, f.year))
}

fn credit_text_list(cs: &Vec<Credit>) -> (out: Vec<Vec<char>>)
    ensures
        out@.map_values(|t: Vec<char>| t@) == credit_texts(cs@),
{
    let mut out: Vec<Vec<char>> = Vec::new();
    let mut i: usize = 0;
    while i < cs.len()
        invariant
            i <= cs.len(),
            out@.len() == i,
            out@.map_values(|t: Vec<char>| t@) == credit_texts(cs@.take(i as int)),
        decreases cs.len() - i,
    {
        let mut t = chars_of(cs[i].job.as_str());
        append_str(&mut t, ":");
        append_str(&mut t, cs[i].name.as_str());
        let ghost before = out@;
        out.push(t);
        assert forall|q: int| 0 <= q < i + 1 implies out@.map_values(|t: Vec<char>| t@)[q] == #[trigger] credit_texts(cs@.take(i + 1))[q] by {
            if q < i {
                assert(out@[q] == before[q]);
                assert(before.map_values(|t: Vec<char>| t@)[q] == credit_texts(cs@.take(i as int))[q]);
            }
        }
        assert(out@.map_values(|t: Vec<char>| t@) =~= credit_texts(cs@.take(i + 1)));
        i += 1;
    }
    assert(cs@.take(cs.len() as int) =~= cs@);
    out
}

fn keyword_text_list(ks: &Vec<Keyword>) -> (out: Vec<Vec<char>>)
    ensures
        out@.map_values(|t: Vec<char>| t@) == keyword_texts(ks@),
{
    let mut out: Vec<Vec<char>> = Vec::new();
    let mut i: usize = 0;
    while i < ks.len()
        invariant
            i <= ks.len(),
            out@.len() == i,
            out@.map_values(|t: Vec<char>| t@) == keyword_texts(ks@.take(i as int)),
        decreases ks.len() - i,
    {
        let ghost before = out@;
        out.push(chars_of(ks[i].name.as_str()));
        assert forall|q: int| 0 <= q < i + 1 implies out@.map_values(|t: Vec<char>| t@)[q] == #[trigger] keyword_texts(ks@.take(i + 1))[q] by {
            if q < i {
                assert(out@[q] == before[q]);
                assert(before.map_values(|t: Vec<char>| t@)[q] == keyword_texts(ks@.take(i as int))[q]);
            }
        }
        assert(out@.map_values(|t: Vec<char>| t@) =~= keyword_texts(ks@.take(i + 1)));
        i += 1;
    }
    assert(ks@.take(ks.len() as int) =~= ks@);
    out
}

/// The credits-and-keywords signature of a film.
pub fn credit_sig(f: &FilmRecord) -> (s: Vec<char>)
    ensures
        s@ == credit_sig_spec(*f),
{
    let credits = sorted_texts(&credit_text_list(&f.credits));
    let keywords = sorted_texts(&keyword_text_list(&f.keywords));
    let mut s = join_parts(&credits, ",");
    append_str(&mut s, "|");
    let k = join_parts(&keywords, ",");
    append_chars(&mut s, &k);
    s
}

fn append_review(v: &mut Vec<char>, r: &Option<String>)
    ensures
        final(v)@ == old(v)@ + review_text(*r),
{
    match r {
        Some(t) => append_str(v, t.as_str()),
        None => {
            assert(old(v)@ + review_text(*r) =~= old(v)@);
        },
    }
}

fn film_row_list(films: &[FilmRecord], rated_only: bool) -> (r: (Vec<(i64, Vec<char>, Option<i32>)>, Vec<bool>))
    ensures
        row_views(r.0@) == film_rows(films@),
        r.1@ == films@.map_values(|f: FilmRecord| !rated_only || f.rating.is_some()),
        r.0.len() == films.len(),
        r.1.len() == films.len(),
{
    let mut rows: Vec<(i64, Vec<char>, Option<i32>)> = Vec::new();
    let mut keep: Vec<bool> = Vec::new();
    let mut i: usize = 0;
    while i < films.len()
        invariant
            i <= films.len(),
            rows@.len() == i,
            keep@.len() == i,
            row_views(rows@) == film_rows(films@.take(i as int)),
            keep@ == films@.take(i as int).map_values(|f: FilmRecord| !rated_only || f.rating.is_some()),
        decreases films.len() - i,
    {
        let f = &films[i];
        let id: i64 = match f.tmdb_id {
            Some(t) => t,
            None => 0,
        };
        let ghost before = rows@;
        rows.push((id, chars_of(f.title.as_str()), f.year));
        keep.push(!rated_only || f.rating.is_some());
        assert forall|q: int| 0 <= q < i + 1 implies row_views(rows@)[q] == #[trigger] film_rows(films@.take(i + 1))[q] by {
            if q < i {
                assert(rows@[q] == before[q]);
                assert(row_views(before)[q] == film_rows(films@.take(i as int))[q]);
            }
        }
        assert(row_views(rows@) =~= film_rows(films@.take(i + 1)));
        assert(keep@ =~= films@.take(i + 1).map_values(|f: FilmRecord| !rated_only || f.rating.is_some()));
        i += 1;
    }
    assert(films@.take(films.len() as int) =~= films@);
    (rows, keep)
}

/// One rated film in the profile fingerprint: TMDB id (0 without one),
/// rating, credit signature and review.
pub open spec fn profile_part(f: FilmRecord) -> Seq<char> {
    dec_int(id_or(f.tmdb_id, 0)) + ":"@ + milli_text(
        match f.rating {
            Some(r) => r as int,
            None => 0,
        },
    ) + ":"@ + credit_sig_spec(f) + ":review:"@ + review_text(f.review)
}

pub open spec fn rated_flags(films: Seq<FilmRecord>) -> Seq<bool> {
    films.map_values(|f: FilmRecord| f.rating.is_some())
}

pub open spec fn all_flags(films: Seq<FilmRecord>) -> Seq<bool> {
    films.map_values(|f: FilmRecord| true)
}

/// What the viewer's taste is computed from: the algorithm version, then
/// every rated film in id, title and year order.
pub open spec fn profile_fingerprint_spec(version: Seq<char>, films: Seq<FilmRecord>) -> Seq<char> {
    fingerprint_of(
        seq![version] + row_order(film_rows(films), rated_flags(films), films.len() as int).map_values(
            |i: int| profile_part(films[i]),
        ),
    )
}

/// The fingerprint of the rated films a profile is built from.
pub fn profile_fingerprint(algorithm_version: &str, films: &[FilmRecord]) -> (f: String)
    ensures
        f@ == profile_fingerprint_spec(algorithm_version@, films@),
{
    let (rows, keep) = film_row_list(films, true);
    assert(keep@ =~= rated_flags(films@));
    let order = ordered_rows(&rows, &keep);
    let ghost ord = order@.map_values(|i: usize| i as int);
    let mut parts: Vec<String> = Vec::new();
    parts.push(owned(algorithm_version));
    let mut k: usize = 0;
    while k < order.len()
        invariant
            k <= order.len(),
            rows.len() == films.len(),
            forall|q: int| 0 <= q < order@.len() ==> #[trigger] order@[q] < rows.len(),
            ord == order@.map_values(|i: usize| i as int),
            views_of(parts@) == seq![algorithm_version@] + ord.take(k as int).map_values(|i: int| profile_part(films@[i])),
        decreases order.len() - k,
    {
        let f = &films[order[k]];
        let mut p = dec_i64(match f.tmdb_id {
            Some(t) => t,
            None => 0,
        });
        append_str(&mut p, ":");
        let r = milli_string(match f.rating {
            Some(r) => r,
            None => 0,
        });
        append_chars(&mut p, &r);
        append_str(&mut p, ":");
        let sig = credit_sig(f);
        append_chars(&mut p, &sig);
        append_str(&mut p, ":review:");
        append_review(&mut p, &f.review);
        let ghost before = parts@;
        parts.push(string_of(&p));
        proof {
            assert(ord[k as int] == order@[k as int] as int);
            assert(p@ == profile_part(films@[ord[k as int]]));
            assert(ord.take(k + 1).map_values(|i: int| profile_part(films@[i])) =~= ord.take(k as int).map_values(
                |i: int| profile_part(films@[i]),
            ).push(profile_part(films@[ord[k as int]])));
            assert(views_of(parts@) =~= views_of(before).push(p@));
        }
        k += 1;
    }
    assert(ord.take(order.len() as int) =~= ord);
    hash_parts(parts.as_slice())
}

pub open spec fn bit(b: bool) -> Seq<char> {
    if b {
        "1"@
    } else {
        "0"@
    }
}

/// One film in the library fingerprint: TMDB id (0 without one), the
/// watched, watchlist and rated flags, and the review.
pub open spec fn library_part(f: FilmRecord) -> Seq<char> {
    dec_int(id_or(f.tmdb_id, 0)) + ":w"@ + bit(f.watched) + ":l"@ + bit(f.watchlist) + ":r"@ + bit(
        f.rating.is_some(),
    ) + ":review:"@ + review_text(f.review)
}

/// What the library looks like: every film in id, title and year order,
/// then the friends' record keys sorted.
pub open spec fn library_fingerprint_spec(films: Seq<FilmRecord>, friends: Seq<Seq<char>>) -> Seq<char> {
    fingerprint_of(
        row_order(film_rows(films), all_flags(films), films.len() as int).map_values(
            |i: int| library_part(films[i]),
        ) + sort_texts(friends),
    )
}

fn bit_str(b: bool) -> (s: &'static str)
    ensures
        s@ == bit(b),
{
    if b {
        "1"
    } else {
        "0"
    }
}

/// The fingerprint of the library's films and the friends' records.
pub fn library_state_fingerprint(films: &[FilmRecord], friend_keys: &[String]) -> (f: String)
    ensures
        f@ == library_fingerprint_spec(films@, views_of(friend_keys@)),
{
    let (rows, keep) = film_row_list(films, false);
    assert(keep@ =~= all_flags(films@));
    let order = ordered_rows(&rows, &keep);
    let ghost ord = order@.map_values(|i: usize| i as int);
    let mut parts: Vec<String> = Vec::new();
    let mut k: usize = 0;
    while k < order.len()
        invariant
            k <= order.len(),
            rows.len() == films.len(),
            forall|q: int| 0 <= q < order@.len() ==> #[trigger] order@[q] < rows.len(),
            ord == order@.map_values(|i: usize| i as int),
            views_of(parts@) == ord.take(k as int).map_values(|i: int| library_part(films@[i])),
        decreases order.len() - k,
    {
        let f = &films[order[k]];
        let mut p = dec_i64(match f.tmdb_id {
            Some(t) => t,
            None => 0,
        });
        append_str(&mut p, ":w");
        append_str(&mut p, bit_str(f.watched));
        append_str(&mut p, ":l");
        append_str(&mut p, bit_str(f.watchlist));
        append_str(&mut p, ":r");
        append_str(&mut p, bit_str(f.rating.is_some()));
        append_str(&mut p, ":review:");
        append_review(&mut p, &f.review);
        let ghost before = parts@;
        parts.push(string_of(&p));
        proof {
            assert(ord[k as int] == order@[k as int] as int);
            assert(ord.take(k + 1).map_values(|i: int| library_part(films@[i])) =~= ord.take(k as int).map_values(
                |i: int| library_part(films@[i]),
            ).push(library_part(films@[ord[k as int]])));
            assert(views_of(parts@) =~= views_of(before).push(p@));
        }
        k += 1;
    }
    assert(ord.take(order.len() as int) =~= ord);
    let mut friends: Vec<Vec<char>> = Vec::new();
    let mut j: usize = 0;
    while j < friend_keys.len()
        invariant
            j <= friend_keys.len(),
            friends@.len() == j,
            friends@.map_values(|t: Vec<char>| t@) == views_of(friend_keys@.take(j as int)),
        decreases friend_keys.len() - j,
    {
        let ghost before = friends@;
        friends.push(chars_of(friend_keys[j].as_str()));
        assert forall|q: int| 0 <= q < j + 1 implies friends@.map_values(|t: Vec<char>| t@)[q] == #[trigger] views_of(friend_keys@.take(j + 1))[q] by {
            if q < j {
                assert(friends@[q] == before[q]);
                assert(before.map_values(|t: Vec<char>| t@)[q] == views_of(friend_keys@.take(j as int))[q]);
            }
        }
        assert(friends@.map_values(|t: Vec<char>| t@) =~= views_of(friend_keys@.take(j + 1)));
        j += 1;
    }
    assert(friend_keys@.take(friend_keys.len() as int) =~= friend_keys@);
    let sorted = sorted_texts(&friends);
    let ghost head = views_of(parts@);
    let mut q: usize = 0;
    while q < sorted.len()
        invariant
            q <= sorted.len(),
            parts@.len() == head.len() + q,
            views_of(parts@) == head + sorted@.map_values(|t: Vec<char>| t@).take(q as int),
        decreases sorted.len() - q,
    {
        let ghost before = parts@;
        parts.push(string_of(&sorted[q]));
        assert(views_of(parts@) =~= views_of(before).push(sorted@[q as int]@));
        assert(sorted@.map_values(|t: Vec<char>| t@).take(q + 1) =~= sorted@.map_values(|t: Vec<char>| t@).take(q as int).push(sorted@[q as int]@));
        assert(views_of(parts@) =~= head + sorted@.map_values(|t: Vec<char>| t@).take(q + 1));
        q += 1;
    }
    assert(sorted@.map_values(|t: Vec<char>| t@).take(sorted.len() as int) =~= sorted@.map_values(
        |t: Vec<char>| t@,
    ));
    hash_parts(parts.as_slice())
}


pub open spec fn kind_debug(k: RetrievalKind) -> Seq<char> {
    match k {
        RetrievalKind::Related => "Related"@,
        RetrievalKind::RelatedRecommendations => "RelatedRecommendations"@,
        RetrievalKind::RelatedSimilar => "RelatedSimilar"@,
        RetrievalKind::Filmography => "Filmography"@,
        RetrievalKind::Friend => "Friend"@,
        RetrievalKind::Watchlist => "Watchlist"@,
        RetrievalKind::Exploration => "Exploration"@,
        RetrievalKind::Discovery => "Discovery"@,
    }
}

fn kind_debug_str(k: RetrievalKind) -> (s: &'static str)
    ensures
        s@ == kind_debug(k),
{
    match k {
        RetrievalKind::Related => "Related",
        RetrievalKind::RelatedRecommendations => "RelatedRecommendations",
        RetrievalKind::RelatedSimilar => "RelatedSimilar",
        RetrievalKind::Filmography => "Filmography",
        RetrievalKind::Friend => "Friend",
        RetrievalKind::Watchlist => "Watchlist",
        RetrievalKind::Exploration => "Exploration",
        RetrievalKind::Discovery => "Discovery",
    }
}

pub open spec fn media_debug(k: MediaKind) -> Seq<char> {
    match k {
        MediaKind::Movie => "Movie"@,
        MediaKind::TvSeries => "TvSeries"@,
        MediaKind::TvEpisode => "TvEpisode"@,
        MediaKind::TvSpecial => "TvSpecial"@,
        MediaKind::Short => "Short"@,
        MediaKind::Other => "Other"@,
        MediaKind::Ambiguous => "Ambiguous"@,
    }
}

fn media_debug_str(k: MediaKind) -> (s: &'static str)
    ensures
        s@ == media_debug(k),
{
    match k {
        MediaKind::Movie => "Movie",
        MediaKind::TvSeries => "TvSeries",
        MediaKind::TvEpisode => "TvEpisode",
        MediaKind::TvSpecial => "TvSpecial",
        MediaKind::Short => "Short",
        MediaKind::Other => "Other",
        MediaKind::Ambiguous => "Ambiguous",
    }
}

pub open spec fn source_texts(s: Seq<RetrievalSource>) -> Seq<Seq<char>> {
    s.map_values(|x: RetrievalSource| kind_debug(x.kind) + ":"@ + x.label@)
}

pub open spec fn bool_text(b: bool) -> Seq<char> {
    if b {
        "true"@
    } else {
        "false"@
    }
}

/// One candidate in the candidate fingerprint: TMDB id (0 without one),
/// credits, keywords and sources in order, the watchlist flag, the friend
/// affinity and TMDB relation (thousandths), media kind, runtime and vote
/// count (0 when missing), joined by `|`.
pub open spec fn candidate_part(c: Candidate) -> Seq<char> {
    dec_int(id_or(c.tmdb_id, 0)) + "|"@ + join(credit_texts(c.credits@), ","@) + "|"@ + join(
        keyword_texts(c.keywords@),
        ","@,
    ) + "|"@ + join(source_texts(c.sources@), ","@) + "|"@ + bool_text(c.watchlist) + "|"@
        + dec_int(c.friend_affinity as int) + "|"@ + dec_int(c.tmdb_related as int) + "|"@
        + media_debug(c.media_kind) + "|"@ + dec_int(
        match c.runtime {
            Some(r) => r as int,
            None => 0,
        },
    ) + "|"@ + dec_int(
        match c.vote_count {
            Some(v) => v as int,
            None => 0,
        },
    )
}

pub open spec fn candidate_rows(cs: Seq<Candidate>) -> Seq<(int, Seq<char>, Option<i32>)> {
    cs.map_values(|c: Candidate| (id_or(c.tmdb_id, i64::MAX as int), c.title@, c.year))
}

/// What the pool is: every candidate in id (untracked last), title and year
/// order.
pub open spec fn candidate_fingerprint_spec(cs: Seq<Candidate>) -> Seq<char> {
    fingerprint_of(
        row_order(candidate_rows(cs), cs.map_values(|c: Candidate| true), cs.len() as int).map_values(
            |i: int| candidate_part(cs[i]),
        ),
    )
}

fn source_text_list(s: &Vec<RetrievalSource>) -> (out: Vec<Vec<char>>)
    ensures
        out@.map_values(|t: Vec<char>| t@) == source_texts(s@),
{
    let mut out: Vec<Vec<char>> = Vec::new();
    let mut i: usize = 0;
    while i < s.len()
        invariant
            i <= s.len(),
            out@.len() == i,
            out@.map_values(|t: Vec<char>| t@) == source_texts(s@.take(i as int)),
        decreases s.len() - i,
    {
        let mut t = chars_of(kind_debug_str(s[i].kind));
        append_str(&mut t, ":");
        append_str(&mut t, s[i].label.as_str());
        let ghost before = out@;
        out.push(t);
        assert forall|q: int| 0 <= q < i + 1 implies out@.map_values(|t: Vec<char>| t@)[q] == #[trigger] source_texts(s@.take(i + 1))[q] by {
            if q < i {
                assert(out@[q] == before[q]);
                assert(before.map_values(|t: Vec<char>| t@)[q] == source_texts(s@.take(i as int))[q]);
            }
        }
        assert(out@.map_values(|t: Vec<char>| t@) =~= source_texts(s@.take(i + 1)));
        i += 1;
    }
    assert(s@.take(s.len() as int) =~= s@);
    out
}

fn candidate_part_text(c: &Candidate) -> (p: Vec<char>)
    ensures
        p@ == candidate_part(*c),
{
    let mut p = dec_i64(match c.tmdb_id {
        Some(t) => t,
        None => 0,
    });
    append_str(&mut p, "|");
    append_chars(&mut p, &join_parts(&credit_text_list(&c.credits), ","));
    append_str(&mut p, "|");
    append_chars(&mut p, &join_parts(&keyword_text_list(&c.keywords), ","));
    append_str(&mut p, "|");
    append_chars(&mut p, &join_parts(&source_text_list(&c.sources), ","));
    append_str(&mut p, "|");
    append_str(&mut p, if c.watchlist {
        "true"
    } else {
        "false"
    });
    append_str(&mut p, "|");
    append_chars(&mut p, &dec_i64(c.friend_affinity as i64));
    append_str(&mut p, "|");
    append_chars(&mut p, &dec_i64(c.tmdb_related as i64));
    append_str(&mut p, "|");
    append_str(&mut p, media_debug_str(c.media_kind));
    append_str(&mut p, "|");
    append_chars(&mut p, &dec_i64(match c.runtime {
        Some(r) => r as i64,
        None => 0,
    }));
    append_str(&mut p, "|");
    append_chars(&mut p, &dec_i64(match c.vote_count {
        Some(v) => v,
        None => 0,
    }));
    p
}

/// The fingerprint of the retrieved candidates a run scored.
pub fn candidate_input_fingerprint(cands: &[Candidate]) -> (f: String)
    ensures
        f@ == candidate_fingerprint_spec(cands@),
{
    let mut rows: Vec<(i64, Vec<char>, Option<i32>)> = Vec::new();
    let mut keep: Vec<bool> = Vec::new();
    let mut i: usize = 0;
    while i < cands.len()
        invariant
            i <= cands.len(),
            rows@.len() == i,
            keep@.len() == i,
            row_views(rows@) == candidate_rows(cands@.take(i as int)),
            keep@ == cands@.take(i as int).map_values(|c: Candidate| true),
        decreases cands.len() - i,
    {
        let c = &cands[i];
        let id: i64 = match c.tmdb_id {
            Some(t) => t,
            None => i64::MAX,
        };
        let ghost before = rows@;
        rows.push((id, chars_of(c.title.as_str()), c.year));
        keep.push(true);
        assert forall|q: int| 0 <= q < i + 1 implies row_views(rows@)[q] == #[trigger] candidate_rows(cands@.take(i + 1))[q] by {
            if q < i {
                assert(rows@[q] == before[q]);
                assert(row_views(before)[q] == candidate_rows(cands@.take(i as int))[q]);
            }
        }
        assert(row_views(rows@) =~= candidate_rows(cands@.take(i + 1)));
        assert(keep@ =~= cands@.take(i + 1).map_values(|c: Candidate| true));
        i += 1;
    }
    assert(cands@.take(cands.len() as int) =~= cands@);
    let order = ordered_rows(&rows, &keep);
    let ghost ord = order@.map_values(|i: usize| i as int);
    let mut parts: Vec<String> = Vec::new();
    let mut k: usize = 0;
    while k < order.len()
        invariant
            k <= order.len(),
            rows.len() == cands.len(),
            forall|q: int| 0 <= q < order@.len() ==> #[trigger] order@[q] < rows.len(),
            ord == order@.map_values(|i: usize| i as int),
            views_of(parts@) == ord.take(k as int).map_values(|i: int| candidate_part(cands@[i])),
        decreases order.len() - k,
    {
        let p = candidate_part_text(&cands[order[k]]);
        let ghost before = parts@;
        parts.push(string_of(&p));
        proof {
            assert(ord[k as int] == order@[k as int] as int);
            assert(ord.take(k + 1).map_values(|i: int| candidate_part(cands@[i])) =~= ord.take(k as int).map_values(
                |i: int| candidate_part(cands@[i]),
            ).push(candidate_part(cands@[ord[k as int]])));
            assert(views_of(parts@) =~= views_of(before).push(p@));
        }
        k += 1;
    }
    assert(ord.take(order.len() as int) =~= ord);
    hash_parts(parts.as_slice())
}


/// Rows go by id, smaller first, whatever their titles and years.
pub proof fn lemma_smaller_id_row_first(a: (int, Seq<char>, Option<i32>), b: (int, Seq<char>, Option<i32>))
    requires
        a.0 < b.0,
    ensures
        row_before(a, b),
        !row_before(b, a),
{
}

} // verus!
