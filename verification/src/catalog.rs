//! Reading the catalog's stored JSON: a film's credits (from TMDB's credits
//! object, or from the older crew and cast name lists), its keywords and
//! its string lists.
use vstd::prelude::*;
use crate::features::{strs, Credit, Keyword};
use crate::gather::{credit_views, keyword_views};
use crate::retrieve::Candidate;
use crate::pool::RelatedItem;
use crate::pool::opt_text;
use crate::text::{
    chars_of, first_segment, first_segment_of, matches_at, occurs_at, slice_chars, string_of,
    trim, trim_chars,
};

verus! {

/// Cast members read from a credits list.
pub const CAST_LIMIT: usize = 8;

// ---------------------------------------------------------------------------
// What serde_json reads
// ---------------------------------------------------------------------------

/// The entries serde_json reads from the array under `field` of a JSON
/// text: each entry's `id`, `name` and `job`.
pub uninterp spec fn json_entries(raw: Seq<char>, field: Seq<char>) -> Option<
    Seq<(Option<i64>, Option<Seq<char>>, Option<Seq<char>>)>,
>;

/// The entries serde_json reads from a JSON array text: each entry's `id`
/// and `name`.
pub uninterp spec fn json_list_entries(raw: Seq<char>) -> Option<Seq<(Option<i64>, Option<Seq<char>>)>>;

/// The strings serde_json reads from a JSON array-of-strings text.
pub uninterp spec fn json_string_list(raw: Seq<char>) -> Option<Seq<Seq<char>>>;

pub open spec fn entry_views(v: Seq<(Option<i64>, Option<String>, Option<String>)>) -> Seq<
    (Option<i64>, Option<Seq<char>>, Option<Seq<char>>),
> {
    v.map_values(
        |e: (Option<i64>, Option<String>, Option<String>)| (e.0, opt_text(e.1), opt_text(e.2)),
    )
}

pub open spec fn pair_views(v: Seq<(Option<i64>, Option<String>)>) -> Seq<(Option<i64>, Option<Seq<char>>)> {
    v.map_values(|e: (Option<i64>, Option<String>)| (e.0, opt_text(e.1)))
}

/// serde_json `from_str::<Value>` on the text, then each element of the
/// array under `field` (none when there is no array there) read as its
/// `id` (`Value::as_i64`), `name` and `job` (`Value::as_str`). `None`
/// exactly when the text does not parse. The result depends on the text
/// and the field alone.
#[verifier::external_body]
fn read_entries(raw: &str, field: &str) -> (r: Option<Vec<(Option<i64>, Option<String>, Option<String>)>>)
    ensures
        match r {
            None => json_entries(raw@, field@) is None,
            Some(v) => json_entries(raw@, field@) == Some(entry_views(v@)),
        },
{
    let v: serde_json::Value = match serde_json::from_str(raw) {
        Ok(v) => v,
        Err(_) => return None,
    };
    let items: Vec<serde_json::Value> = match v[field].as_array() {
        Some(a) => a.clone(),
        None => Vec::new(),
    };
    Some(items.iter().map(|c| (c["id"].as_i64(), c["name"].as_str().map(String::from), c["job"].as_str().map(String::from))).collect())
}

/// serde_json `from_str::<Vec<Value>>` on the text, each element read as
/// its `id` (`Value::as_i64`) and `name` (`Value::as_str`). `None` exactly
/// when the text is not a JSON array. The result depends on the text alone.
#[verifier::external_body]
fn read_list_entries(raw: &str) -> (r: Option<Vec<(Option<i64>, Option<String>)>>)
    ensures
        match r {
            None => json_list_entries(raw@) is None,
            Some(v) => json_list_entries(raw@) == Some(pair_views(v@)),
        },
{
    let items: Vec<serde_json::Value> = match serde_json::from_str(raw) {
        Ok(v) => v,
        Err(_) => return None,
    };
    Some(items.iter().map(|v| (v["id"].as_i64(), v["name"].as_str().map(String::from))).collect())
}

/// serde_json `from_str::<Vec<String>>` on the text; `None` exactly when it
/// is not a JSON array of strings. The result depends on the text alone.
#[verifier::external_body]
fn read_strings(raw: &str) -> (r: Option<Vec<String>>)
    ensures
        match r {
            None => json_string_list(raw@) is None,
            Some(v) => json_string_list(raw@) == Some(strs(v@)),
        },
{
    serde_json::from_str::<Vec<String>>(raw).ok()
}

/// The text serde_json reads from the string field `field` of a JSON
/// object text.
pub uninterp spec fn json_text_field(raw: Seq<char>, field: Seq<char>) -> Option<Seq<char>>;

/// serde_json `from_str::<Value>` on the text, then `Value::get(field)` and
/// `Value::as_str`: `None` when the text does not parse or has no string
/// under the field. The result depends on the text and field alone.
#[verifier::external_body]
pub(crate) fn read_text_field(raw: &str, field: &str) -> (r: Option<String>)
    ensures
        opt_text(r) == json_text_field(raw@, field@),
{
    let v: serde_json::Value = match serde_json::from_str(raw) {
        Ok(v) => v,
        Err(_) => return None,
    };
    match v.get(field) {
        Some(x) => x.as_str().map(String::from),
        None => None,
    }
}

// ---------------------------------------------------------------------------
// Credits from TMDB's credits object
// ---------------------------------------------------------------------------

pub open spec fn first_cast<A>(s: Seq<A>) -> Seq<A> {
    if s.len() > CAST_LIMIT {
        s.take(CAST_LIMIT as int)
    } else {
        s
    }
}

/// The crew entries that have a name, with their job (empty when missing).
pub open spec fn named_crew(e: Seq<(Option<i64>, Option<Seq<char>>, Option<Seq<char>>)>) -> Seq<
    (Option<i64>, Seq<char>, Seq<char>),
>
    decreases e.len(),
{
    if e.len() == 0 {
        Seq::empty()
    } else {
        let r = named_crew(e.drop_last());
        let x = e.last();
        match x.1 {
            Some(n) => r.push(
                (
                    x.0,
                    n,
                    match x.2 {
                        Some(j) => j,
                        None => Seq::empty(),
                    },
                ),
            ),
            None => r,
        }
    }
}

/// The cast entries that have a name, as actors.
pub open spec fn named_cast(e: Seq<(Option<i64>, Option<Seq<char>>, Option<Seq<char>>)>) -> Seq<
    (Option<i64>, Seq<char>, Seq<char>),
>
    decreases e.len(),
{
    if e.len() == 0 {
        Seq::empty()
    } else {
        let r = named_cast(e.drop_last());
        let x = e.last();
        match x.1 {
            Some(n) => r.push((x.0, n, "Actor"@)),
            None => r,
        }
    }
}

/// The credits of a credits object: the named crew, then the named of the
/// first eight cast entries.
pub open spec fn entry_credits(
    crew: Seq<(Option<i64>, Option<Seq<char>>, Option<Seq<char>>)>,
    cast: Seq<(Option<i64>, Option<Seq<char>>, Option<Seq<char>>)>,
) -> Seq<(Option<i64>, Seq<char>, Seq<char>)> {
    named_crew(crew) + named_cast(first_cast(cast))
}

fn text_of(s: &str) -> (r: String)
    ensures
        r@ == s@,
{
    string_of(&chars_of(s))
}

/// The credits of a credits object's crew and cast entries.
pub fn credits_from_entries(
    crew: &[(Option<i64>, Option<String>, Option<String>)],
    cast: &[(Option<i64>, Option<String>, Option<String>)],
) -> (out: Vec<Credit>)
    ensures
        credit_views(out@) == entry_credits(entry_views(crew@), entry_views(cast@)),
{
    let ghost cw = entry_views(crew@);
    let ghost ct = entry_views(cast@);
    let mut out: Vec<Credit> = Vec::new();
    let mut i: usize = 0;
    while i < crew.len()
        invariant
            i <= crew.len(),
            cw == entry_views(crew@),
            credit_views(out@) == named_crew(cw.take(i as int)),
        decreases crew.len() - i,
    {
        assert(cw.take(i + 1).drop_last() =~= cw.take(i as int));
        assert(cw.take(i + 1).last() == cw[i as int]);
        let ghost before = credit_views(out@);
        match &crew[i].1 {
            Some(name) => {
                let job = match &crew[i].2 {
                    Some(j) => j.clone(),
                    None => String::new(),
                };
                out.push(Credit { id: crew[i].0, name: name.clone(), job });
                assert(credit_views(out@) =~= before.push(
                    (
                        cw[i as int].0,
                        cw[i as int].1->0,
                        match cw[i as int].2 {
                            Some(j) => j,
                            None => Seq::empty(),
                        },
                    ),
                ));
            },
            None => {},
        }
        i += 1;
    }
    assert(cw.take(crew.len() as int) =~= cw);
    let ghost crew_part = credit_views(out@);
    let n = if cast.len() > CAST_LIMIT {
        CAST_LIMIT
    } else {
        cast.len()
    };
    let ghost fc = first_cast(ct);
    assert(fc =~= ct.take(n as int));
    let mut k: usize = 0;
    while k < n
        invariant
            k <= n <= cast.len(),
            ct == entry_views(cast@),
            fc == ct.take(n as int),
            credit_views(out@) == crew_part + named_cast(fc.take(k as int)),
        decreases n - k,
    {
        assert(fc.take(k + 1).drop_last() =~= fc.take(k as int));
        assert(fc.take(k + 1).last() == ct[k as int]);
        let ghost before = credit_views(out@);
        match &cast[k].1 {
            Some(name) => {
                out.push(Credit { id: cast[k].0, name: name.clone(), job: text_of("Actor") });
                assert(credit_views(out@) =~= before.push((ct[k as int].0, ct[k as int].1->0, "Actor"@)));
                assert(crew_part + named_cast(fc.take(k + 1)) =~= before.push(
                    (ct[k as int].0, ct[k as int].1->0, "Actor"@),
                ));
            },
            None => {
                assert(crew_part + named_cast(fc.take(k + 1)) =~= before);
            },
        }
        k += 1;
    }
    assert(fc.take(n as int) =~= fc);
    out
}

// ---------------------------------------------------------------------------
// Credits from name lists
// ---------------------------------------------------------------------------

/// The last position at or before `i` where `t` occurs in `s`, or -1.
pub open spec fn last_at(s: Seq<char>, t: Seq<char>, i: int) -> int
    decreases i + 1,
{
    if i < 0 {
        -1
    } else if occurs_at(s, t, i) {
        i
    } else {
        last_at(s, t, i - 1)
    }
}

/// `str::rfind`: the last position where `t` occurs in `s`, or -1.
pub open spec fn rfind(s: Seq<char>, t: Seq<char>) -> int {
    last_at(s, t, s.len() - t.len())
}

/// `trim_end_matches(')')`.
pub open spec fn strip_closers(s: Seq<char>) -> Seq<char>
    decreases s.len(),
{
    if s.len() > 0 && s.last() == ')' {
        strip_closers(s.drop_last())
    } else {
        s
    }
}

/// A crew line `"Name (Job)"`, split at its last `" ("`.
pub open spec fn crew_line(e: Seq<char>) -> Option<(Option<i64>, Seq<char>, Seq<char>)> {
    let k = rfind(e, " ("@);
    if k >= 0 {
        Some((None, e.subrange(0, k), strip_closers(e.subrange(k + 2, e.len() as int))))
    } else {
        None
    }
}

pub open spec fn crew_from_lines(ns: Seq<Seq<char>>) -> Seq<(Option<i64>, Seq<char>, Seq<char>)>
    decreases ns.len(),
{
    if ns.len() == 0 {
        Seq::empty()
    } else {
        let r = crew_from_lines(ns.drop_last());
        match crew_line(ns.last()) {
            Some(c) => r.push(c),
            None => r,
        }
    }
}

/// The actor of a cast line `"Name as Role"`: the trimmed text before the
/// first `" as "`.
pub open spec fn cast_line(e: Seq<char>) -> Seq<char> {
    trim(first_segment(e, " as "@))
}

pub open spec fn cast_from_lines(ns: Seq<Seq<char>>) -> Seq<(Option<i64>, Seq<char>, Seq<char>)>
    decreases ns.len(),
{
    if ns.len() == 0 {
        Seq::empty()
    } else {
        let r = cast_from_lines(ns.drop_last());
        if cast_line(ns.last()).len() > 0 {
            r.push((None, cast_line(ns.last()), "Actor"@))
        } else {
            r
        }
    }
}

/// The credits of the older name lists: each crew line with a job, then
/// the actors of the first eight cast lines.
pub open spec fn line_credits(crew: Seq<Seq<char>>, cast: Seq<Seq<char>>) -> Seq<
    (Option<i64>, Seq<char>, Seq<char>),
> {
    crew_from_lines(crew) + cast_from_lines(first_cast(cast))
}

proof fn lemma_last_at_bounds(s: Seq<char>, t: Seq<char>, i: int)
    ensures
        last_at(s, t, i) >= 0 ==> last_at(s, t, i) <= i && occurs_at(s, t, last_at(s, t, i)),
        last_at(s, t, i) >= -1,
    decreases i + 1,
{
    if i >= 0 && !occurs_at(s, t, i) {
        lemma_last_at_bounds(s, t, i - 1);
    }
}

/// `str::rfind` on characters.
fn rfind_chars(s: &Vec<char>, t: &Vec<char>) -> (r: Option<usize>)
    ensures
        match r {
            Some(k) => k == rfind(s@, t@) && occurs_at(s@, t@, k as int),
            None => rfind(s@, t@) == -1,
        },
{
    if t.len() > s.len() {
        assert(last_at(s@, t@, s@.len() - t@.len()) == -1);
        return None;
    }
    let mut i: usize = s.len() - t.len();
    loop
        invariant
            i <= s.len() - t.len(),
            t.len() <= s.len(),
            rfind(s@, t@) == last_at(s@, t@, i as int),
        decreases i,
    {
        if matches_at(s, t, i) {
            assert(occurs_at(s@, t@, i as int));
            return Some(i);
        }
        if i == 0 {
            assert(last_at(s@, t@, -1) == -1);
            return None;
        }
        i -= 1;
    }
}

fn strip_closing(s: &Vec<char>) -> (r: Vec<char>)
    ensures
        r@ == strip_closers(s@),
{
    let mut b: usize = s.len();
    assert(s@.subrange(0, b as int) =~= s@);
    while b > 0 && s[b - 1] == ')'
        invariant
            b <= s.len(),
            strip_closers(s@) == strip_closers(s@.subrange(0, b as int)),
        decreases b,
    {
        assert(s@.subrange(0, b as int).drop_last() =~= s@.subrange(0, b - 1));
        b -= 1;
    }
    slice_chars(s, 0, b)
}

/// The credits of the older crew (`"Name (Job)"`) and cast (`"Name as
/// Role"`) name lists.
pub fn credits_from_lines(crew: &[String], cast: &[String]) -> (out: Vec<Credit>)
    ensures
        credit_views(out@) == line_credits(strs(crew@), strs(cast@)),
{
    let ghost cw = strs(crew@);
    let ghost ct = strs(cast@);
    let sep = chars_of(" (");
    proof {
        reveal_strlit(" (");
    }
    assert(sep@.len() == 2);
    let mut out: Vec<Credit> = Vec::new();
    let mut i: usize = 0;
    while i < crew.len()
        invariant
            i <= crew.len(),
            cw == strs(crew@),
            sep@ == " ("@,
            sep@.len() == 2,
            credit_views(out@) == crew_from_lines(cw.take(i as int)),
        decreases crew.len() - i,
    {
        assert(cw.take(i + 1).drop_last() =~= cw.take(i as int));
        assert(cw.take(i + 1).last() == cw[i as int]);
        let line = chars_of(crew[i].as_str());
        let ghost before = credit_views(out@);
        match rfind_chars(&line, &sep) {
            Some(k) => {
                assert(occurs_at(line@, sep@, k as int));
                assert(k + 2 <= line@.len());
                assert(line@.len() == line.len());
                let name = slice_chars(&line, 0, k);
                let rest = slice_chars(&line, k + 2, line.len());
                let job = strip_closing(&rest);
                out.push(Credit { id: None, name: string_of(&name), job: string_of(&job) });
                assert(credit_views(out@) =~= before.push(crew_line(cw[i as int])->0));
            },
            None => {},
        }
        i += 1;
    }
    assert(cw.take(crew.len() as int) =~= cw);
    let ghost crew_part = credit_views(out@);
    let n = if cast.len() > CAST_LIMIT {
        CAST_LIMIT
    } else {
        cast.len()
    };
    let ghost fc = first_cast(ct);
    assert(fc =~= ct.take(n as int));
    let mut k: usize = 0;
    while k < n
        invariant
            k <= n <= cast.len(),
            ct == strs(cast@),
            fc == ct.take(n as int),
            credit_views(out@) == crew_part + cast_from_lines(fc.take(k as int)),
        decreases n - k,
    {
        assert(fc.take(k + 1).drop_last() =~= fc.take(k as int));
        assert(fc.take(k + 1).last() == ct[k as int]);
        let line = chars_of(cast[k].as_str());
        let actor = trim_chars(&first_segment_of(&line, " as "));
        let ghost before = credit_views(out@);
        if actor.len() > 0 {
            out.push(Credit { id: None, name: string_of(&actor), job: text_of("Actor") });
            assert(credit_views(out@) =~= before.push((None, cast_line(ct[k as int]), "Actor"@)));
            assert(crew_part + cast_from_lines(fc.take(k + 1)) =~= before.push(
                (None, cast_line(ct[k as int]), "Actor"@),
            ));
        } else {
            assert(crew_part + cast_from_lines(fc.take(k + 1)) =~= before);
        }
        k += 1;
    }
    assert(fc.take(n as int) =~= fc);
    out
}

// ---------------------------------------------------------------------------
// Parsing stored columns
// ---------------------------------------------------------------------------

pub open spec fn or_empty<A>(o: Option<Seq<A>>) -> Seq<A> {
    match o {
        Some(s) => s,
        None => Seq::empty(),
    }
}

pub open spec fn str_opt(o: Option<&str>) -> Option<Seq<char>> {
    match o {
        Some(s) => Some(s@),
        None => None,
    }
}

/// The credits a film's stored columns give: those of the credits object
/// when it parses and names anyone, else those of the crew and cast name
/// lists.
pub open spec fn stored_credits(
    credits: Option<Seq<char>>,
    cast: Option<Seq<char>>,
    crew: Option<Seq<char>>,
) -> Seq<(Option<i64>, Seq<char>, Seq<char>)> {
    let primary = match credits {
        Some(r) => entry_credits(or_empty(json_entries(r, "crew"@)), or_empty(json_entries(r, "cast"@))),
        None => Seq::empty(),
    };
    if primary.len() > 0 {
        primary
    } else {
        line_credits(
            match crew {
                Some(r) => or_empty(json_string_list(r)),
                None => Seq::empty(),
            },
            match cast {
                Some(r) => or_empty(json_string_list(r)),
                None => Seq::empty(),
            },
        )
    }
}

fn entries_or_empty(raw: &str, field: &str) -> (v: Vec<(Option<i64>, Option<String>, Option<String>)>)
    ensures
        entry_views(v@) == or_empty(json_entries(raw@, field@)),
{
    match read_entries(raw, field) {
        Some(v) => v,
        None => Vec::new(),
    }
}

fn strings_or_empty(raw: Option<&str>) -> (v: Vec<String>)
    ensures
        strs(v@) == match raw {
            Some(r) => or_empty(json_string_list(r@)),
            None => Seq::<Seq<char>>::empty(),
        },
{
    match raw {
        Some(r) => match read_strings(r) {
            Some(v) => v,
            None => Vec::new(),
        },
        None => Vec::new(),
    }
}

/// A film's credits from its stored credits object, or else from its crew
/// and cast name lists.
pub fn parse_credits(credits: Option<&str>, cast: Option<&str>, crew: Option<&str>) -> (out: Vec<Credit>)
    ensures
        credit_views(out@) == stored_credits(str_opt(credits), str_opt(cast), str_opt(crew)),
{
    match credits {
        Some(raw) => {
            let crew_entries = entries_or_empty(raw, "crew");
            let cast_entries = entries_or_empty(raw, "cast");
            proof {
                reveal_strlit("crew");
                reveal_strlit("cast");
            }
            let primary = credits_from_entries(crew_entries.as_slice(), cast_entries.as_slice());
            if primary.len() > 0 {
                return primary;
            }
        },
        None => {},
    }
    let crew_lines = strings_or_empty(crew);
    let cast_lines = strings_or_empty(cast);
    credits_from_lines(crew_lines.as_slice(), cast_lines.as_slice())
}

/// The named entries of a keyword list, in order.
pub open spec fn named_keywords(e: Seq<(Option<i64>, Option<Seq<char>>)>) -> Seq<(Option<i64>, Seq<char>)>
    decreases e.len(),
{
    if e.len() == 0 {
        Seq::empty()
    } else {
        let r = named_keywords(e.drop_last());
        match e.last().1 {
            Some(n) => r.push((e.last().0, n)),
            None => r,
        }
    }
}

/// The keywords of a keyword list's entries: those with a name.
pub fn keywords_from_entries(entries: &[(Option<i64>, Option<String>)]) -> (out: Vec<Keyword>)
    ensures
        keyword_views(out@) == named_keywords(pair_views(entries@)),
{
    let ghost ev = pair_views(entries@);
    let mut out: Vec<Keyword> = Vec::new();
    let mut i: usize = 0;
    while i < entries.len()
        invariant
            i <= entries.len(),
            ev == pair_views(entries@),
            keyword_views(out@) == named_keywords(ev.take(i as int)),
        decreases entries.len() - i,
    {
        assert(ev.take(i + 1).drop_last() =~= ev.take(i as int));
        assert(ev.take(i + 1).last() == ev[i as int]);
        let ghost before = keyword_views(out@);
        match &entries[i].1 {
            Some(name) => {
                out.push(Keyword { id: entries[i].0, name: name.clone() });
                assert(keyword_views(out@) =~= before.push((ev[i as int].0, ev[i as int].1->0)));
            },
            None => {},
        }
        i += 1;
    }
    assert(ev.take(entries.len() as int) =~= ev);
    out
}

/// A film's keywords from its stored keyword list: the named entries, none
/// when the column is empty or not a JSON array.
pub fn parse_keywords(raw: Option<String>) -> (out: Vec<Keyword>)
    ensures
        keyword_views(out@) == match raw {
            Some(r) => named_keywords(or_empty(json_list_entries(r@))),
            None => Seq::empty(),
        },
{
    match raw {
        Some(r) => match read_list_entries(r.as_str()) {
            Some(entries) => keywords_from_entries(entries.as_slice()),
            None => Vec::new(),
        },
        None => Vec::new(),
    }
}

/// A stored JSON list of strings, empty when missing or malformed.
pub fn json_vec(raw: Option<String>) -> (out: Vec<String>)
    ensures
        strs(out@) == match raw {
            Some(r) => or_empty(json_string_list(r@)),
            None => Seq::empty(),
        },
{
    match raw {
        Some(r) => strings_or_empty(Some(r.as_str())),
        None => Vec::new(),
    }
}

/// The viewer's review stored in a film's source identity: its `review`
/// text, unless blank.
pub open spec fn stored_review(identity: Option<Seq<char>>) -> Option<Seq<char>> {
    match identity {
        Some(r) => match json_text_field(r, "review"@) {
            Some(t) => if trim(t).len() > 0 {
                Some(t)
            } else {
                None
            },
            None => None,
        },
        None => None,
    }
}

/// The review in a film's stored source identity, if it has a non-blank one.
pub fn identity_review(identity: Option<String>) -> (r: Option<String>)
    ensures
        opt_text(r) == stored_review(opt_text(identity)),
{
    match identity {
        Some(raw) => {
            let t = read_text_field(raw.as_str(), "review");
            proof {
                reveal_strlit("review");
            }
            match t {
                Some(text) => {
                    let trimmed = trim_chars(&chars_of(text.as_str()));
                    if trimmed.len() > 0 {
                        Some(text)
                    } else {
                        None
                    }
                },
                None => None,
            }
        },
        None => None,
    }
}

// ---------------------------------------------------------------------------
// Filling a candidate from the local catalog
// ---------------------------------------------------------------------------

/// A film's row of the local catalog, as stored.
#[derive(Clone, Debug)]
pub struct CatalogRow {
    pub genres: Option<String>,
    pub credits: Option<String>,
    pub cast: Option<String>,
    pub crew: Option<String>,
    pub keywords: Option<String>,
    pub runtime: Option<i32>,
    pub vote_count: Option<i64>,
    pub poster: Option<String>,
    pub title: Option<String>,
    pub year: Option<i32>,
}

/// What the catalog row fills in of a candidate: missing genres, keywords,
/// runtime, vote count, poster and year; the credits whenever the row names
/// anyone; the title whenever the row has a non-empty one. The rest is
/// kept.
pub open spec fn filled_from(new: Candidate, old: Candidate, row: CatalogRow) -> bool {
    let parsed = stored_credits(opt_text(row.credits), opt_text(row.cast), opt_text(row.crew));
    &&& if old.genres@.len() == 0 {
        strs(new.genres@) == match row.genres {
            Some(g) => or_empty(json_string_list(g@)),
            None => Seq::<Seq<char>>::empty(),
        }
    } else {
        new.genres == old.genres
    }
    &&& if parsed.len() > 0 {
        credit_views(new.credits@) == parsed
    } else {
        new.credits == old.credits
    }
    &&& if old.keywords@.len() == 0 {
        keyword_views(new.keywords@) == match row.keywords {
            Some(k) => named_keywords(or_empty(json_list_entries(k@))),
            None => Seq::empty(),
        }
    } else {
        new.keywords == old.keywords
    }
    &&& new.runtime == if old.runtime.is_none() {
        row.runtime
    } else {
        old.runtime
    }
    &&& new.vote_count == if old.vote_count.is_none() {
        row.vote_count
    } else {
        old.vote_count
    }
    &&& if old.poster.is_none() {
        new.poster == row.poster
    } else {
        new.poster == old.poster
    }
    &&& match row.title {
        Some(t) => if t@.len() > 0 {
            new.title@ == t@
        } else {
            new.title == old.title
        },
        None => new.title == old.title,
    }
    &&& new.year == if old.year.is_none() {
        row.year
    } else {
        old.year
    }
    &&& new.tmdb_id == old.tmdb_id
    &&& new.watchlist == old.watchlist
    &&& new.sources == old.sources
    &&& new.friend_affinity == old.friend_affinity
    &&& new.tmdb_related == old.tmdb_related
    &&& new.media_kind == old.media_kind
}

/// Fills what a candidate lacks from its local catalog row.
pub fn fill_from_catalog(c: &mut Candidate, row: CatalogRow)
    ensures
        filled_from(*final(c), *old(c), row),
{
    if c.genres.len() == 0 {
        c.genres = json_vec(row.genres);
    }
    let parsed = parse_credits(
        match &row.credits {
            Some(s) => Some(s.as_str()),
            None => None,
        },
        match &row.cast {
            Some(s) => Some(s.as_str()),
            None => None,
        },
        match &row.crew {
            Some(s) => Some(s.as_str()),
            None => None,
        },
    );
    if parsed.len() > 0 {
        c.credits = parsed;
    }
    if c.keywords.len() == 0 {
        c.keywords = parse_keywords(row.keywords);
    }
    if c.runtime.is_none() {
        c.runtime = row.runtime;
    }
    if c.vote_count.is_none() {
        c.vote_count = row.vote_count;
    }
    if c.poster.is_none() {
        c.poster = row.poster;
    }
    match row.title {
        Some(t) => {
            if chars_of(t.as_str()).len() > 0 {
                c.title = t;
            }
        },
        None => {},
    }
    if c.year.is_none() {
        c.year = row.year;
    }
}

// ---------------------------------------------------------------------------
// Stored related lists
// ---------------------------------------------------------------------------

/// A related film as serde_json reads it: `id`, `title`, `year`, `poster`.
pub open spec fn item_views(v: Seq<(Option<String>, Option<String>, Option<i64>, Option<String>)>) -> Seq<
    (Option<Seq<char>>, Option<Seq<char>>, Option<i64>, Option<Seq<char>>),
> {
    v.map_values(
        |x: (Option<String>, Option<String>, Option<i64>, Option<String>)|
            (opt_text(x.0), opt_text(x.1), x.2, opt_text(x.3)),
    )
}

/// What serde_json reads of the list under `key` of a JSON object text:
/// whether the object has the key, and the entries of the list there.
pub uninterp spec fn json_object_list(raw: Seq<char>, key: Seq<char>) -> Option<
    (bool, Seq<(Option<Seq<char>>, Option<Seq<char>>, Option<i64>, Option<Seq<char>>)>),
>;

/// What serde_json reads of a JSON array text: its entries.
pub uninterp spec fn json_item_array(raw: Seq<char>) -> Option<
    Seq<(Option<Seq<char>>, Option<Seq<char>>, Option<i64>, Option<Seq<char>>)>,
>;

/// serde_json `from_str::<Value>` and `Value::as_object`; then whether the
/// object `contains_key(key)`, and each element of the array under the key
/// (none when it is not an array) read as `id`, `title`, `poster`
/// (`as_str`) and `year` (`as_i64`). `None` when the text is not a JSON
/// object. The result depends on the text and key alone.
#[verifier::external_body]
fn read_object_list(raw: &str, key: &str) -> (r: Option<(bool, Vec<(Option<String>, Option<String>, Option<i64>, Option<String>)>)>)
    ensures
        match r {
            None => json_object_list(raw@, key@) is None,
            Some(x) => json_object_list(raw@, key@) == Some((x.0, item_views(x.1@))),
        },
{
    let v: serde_json::Value = match serde_json::from_str(raw) {
        Ok(v) => v,
        Err(_) => return None,
    };
    let obj = match v.as_object() {
        Some(o) => o,
        None => return None,
    };
    let items: Vec<serde_json::Value> = match obj.get(key).map(serde_json::Value::as_array) {
        Some(Some(a)) => a.clone(),
        _ => Vec::new(),
    };
    Some((obj.contains_key(key), items.iter().map(|x| (x["id"].as_str().map(String::from), x["title"].as_str().map(String::from), x["year"].as_i64(), x["poster"].as_str().map(String::from))).collect()))
}

/// serde_json `from_str::<Value>` and `Value::as_array`, each element read
/// as `id`, `title`, `poster` (`as_str`) and `year` (`as_i64`). `None` when
/// the text is not a JSON array. The result depends on the text alone.
#[verifier::external_body]
fn read_item_array(raw: &str) -> (r: Option<Vec<(Option<String>, Option<String>, Option<i64>, Option<String>)>>)
    ensures
        match r {
            None => json_item_array(raw@) is None,
            Some(x) => json_item_array(raw@) == Some(item_views(x@)),
        },
{
    let v: serde_json::Value = match serde_json::from_str(raw) {
        Ok(v) => v,
        Err(_) => return None,
    };
    let items: Vec<serde_json::Value> = match v.as_array() {
        Some(a) => a.clone(),
        None => return None,
    };
    Some(items.iter().map(|x| (x["id"].as_str().map(String::from), x["title"].as_str().map(String::from), x["year"].as_i64(), x["poster"].as_str().map(String::from))).collect())
}

pub open spec fn related_view(r: RelatedItem) -> (Seq<char>, Seq<char>, Option<i32>, Option<Seq<char>>) {
    (r.id@, r.title@, r.year, opt_text(r.poster))
}

pub open spec fn related_views(v: Seq<RelatedItem>) -> Seq<(Seq<char>, Seq<char>, Option<i32>, Option<Seq<char>>)> {
    v.map_values(|r: RelatedItem| related_view(r))
}

/// The related films of a list's entries: those with an id, with an empty
/// title when it is missing and no year when it does not fit.
pub open spec fn items_from(e: Seq<(Option<Seq<char>>, Option<Seq<char>>, Option<i64>, Option<Seq<char>>)>) -> Seq<
    (Seq<char>, Seq<char>, Option<i32>, Option<Seq<char>>),
>
    decreases e.len(),
{
    if e.len() == 0 {
        Seq::empty()
    } else {
        let r = items_from(e.drop_last());
        let x = e.last();
        match x.0 {
            Some(id) => r.push(
                (
                    id,
                    match x.1 {
                        Some(t) => t,
                        None => Seq::empty(),
                    },
                    match x.2 {
                        Some(y) => if i32::MIN <= y <= i32::MAX {
                            Some(y as i32)
                        } else {
                            None
                        },
                        None => None,
                    },
                    x.3,
                ),
            ),
            None => r,
        }
    }
}

fn related_from(entries: Vec<(Option<String>, Option<String>, Option<i64>, Option<String>)>) -> (out: Vec<RelatedItem>)
    ensures
        related_views(out@) == items_from(item_views(entries@)),
{
    let ghost ev = item_views(entries@);
    let mut rest = entries;
    let mut out: Vec<RelatedItem> = Vec::new();
    let n = rest.len();
    let mut i: usize = 0;
    while i < n
        invariant
            i <= n,
            rest@.len() + i == n,
            ev.len() == n,
            forall|k: int| 0 <= k < rest@.len() ==> item_views(rest@)[k] == ev[k + i],
            related_views(out@) == items_from(ev.take(i as int)),
        decreases n - i,
    {
        let ghost before = rest@;
        let (id, title, year, poster) = rest.remove(0);
        assert(item_views(before)[0] == ev[i as int]);
        assert(ev.take(i + 1).drop_last() =~= ev.take(i as int));
        assert(ev.take(i + 1).last() == ev[i as int]);
        match id {
            Some(id) => {
                let y: Option<i32> = match year {
                    Some(v) => if i32::MIN as i64 <= v && v <= i32::MAX as i64 {
                        Some(v as i32)
                    } else {
                        None
                    },
                    None => None,
                };
                let ghost ov = related_views(out@);
                out.push(RelatedItem {
                    id,
                    title: match title {
                        Some(t) => t,
                        None => String::new(),
                    },
                    year: y,
                    poster,
                });
                assert(related_views(out@) =~= ov.push(items_from(ev.take(i + 1)).last()));
            },
            None => {},
        }
        i += 1;
        assert forall|k: int| 0 <= k < rest@.len() implies item_views(rest@)[k] == ev[k + i] by {
            assert(rest@[k] == before[k + 1]);
            assert(item_views(before)[k + 1] == ev[k + 1 + (i - 1)]);
        }
    }
    assert(ev.take(n as int) =~= ev);
    out
}

/// The related lists a stored column gives: a blank or missing column
/// gives none; an object with a `recommendations` or `similar` key gives
/// both lists; an array gives recommendations only; anything else none.
pub open spec fn stored_related(raw: Option<Seq<char>>) -> (
    Seq<(Seq<char>, Seq<char>, Option<i32>, Option<Seq<char>>)>,
    Seq<(Seq<char>, Seq<char>, Option<i32>, Option<Seq<char>>)>,
) {
    match raw {
        None => (Seq::empty(), Seq::empty()),
        Some(r) => if trim(r).len() == 0 {
            (Seq::empty(), Seq::empty())
        } else {
            let legacy = match json_item_array(r) {
                Some(items) => (items_from(items), Seq::empty()),
                None => (Seq::empty(), Seq::empty()),
            };
            match (json_object_list(r, "recommendations"@), json_object_list(r, "similar"@)) {
                (Some((has_rec, rec)), Some((has_sim, sim))) => if has_rec || has_sim {
                    (items_from(rec), items_from(sim))
                } else {
                    legacy
                },
                _ => legacy,
            }
        },
    }
}

/// A film's stored TMDB recommendations and similar-to lists.
pub fn related_lists(raw: Option<String>) -> (r: (Vec<RelatedItem>, Vec<RelatedItem>))
    ensures
        (related_views(r.0@), related_views(r.1@)) == stored_related(opt_text(raw)),
{
    let raw = match raw {
        Some(r) => r,
        None => {
            return (Vec::new(), Vec::new());
        },
    };
    if trim_chars(&chars_of(raw.as_str())).len() == 0 {
        return (Vec::new(), Vec::new());
    }
    let rec = read_object_list(raw.as_str(), "recommendations");
    let sim = read_object_list(raw.as_str(), "similar");
    proof {
        reveal_strlit("recommendations");
        reveal_strlit("similar");
    }
    match (rec, sim) {
        (Some(rc), Some(sm)) => {
            if rc.0 || sm.0 {
                return (related_from(rc.1), related_from(sm.1));
            }
        },
        _ => {},
    }
    match read_item_array(raw.as_str()) {
        Some(items) => (related_from(items), Vec::new()),
        None => (Vec::new(), Vec::new()),
    }
}

} // verus!
