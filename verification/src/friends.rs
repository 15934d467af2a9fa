//! Friends' ratings as a retrieval source: pairing a friend's ratings with
//! the viewer's own, and turning the films friends loved into candidates
//! weighted by how much each friend's taste agrees with the viewer's.
//!
//! Ratings and similarities are in thousandths.
use vstd::prelude::*;
use crate::catalog::{json_text_field, read_text_field};
use crate::features::{div_trunc, strs};
use crate::retrieve::{
    identity_key, identity_key_spec, Candidate, FilmRecord, MediaKind, RetrievalKind,
    RetrievalSource,
};
use crate::text::{append_chars, append_str, chars_of, dec_nat, dec_u64, seq_eq, string_of};

verus! {

/// A friend's rating, from this rating up, counts as loving the film.
pub const FRIEND_LOVE_FLOOR: i32 = 3500;

/// One friend's rating of one film (thousandths of a star).
#[derive(Clone, Debug)]
pub struct FriendRating {
    pub friend_id: String,
    pub username: String,
    pub rating: i32,
    pub tmdb_id: Option<i64>,
    pub title: String,
    pub year: Option<i32>,
}

/// A friend and the (viewer's rating, friend's rating) pairs of the films
/// both rated.
#[derive(Clone, Debug)]
pub struct FriendPairs {
    pub friend_id: String,
    pub username: String,
    pub pairs: Vec<(i32, i32)>,
}

/// The integer serde_json reads from the field `field` of a JSON object
/// text.
pub uninterp spec fn json_int_field(raw: Seq<char>, field: Seq<char>) -> Option<i64>;

/// serde_json `from_str::<Value>` on the text, then `Value::get(field)` and
/// `Value::as_i64`: `None` when the text does not parse or has no integer
/// (within `i64`) under the field. The result depends on the text and field
/// alone.
#[verifier::external_body]
fn read_int_field(raw: &str, field: &str) -> (r: Option<i64>)
    ensures
        r == json_int_field(raw@, field@),
{
    let v: serde_json::Value = match serde_json::from_str(raw) {
        Ok(v) => v,
        Err(_) => return None,
    };
    match v.get(field) {
        Some(x) => x.as_i64(),
        None => None,
    }
}

/// The TMDB id stored in an activity payload.
pub open spec fn payload_tmdb_id(raw: Seq<char>) -> Option<i64> {
    json_int_field(raw, "tmdb_id"@)
}

fn tmdb_id_from_raw(raw: &str) -> (r: Option<i64>)
    ensures
        r == payload_tmdb_id(raw@),
{
    read_int_field(raw, "tmdb_id")
}

/// The title stored in an activity payload (empty when there is none).
pub open spec fn payload_title(raw: Seq<char>) -> Seq<char> {
    match json_text_field(raw, "title"@) {
        Some(t) => t,
        None => Seq::empty(),
    }
}

/// The release year stored in an activity payload, when it fits in `i32`.
pub open spec fn payload_year(raw: Seq<char>) -> Option<i32> {
    match json_int_field(raw, "year"@) {
        Some(y) => if i32::MIN <= y <= i32::MAX {
            Some(y as i32)
        } else {
            None
        },
        None => None,
    }
}

/// The title and year stored in a friend's activity payload.
pub fn payload_title_year(raw: &str) -> (r: (String, Option<i32>))
    ensures
        r.0@ == payload_title(raw@),
        r.1 == payload_year(raw@),
{
    let title = match read_text_field(raw, "title") {
        Some(t) => t,
        None => String::new(),
    };
    let year = match read_int_field(raw, "year") {
        Some(y) => if i32::MIN as i64 <= y && y <= i32::MAX as i64 {
            Some(y as i32)
        } else {
            None
        },
        None => None,
    };
    (title, year)
}

/// The title a friend's rating is filed under: the catalog title when there
/// is a non-empty one, else the title read from the activity payload.
pub open spec fn rating_title(title: Option<Seq<char>>, payload_title: Seq<char>) -> Seq<char> {
    match title {
        Some(t) => if t.len() > 0 {
            t
        } else {
            payload_title
        },
        None => payload_title,
    }
}

/// One stored friend rating as the library reads it: the catalog title
/// unless it is missing or empty, and the catalog TMDB id, else the one in
/// the activity payload.
pub fn friend_rating(
    friend_id: String,
    username: String,
    rating: i32,
    tmdb_id: Option<i64>,
    raw: &str,
    title: Option<String>,
    payload_title: String,
    year: Option<i32>,
) -> (r: FriendRating)
    ensures
        r.friend_id@ == friend_id@,
        r.username@ == username@,
        r.rating == rating,
        r.tmdb_id == match tmdb_id {
            Some(t) => Some(t),
            None => payload_tmdb_id(raw@),
        },
        r.title@ == rating_title(
            match title {
                Some(t) => Some(t@),
                None => None,
            },
            payload_title@,
        ),
        r.year == year,
{
    let title = match title {
        Some(t) => if chars_of(t.as_str()).len() > 0 {
            t
        } else {
            payload_title
        },
        None => payload_title,
    };
    let tmdb_id = match tmdb_id {
        Some(t) => Some(t),
        None => tmdb_id_from_raw(raw),
    };
    FriendRating { friend_id, username, rating, tmdb_id, title, year }
}

// ---------------------------------------------------------------------------
// Pairing a friend's ratings with the viewer's
// ---------------------------------------------------------------------------

/// The viewer's rating of the film with this TMDB id: that of the last
/// rated film of the library with the id.
pub open spec fn viewer_rating(films: Seq<FilmRecord>, tid: i64) -> Option<i32>
    decreases films.len(),
{
    if films.len() == 0 {
        None
    } else {
        let f = films.last();
        if f.tmdb_id == Some(tid) && f.rating.is_some() {
            f.rating
        } else {
            viewer_rating(films.drop_last(), tid)
        }
    }
}

/// The friends who rated, each once, in order of their first rating.
pub open spec fn friend_ids(rows: Seq<FriendRating>) -> Seq<Seq<char>>
    decreases rows.len(),
{
    if rows.len() == 0 {
        Seq::empty()
    } else {
        let r = friend_ids(rows.drop_last());
        if r.contains(rows.last().friend_id@) {
            r
        } else {
            r.push(rows.last().friend_id@)
        }
    }
}

/// The pairs of one friend: for each of the friend's ratings, in order, of a
/// film the viewer rated too.
pub open spec fn pairs_of(films: Seq<FilmRecord>, rows: Seq<FriendRating>, id: Seq<char>) -> Seq<
    (i32, i32),
>
    decreases rows.len(),
{
    if rows.len() == 0 {
        Seq::empty()
    } else {
        let r = pairs_of(films, rows.drop_last(), id);
        let row = rows.last();
        if row.friend_id@ == id {
            match row.tmdb_id {
                Some(t) => match viewer_rating(films, t) {
                    Some(mine) => r.push((mine, row.rating)),
                    None => r,
                },
                None => r,
            }
        } else {
            r
        }
    }
}

/// The first row of the friend.
pub open spec fn first_row_of(rows: Seq<FriendRating>, id: Seq<char>) -> int
    decreases rows.len(),
{
    if rows.len() == 0 {
        -1
    } else {
        let r = first_row_of(rows.drop_last(), id);
        if r < 0 && rows.last().friend_id@ == id {
            rows.len() - 1
        } else {
            r
        }
    }
}

proof fn lemma_first_row_of(rows: Seq<FriendRating>, id: Seq<char>)
    ensures
        -1 <= first_row_of(rows, id) < rows.len(),
        first_row_of(rows, id) >= 0 ==> rows[first_row_of(rows, id)].friend_id@ == id,
        first_row_of(rows, id) >= 0 ==> forall|k: int|
            0 <= k < first_row_of(rows, id) ==> rows[k].friend_id@ != id,
        first_row_of(rows, id) < 0 ==> forall|k: int| 0 <= k < rows.len() ==> rows[k].friend_id@ != id,
    decreases rows.len(),
{
    if rows.len() > 0 {
        let d = rows.drop_last();
        lemma_first_row_of(d, id);
        assert forall|k: int| 0 <= k < d.len() implies rows[k] == d[k] by {}
    }
}

proof fn lemma_first_row_extends(rows: Seq<FriendRating>, n: int, id: Seq<char>)
    requires
        0 <= n <= rows.len(),
        first_row_of(rows.take(n), id) >= 0,
    ensures
        first_row_of(rows, id) == first_row_of(rows.take(n), id),
    decreases rows.len() - n,
{
    if n < rows.len() {
        assert(rows.take(n + 1).drop_last() =~= rows.take(n));
        lemma_first_row_extends(rows, n + 1, id);
    } else {
        assert(rows.take(n) =~= rows);
    }
}

fn text_eq(a: &String, b: &String) -> (r: bool)
    ensures
        r == (a@ == b@),
{
    seq_eq(&chars_of(a.as_str()), &chars_of(b.as_str()))
}

/// The viewer's rating of the film with this TMDB id.
fn rating_of_viewer(films: &[FilmRecord], tid: i64) -> (r: Option<i32>)
    ensures
        r == viewer_rating(films@, tid),
{
    let mut i: usize = films.len();
    assert(films@.take(i as int) =~= films@);
    while i > 0
        invariant
            i <= films.len(),
            viewer_rating(films@, tid) == viewer_rating(films@.take(i as int), tid),
        decreases i,
    {
        assert(films@.take(i as int).drop_last() =~= films@.take(i - 1));
        let f = &films[i - 1];
        if f.tmdb_id == Some(tid) && f.rating.is_some() {
            return f.rating;
        }
        i -= 1;
    }
    None
}

/// Each friend who rated, in order of first rating, with the username of
/// that first rating and the pairs of the films both the friend and the
/// viewer rated.
pub fn friend_pairs(films: &[FilmRecord], rows: &[FriendRating]) -> (out: Vec<FriendPairs>)
    ensures
        out@.len() == friend_ids(rows@).len(),
        forall|j: int|
            0 <= j < out@.len() ==> {
                let id = friend_ids(rows@)[j];
                &&& (#[trigger] out@[j]).friend_id@ == id
                &&& out@[j].username@ == rows@[first_row_of(rows@, id)].username@
                &&& out@[j].pairs@ == pairs_of(films@, rows@, id)
            },
{
    // The friends, in order of first rating.
    let mut ids: Vec<String> = Vec::new();
    let mut names: Vec<String> = Vec::new();
    let mut i: usize = 0;
    while i < rows.len()
        invariant
            i <= rows.len(),
            strs(ids@) == friend_ids(rows@.take(i as int)),
            names@.len() == ids@.len(),
            forall|j: int|
                0 <= j < ids@.len() ==> first_row_of(rows@.take(i as int), (#[trigger] ids@[j])@)
                    >= 0 && names@[j]@ == rows@[first_row_of(rows@.take(i as int), ids@[j]@)].username@,
        decreases rows.len() - i,
    {
        let ghost before = strs(ids@);
        let ghost pre = rows@.take(i as int);
        assert(rows@.take(i + 1).drop_last() =~= pre);
        let mut found = false;
        let mut k: usize = 0;
        while k < ids.len()
            invariant
                k <= ids.len(),
                !found ==> forall|q: int| 0 <= q < k ==> ids@[q]@ != rows@[i as int].friend_id@,
                found ==> before.contains(rows@[i as int].friend_id@),
                strs(ids@) == before,
                i < rows.len(),
            decreases ids.len() - k,
        {
            if !found && text_eq(&ids[k], &rows[i].friend_id) {
                found = true;
                assert(before[k as int] == rows@[i as int].friend_id@);
            }
            k += 1;
        }
        if !found {
            assert(!before.contains(rows@[i as int].friend_id@)) by {
                if before.contains(rows@[i as int].friend_id@) {
                    let q = choose|q: int| 0 <= q < before.len() && before[q] == rows@[i as int].friend_id@;
                    assert(ids@[q]@ == before[q]);
                }
            }
        }
        proof {
            assert forall|j: int| 0 <= j < ids@.len() implies first_row_of(
                rows@.take(i + 1),
                (#[trigger] ids@[j])@,
            ) >= 0 && first_row_of(rows@.take(i + 1), ids@[j]@) == first_row_of(pre, ids@[j]@) by {
                lemma_first_row_of(pre, ids@[j]@);
            }
        }
        if !found {
            ids.push(rows[i].friend_id.clone());
            names.push(rows[i].username.clone());
            assert(strs(ids@) =~= before.push(rows@[i as int].friend_id@));
            proof {
                lemma_first_row_of(pre, rows@[i as int].friend_id@);
                let id = rows@[i as int].friend_id@;
                if first_row_of(pre, id) >= 0 {
                    assert(pre[first_row_of(pre, id)].friend_id@ == id);
                    assert(friend_ids(pre).contains(id)) by {
                        lemma_friend_ids_cover(pre, first_row_of(pre, id));
                    }
                }
                assert(first_row_of(rows@.take(i + 1), id) == i);
            }
        }
        i += 1;
    }
    assert(rows@.take(rows.len() as int) =~= rows@);
    // Each friend's pairs.
    let mut out: Vec<FriendPairs> = Vec::new();
    let mut f: usize = 0;
    while f < ids.len()
        invariant
            f <= ids.len(),
            strs(ids@) == friend_ids(rows@),
            names@.len() == ids@.len(),
            forall|j: int|
                0 <= j < ids@.len() ==> first_row_of(rows@, (#[trigger] ids@[j])@) >= 0
                    && names@[j]@ == rows@[first_row_of(rows@, ids@[j]@)].username@,
            out@.len() == f,
            forall|j: int|
                0 <= j < f ==> {
                    let id = friend_ids(rows@)[j];
                    &&& (#[trigger] out@[j]).friend_id@ == id
                    &&& out@[j].username@ == rows@[first_row_of(rows@, id)].username@
                    &&& out@[j].pairs@ == pairs_of(films@, rows@, id)
                },
        decreases ids.len() - f,
    {
        let id = &ids[f];
        assert(strs(ids@)[f as int] == id@);
        let mut pairs: Vec<(i32, i32)> = Vec::new();
        let mut r: usize = 0;
        while r < rows.len()
            invariant
                r <= rows.len(),
                pairs@ == pairs_of(films@, rows@.take(r as int), id@),
            decreases rows.len() - r,
        {
            assert(rows@.take(r + 1).drop_last() =~= rows@.take(r as int));
            if text_eq(&rows[r].friend_id, id) {
                match rows[r].tmdb_id {
                    Some(t) => match rating_of_viewer(films, t) {
                        Some(mine) => {
                            pairs.push((mine, rows[r].rating));
                        },
                        None => {},
                    },
                    None => {},
                }
            }
            r += 1;
        }
        assert(rows@.take(rows.len() as int) =~= rows@);
        out.push(FriendPairs { friend_id: id.clone(), username: names[f].clone(), pairs });
        f += 1;
    }
    out
}

proof fn lemma_friend_ids_cover(rows: Seq<FriendRating>, k: int)
    requires
        0 <= k < rows.len(),
    ensures
        friend_ids(rows).contains(rows[k].friend_id@),
    decreases rows.len(),
{
    let r = friend_ids(rows.drop_last());
    if k < rows.len() - 1 {
        lemma_friend_ids_cover(rows.drop_last(), k);
        let q = choose|q: int| 0 <= q < r.len() && r[q] == rows[k].friend_id@;
        if !r.contains(rows.last().friend_id@) {
            assert(r.push(rows.last().friend_id@)[q] == rows[k].friend_id@);
        }
    } else if !r.contains(rows.last().friend_id@) {
        assert(r.push(rows.last().friend_id@)[r.len() as int] == rows[k].friend_id@);
    }
}

// ---------------------------------------------------------------------------
// Films friends loved
// ---------------------------------------------------------------------------

/// The identity key of the film a friend rated.
pub open spec fn row_key(r: FriendRating) -> Seq<char> {
    identity_key_spec(r.tmdb_id, r.title@, r.year)
}

pub open spec fn row_keys(rows: Seq<FriendRating>) -> Seq<Seq<char>> {
    rows.map_values(|r: FriendRating| row_key(r))
}

/// A friend loved a film the viewer has not seen.
pub open spec fn loved(r: FriendRating, seen: Seq<Seq<char>>) -> bool {
    r.rating >= FRIEND_LOVE_FLOOR && !seen.contains(row_key(r))
}

/// The films friends loved, each once, in order of the first such rating.
pub open spec fn loved_keys(rows: Seq<FriendRating>, seen: Seq<Seq<char>>) -> Seq<Seq<char>>
    decreases rows.len(),
{
    if rows.len() == 0 {
        Seq::empty()
    } else {
        let r = loved_keys(rows.drop_last(), seen);
        if loved(rows.last(), seen) && !r.contains(row_key(rows.last())) {
            r.push(row_key(rows.last()))
        } else {
            r
        }
    }
}

/// How many ratings loved the film.
pub open spec fn loved_count(rows: Seq<FriendRating>, seen: Seq<Seq<char>>, k: Seq<char>) -> nat
    decreases rows.len(),
{
    if rows.len() == 0 {
        0
    } else {
        loved_count(rows.drop_last(), seen, k) + if loved(rows.last(), seen) && row_key(rows.last())
            == k {
            1nat
        } else {
            0nat
        }
    }
}

/// The similarity recorded for a friend (the first entry for the id), 0
/// when there is none.
pub open spec fn similarity_of(sims: Seq<(String, i32)>, id: Seq<char>) -> int
    decreases sims.len(),
{
    if sims.len() == 0 {
        0
    } else if sims[0].0@ == id {
        sims[0].1 as int
    } else {
        similarity_of(sims.subrange(1, sims.len() as int), id)
    }
}

/// `x` clamped to [-1000, 1000].
pub open spec fn unit_clamp(x: int) -> int {
    if x < -1000 {
        -1000
    } else if x > 1000 {
        1000
    } else {
        x
    }
}

/// What one loving rating adds: the rating's distance above three stars,
/// halved and clamped to one, scaled by the friend's similarity.
pub open spec fn pull(rating: int, sim: int) -> int {
    div_trunc(unit_clamp(div_trunc(rating - 3000, 2)) * sim, 1000)
}

/// The summed pull of the ratings that loved the film.
pub open spec fn pull_total(
    rows: Seq<FriendRating>,
    seen: Seq<Seq<char>>,
    sims: Seq<(String, i32)>,
    k: Seq<char>,
) -> int
    decreases rows.len(),
{
    if rows.len() == 0 {
        0
    } else {
        let r = rows.last();
        pull_total(rows.drop_last(), seen, sims, k) + if loved(r, seen) && row_key(r) == k {
            pull(r.rating as int, similarity_of(sims, r.friend_id@))
        } else {
            0
        }
    }
}

/// The first of the keys equal to `k` (-1 if none).
pub open spec fn first_index(s: Seq<Seq<char>>, k: Seq<char>) -> int
    decreases s.len(),
{
    if s.len() == 0 {
        -1
    } else {
        let r = first_index(s.drop_last(), k);
        if r < 0 && s.last() == k {
            s.len() - 1
        } else {
            r
        }
    }
}

proof fn lemma_first_index(s: Seq<Seq<char>>, k: Seq<char>, q: int)
    requires
        0 <= q < s.len(),
        s[q] == k,
        forall|p: int| 0 <= p < q ==> s[p] != k,
    ensures
        first_index(s, k) == q,
    decreases s.len(),
{
    if q < s.len() - 1 {
        let d = s.drop_last();
        assert forall|p: int| 0 <= p < q implies d[p] != k by {
            assert(d[p] == s[p]);
        }
        lemma_first_index(d, k, q);
    } else {
        let d = s.drop_last();
        lemma_first_index_none(d, k);
    }
}

proof fn lemma_first_index_none(s: Seq<Seq<char>>, k: Seq<char>)
    requires
        forall|p: int| 0 <= p < s.len() ==> s[p] != k,
    ensures
        first_index(s, k) == -1,
    decreases s.len(),
{
    if s.len() > 0 {
        let d = s.drop_last();
        assert forall|p: int| 0 <= p < d.len() implies d[p] != k by {
            assert(d[p] == s[p]);
        }
        lemma_first_index_none(d, k);
    }
}

proof fn lemma_loved_key_has_row(rows: Seq<FriendRating>, seen: Seq<Seq<char>>, k: Seq<char>)
    requires
        loved_keys(rows, seen).contains(k),
    ensures
        row_keys(rows).contains(k),
    decreases rows.len(),
{
    let d = rows.drop_last();
    let r = loved_keys(d, seen);
    if r.contains(k) {
        lemma_loved_key_has_row(d, seen, k);
        let q = choose|q: int| 0 <= q < row_keys(d).len() && row_keys(d)[q] == k;
        assert(row_keys(rows)[q] == k);
    } else {
        assert(row_keys(rows)[rows.len() - 1] == k);
    }
}

/// `c` is the candidate of film `k`: the title, year and id of the first
/// rating of the film, a friend source counting the loving ratings, and
/// the clamped total pull as friend affinity.
pub open spec fn friend_candidate(
    c: Candidate,
    rows: Seq<FriendRating>,
    seen: Seq<Seq<char>>,
    sims: Seq<(String, i32)>,
    k: Seq<char>,
) -> bool {
    let q = first_index(row_keys(rows), k);
    &&& 0 <= q < rows.len()
    &&& c.tmdb_id == rows[q].tmdb_id
    &&& c.title@ == rows[q].title@
    &&& c.year == rows[q].year
    &&& c.poster.is_none()
    &&& c.genres@.len() == 0
    &&& c.credits@.len() == 0
    &&& c.keywords@.len() == 0
    &&& c.runtime.is_none()
    &&& c.vote_count.is_none()
    &&& !c.watchlist
    &&& c.sources@.len() == 1
    &&& c.sources@[0].kind == RetrievalKind::Friend
    &&& c.sources@[0].label@ == "loved by "@ + dec_nat(loved_count(rows, seen, k)) + " friend(s)"@
    &&& c.sources@[0].seed_tmdb_id.is_none()
    &&& c.sources@[0].seed_rating.is_none()
    &&& c.friend_affinity == unit_clamp(pull_total(rows, seen, sims, k))
    &&& c.tmdb_related == 0
    &&& c.media_kind == MediaKind::Movie
}

fn similarity_for(sims: &[(String, i32)], id: &String) -> (r: i32)
    ensures
        r == similarity_of(sims@, id@),
{
    let mut i: usize = 0;
    assert(sims@.subrange(0, sims@.len() as int) =~= sims@);
    while i < sims.len()
        invariant
            i <= sims.len(),
            similarity_of(sims@, id@) == similarity_of(sims@.subrange(i as int, sims@.len() as int), id@),
        decreases sims.len() - i,
    {
        let ghost rest = sims@.subrange(i as int, sims@.len() as int);
        assert(rest[0] == sims@[i as int]);
        assert(rest.subrange(1, rest.len() as int) =~= sims@.subrange(i + 1, sims@.len() as int));
        if text_eq(&sims[i].0, id) {
            return sims[i].1;
        }
        i += 1;
    }
    0
}

/// What one loving rating adds to a film's friend affinity.
fn rating_pull(rating: i32, sim: i32) -> (p: i64)
    ensures
        p == pull(rating as int, sim as int),
        -0x8000_0000 <= p <= 0x8000_0000,
{
    let d: i64 = rating as i64 - 3000;
    let half: i64 = if d >= 0 {
        d / 2
    } else {
        -((-d) / 2)
    };
    let u: i64 = if half < -1000 {
        -1000
    } else if half > 1000 {
        1000
    } else {
        half
    };
    let sv: i64 = sim as i64;
    assert(-0x8000_0000 * 1000 <= u * sv <= 0x8000_0000 * 1000) by (nonlinear_arith)
        requires
            -1000 <= u <= 1000,
            -0x8000_0000 <= sv <= 0x8000_0000,
    ;
    let m: i64 = u * sv;
    if m >= 0 {
        m / 1000
    } else {
        -((-m) / 1000)
    }
}

fn holds_text(list: &Vec<String>, x: &String) -> (b: bool)
    ensures
        b == strs(list@).contains(x@),
{
    let mut i: usize = 0;
    while i < list.len()
        invariant
            i <= list.len(),
            forall|q: int| 0 <= q < i ==> list@[q]@ != x@,
        decreases list.len() - i,
    {
        if text_eq(&list[i], x) {
            assert(strs(list@)[i as int] == x@);
            return true;
        }
        i += 1;
    }
    assert forall|q: int| 0 <= q < strs(list@).len() implies strs(list@)[q] != x@ by {
        assert(list@[q]@ != x@);
    }
    false
}

fn friend_label(n: usize) -> (s: String)
    ensures
        s@ == "loved by "@ + dec_nat(n as nat) + " friend(s)"@,
{
    let mut out = chars_of("loved by ");
    let d = dec_u64(n as u64);
    append_chars(&mut out, &d);
    append_str(&mut out, " friend(s)");
    string_of(&out)
}

/// The films friends loved (rated three and a half stars or more) that the
/// viewer has not seen (`seen` holds identity keys), one candidate per
/// film in order of its first loving rating. Each carries the title, year
/// and id of the film's first rating, a friend source saying how many
/// ratings loved it, and as friend affinity the sum over those ratings of
/// the rating's pull scaled by the friend's similarity (`sims`, by friend
/// id), clamped to [-1000, 1000].
pub fn friend_candidates(rows: &[FriendRating], sims: &[(String, i32)], seen: &[String]) -> (out: Vec<
    Candidate,
>)
    ensures
        out@.len() == loved_keys(rows@, strs(seen@)).len(),
        forall|j: int|
            0 <= j < out@.len() ==> friend_candidate(
                #[trigger] out@[j],
                rows@,
                strs(seen@),
                sims@,
                loved_keys(rows@, strs(seen@))[j],
            ),
{
    let ghost sv = strs(seen@);
    // The identity key of each rating.
    let mut keys: Vec<String> = Vec::new();
    let mut i: usize = 0;
    while i < rows.len()
        invariant
            i <= rows.len(),
            strs(keys@) == row_keys(rows@.take(i as int)),
        decreases rows.len() - i,
    {
        let ghost before = strs(keys@);
        keys.push(identity_key(rows[i].tmdb_id, rows[i].title.as_str(), rows[i].year));
        assert(strs(keys@) =~= before.push(row_key(rows@[i as int])));
        i += 1;
        assert(row_keys(rows@.take(i as int)) =~= row_keys(rows@.take(i - 1)).push(row_key(rows@[i - 1])));
    }
    assert(rows@.take(rows.len() as int) =~= rows@);
    assert(keys@.len() == strs(keys@).len());
    assert(keys@.len() == rows@.len());
    // The loved films, each once.
    let mut films: Vec<String> = Vec::new();
    let mut r: usize = 0;
    while r < rows.len()
        invariant
            r <= rows.len(),
            sv == strs(seen@),
            strs(keys@) == row_keys(rows@),
            keys@.len() == rows@.len(),
            strs(films@) == loved_keys(rows@.take(r as int), sv),
        decreases rows.len() - r,
    {
        assert(rows@.take(r + 1).drop_last() =~= rows@.take(r as int));
        assert(strs(keys@)[r as int] == row_key(rows@[r as int]));
        let kc = chars_of(keys[r].as_str());
        if rows[r].rating >= FRIEND_LOVE_FLOOR && !crate::pool::key_seen(seen, &kc) && !holds_text(
            &films,
            &keys[r],
        ) {
            let ghost before = strs(films@);
            films.push(keys[r].clone());
            assert(strs(films@) =~= before.push(row_key(rows@[r as int])));
        }
        r += 1;
    }
    assert(rows@.take(rows.len() as int) =~= rows@);
    let ghost lk = loved_keys(rows@, sv);
    // One candidate per loved film.
    let mut out: Vec<Candidate> = Vec::new();
    let mut f: usize = 0;
    while f < films.len()
        invariant
            f <= films.len(),
            sv == strs(seen@),
            strs(keys@) == row_keys(rows@),
            keys@.len() == rows@.len(),
            row_keys(rows@).len() == rows@.len(),
            strs(films@) == lk,
            lk == loved_keys(rows@, sv),
            out@.len() == f,
            forall|j: int|
                0 <= j < f ==> friend_candidate(#[trigger] out@[j], rows@, sv, sims@, lk[j]),
        decreases films.len() - f,
    {
        let k = &films[f];
        assert(strs(films@)[f as int] == k@);
        let mut count: usize = 0;
        let mut total: i128 = 0;
        let mut first: usize = rows.len();
        let mut q: usize = 0;
        while q < rows.len()
            invariant
                q <= rows.len(),
                sv == strs(seen@),
                strs(keys@) == row_keys(rows@),
                keys@.len() == rows@.len(),
                row_keys(rows@).len() == rows@.len(),
                count == loved_count(rows@.take(q as int), sv, k@),
                count <= q,
                total == pull_total(rows@.take(q as int), sv, sims@, k@),
                -0x8000_0000 * q <= total <= 0x8000_0000 * q,
                first <= rows.len(),
                first == rows.len() ==> forall|p: int| 0 <= p < q ==> row_keys(rows@)[p] != k@,
                first < rows.len() ==> first < q && row_keys(rows@)[first as int] == k@ && forall|p: int|
                    0 <= p < first ==> row_keys(rows@)[p] != k@,
            decreases rows.len() - q,
        {
            assert(rows@.take(q + 1).drop_last() =~= rows@.take(q as int));
            assert(strs(keys@)[q as int] == row_key(rows@[q as int]));
            if text_eq(&keys[q], k) {
                if first == rows.len() {
                    first = q;
                }
                let kc = chars_of(keys[q].as_str());
                if rows[q].rating >= FRIEND_LOVE_FLOOR && !crate::pool::key_seen(seen, &kc) {
                    count += 1;
                    let sim = similarity_for(sims, &rows[q].friend_id);
                    let p = rating_pull(rows[q].rating, sim);
                    total = total + p as i128;
                }
            }
            q += 1;
        }
        assert(rows@.take(rows.len() as int) =~= rows@);
        proof {
            assert(lk.contains(k@)) by {
                assert(lk[f as int] == k@);
            }
            lemma_loved_key_has_row(rows@, sv, k@);
            if first == rows.len() {
                let w = choose|w: int| 0 <= w < row_keys(rows@).len() && row_keys(rows@)[w] == k@;
                assert(false);
            }
            lemma_first_index(row_keys(rows@), k@, first as int);
        }
        let s = &rows[first];
        let affinity: i32 = if total < -1000 {
            -1000
        } else if total > 1000 {
            1000
        } else {
            total as i32
        };
        let source = RetrievalSource::new(RetrievalKind::Friend, friend_label(count), None);
        let mut sources: Vec<RetrievalSource> = Vec::new();
        sources.push(source);
        let c = Candidate {
            tmdb_id: s.tmdb_id,
            title: s.title.clone(),
            year: s.year,
            poster: None,
            genres: Vec::new(),
            credits: Vec::new(),
            keywords: Vec::new(),
            runtime: None,
            vote_count: None,
            watchlist: false,
            sources,
            friend_affinity: affinity,
            tmdb_related: 0,
            media_kind: MediaKind::Movie,
        };
        out.push(c);
        f += 1;
    }
    out
}

/// Friends' films the viewer has seen never come back, and each film comes
/// back once.
pub proof fn lemma_loved_keys_unseen_and_distinct(rows: Seq<FriendRating>, seen: Seq<Seq<char>>)
    ensures
        forall|k: Seq<char>| loved_keys(rows, seen).contains(k) ==> !seen.contains(k),
        loved_keys(rows, seen).no_duplicates(),
    decreases rows.len(),
{
    if rows.len() > 0 {
        let d = rows.drop_last();
        lemma_loved_keys_unseen_and_distinct(d, seen);
        let r = loved_keys(d, seen);
        if loved(rows.last(), seen) && !r.contains(row_key(rows.last())) {
            let n = r.push(row_key(rows.last()));
            assert forall|k: Seq<char>| n.contains(k) implies !seen.contains(k) by {
                if k != row_key(rows.last()) {
                    let q = choose|q: int| 0 <= q < n.len() && n[q] == k;
                    assert(r[q] == k);
                }
            }
        }
    }
}

} // verus!
