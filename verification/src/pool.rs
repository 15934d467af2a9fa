//! The retrieval pool: candidates keyed by identity, merged when several
//! sources retrieve the same title, and cut down to a fair subset that keeps
//! a few neighbours of every seed and person before filling up by priority.
use vstd::prelude::*;
use crate::explain::{seq_less, seq_lt};
use crate::retrieve::{
    candidate_priority, candidate_priority_spec, identity_key, identity_key_spec, Candidate,
    MediaKind, RetrievalKind, RetrievalSource,
};
use crate::text::{
    chars_of, has_prefix, parse_i64, parse_i64_spec, seq_eq, slice_chars, starts_with_str,
};

verus! {

/// Candidates kept per seed film before the rest are ranked.
pub const PER_SEED_GUARANTEE: usize = 2;
/// Candidates kept per filmography person before the rest are ranked.
pub const PER_PERSON_GUARANTEE: usize = 2;
/// Size of the retrieval pool.
pub const POOL_CAP: usize = 1000;

// ---------------------------------------------------------------------------
// Order
// ---------------------------------------------------------------------------

pub open spec fn sign(a: int, b: int) -> int {
    if a < b {
        -1
    } else if a > b {
        1
    } else {
        0
    }
}

pub open spec fn seq_sign(a: Seq<char>, b: Seq<char>) -> int {
    if a == b {
        0
    } else if seq_lt(a, b) {
        -1
    } else {
        1
    }
}

pub open spec fn id_or_zero(id: Option<i64>) -> int {
    match id {
        Some(v) => v as int,
        None => 0,
    }
}

/// Pool order, as a sign: priority, then number of sources, then TMDB id
/// (0 when unknown), then title.
pub open spec fn pool_sign(a: &Candidate, b: &Candidate) -> int {
    let c1 = sign(candidate_priority_spec(a), candidate_priority_spec(b));
    let c2 = sign(a.sources.len() as int, b.sources.len() as int);
    let c3 = sign(id_or_zero(a.tmdb_id), id_or_zero(b.tmdb_id));
    if c1 != 0 {
        c1
    } else if c2 != 0 {
        c2
    } else if c3 != 0 {
        c3
    } else {
        seq_sign(a.title@, b.title@)
    }
}

fn title_sign(a: &Candidate, b: &Candidate) -> (r: i8)
    ensures
        r == seq_sign(a.title@, b.title@),
{
    let x = crate::text::chars_of(a.title.as_str());
    let y = crate::text::chars_of(b.title.as_str());
    if crate::text::seq_eq(&x, &y) {
        0
    } else if seq_less(&x, &y) {
        -1
    } else {
        1
    }
}

/// The pool order of two candidates: -1, 0 or 1.
pub fn pool_order(a: &Candidate, b: &Candidate) -> (r: i8)
    ensures
        r == pool_sign(a, b),
{
    let pa = candidate_priority(a);
    let pb = candidate_priority(b);
    if pa != pb {
        return if pa < pb {
            -1
        } else {
            1
        };
    }
    if a.sources.len() != b.sources.len() {
        return if a.sources.len() < b.sources.len() {
            -1
        } else {
            1
        };
    }
    let ia: i64 = match a.tmdb_id {
        Some(v) => v,
        None => 0,
    };
    let ib: i64 = match b.tmdb_id {
        Some(v) => v,
        None => 0,
    };
    if ia != ib {
        return if ia < ib {
            -1
        } else {
            1
        };
    }
    title_sign(a, b)
}

/// Index `i` of the pool goes before index `j` when sorting by the given
/// mode: 0 is pool order (higher first), 1 is pool order then key, 2 is key.
pub open spec fn before(pool: Seq<(String, Candidate)>, mode: u8, i: usize, j: usize) -> bool {
    let c = pool_sign(&pool[i as int].1, &pool[j as int].1);
    let k = seq_lt(pool[i as int].0@, pool[j as int].0@);
    if mode == 0 {
        c > 0
    } else if mode == 1 {
        c > 0 || (c == 0 && k)
    } else {
        k
    }
}

/// First position in `s` before which `x` goes, or the end.
pub open spec fn idx_pos(pool: Seq<(String, Candidate)>, mode: u8, s: Seq<usize>, x: usize, i: int) -> int
    decreases s.len() - i,
{
    if i >= s.len() || i < 0 {
        s.len() as int
    } else if before(pool, mode, x, s[i]) {
        i
    } else {
        idx_pos(pool, mode, s, x, i + 1)
    }
}

/// A stable insertion sort of indices by [`before`].
pub open spec fn idx_sorted(pool: Seq<(String, Candidate)>, mode: u8, s: Seq<usize>) -> Seq<usize>
    decreases s.len(),
{
    if s.len() == 0 {
        Seq::empty()
    } else {
        let r = idx_sorted(pool, mode, s.drop_last());
        r.insert(idx_pos(pool, mode, r, s.last(), 0), s.last())
    }
}

fn before_exec(pool: &Vec<(String, Candidate)>, mode: u8, i: usize, j: usize) -> (b: bool)
    requires
        i < pool.len(),
        j < pool.len(),
    ensures
        b == before(pool@, mode, i, j),
{
    if mode >= 2 {
        let x = crate::text::chars_of(pool[i].0.as_str());
        let y = crate::text::chars_of(pool[j].0.as_str());
        return seq_less(&x, &y);
    }
    let c = pool_order(&pool[i].1, &pool[j].1);
    if c > 0 {
        return true;
    }
    if mode == 0 || c < 0 {
        return false;
    }
    let x = crate::text::chars_of(pool[i].0.as_str());
    let y = crate::text::chars_of(pool[j].0.as_str());
    seq_less(&x, &y)
}

pub open spec fn in_range(pool: Seq<(String, Candidate)>, s: Seq<usize>) -> bool {
    forall|k: int| 0 <= k < s.len() ==> (#[trigger] s[k]) < pool.len()
}

/// Sorts pool indices by the given mode (stable).
fn sort_indices(pool: &Vec<(String, Candidate)>, mode: u8, idx: &Vec<usize>) -> (r: Vec<usize>)
    requires
        in_range(pool@, idx@),
    ensures
        r@ == idx_sorted(pool@, mode, idx@),
        in_range(pool@, r@),
{
    let mut sorted: Vec<usize> = Vec::new();
    let mut i: usize = 0;
    while i < idx.len()
        invariant
            i <= idx.len(),
            in_range(pool@, idx@),
            in_range(pool@, sorted@),
            sorted@ == idx_sorted(pool@, mode, idx@.take(i as int)),
        decreases idx.len() - i,
    {
        assert(idx@.take((i + 1) as int).drop_last() =~= idx@.take(i as int));
        let x = idx[i];
        let ghost cur = sorted@;
        let mut p: usize = 0;
        while p < sorted.len() && !before_exec(pool, mode, x, sorted[p])
            invariant
                p <= sorted.len(),
                x < pool.len(),
                cur == sorted@,
                in_range(pool@, sorted@),
                idx_pos(pool@, mode, cur, x, 0) == idx_pos(pool@, mode, cur, x, p as int),
            decreases sorted.len() - p,
        {
            p += 1;
        }
        sorted.insert(p, x);
        assert forall|k: int| 0 <= k < sorted@.len() implies (#[trigger] sorted@[k]) < pool.len() by {
            if k < p {
                assert(sorted@[k] == cur[k]);
            } else if k > p {
                assert(sorted@[k] == cur[k - 1]);
            }
        }
        i += 1;
    }
    assert(idx@.take(idx.len() as int) =~= idx@);
    sorted
}

// ---------------------------------------------------------------------------
// Seeds, people and their groups
// ---------------------------------------------------------------------------

/// A watchlist title or a friend's pick: always kept.
pub open spec fn is_must(c: Candidate) -> bool {
    c.watchlist || exists|k: int|
        0 <= k < c.sources.len() && (#[trigger] c.sources@[k]).kind == RetrievalKind::Friend
}

/// Retrieved as a related neighbour of the seed film.
pub open spec fn has_seed(c: Candidate, sid: i64) -> bool {
    exists|k: int|
        0 <= k < c.sources.len() && (#[trigger] c.sources@[k]).kind.related()
            && c.sources@[k].seed_tmdb_id == Some(sid)
}

/// Retrieved from the filmography of the person so labelled.
pub open spec fn has_person(c: Candidate, label: Seq<char>) -> bool {
    exists|k: int|
        0 <= k < c.sources.len() && (#[trigger] c.sources@[k]).kind == RetrievalKind::Filmography
            && c.sources@[k].label@ == label
}

/// Which candidates a filter keeps: 0 all, 1 must-keep, 2 neighbours of
/// seed `sid`, 3 titles of person `label`.
pub open spec fn picks(kind: u8, sid: i64, label: Seq<char>, c: Candidate) -> bool {
    if kind == 0 {
        true
    } else if kind == 1 {
        is_must(c)
    } else if kind == 2 {
        has_seed(c, sid)
    } else {
        has_person(c, label)
    }
}

/// The indices below `n` whose candidate the filter keeps, in order.
pub open spec fn indices_where(
    pool: Seq<(String, Candidate)>,
    n: int,
    kind: u8,
    sid: i64,
    label: Seq<char>,
) -> Seq<usize>
    decreases n,
{
    if n <= 0 {
        Seq::empty()
    } else {
        let r = indices_where(pool, n - 1, kind, sid, label);
        if picks(kind, sid, label, pool[n - 1].1) {
            r.push((n - 1) as usize)
        } else {
            r
        }
    }
}

/// Seed ids of related sources, each once, in first-seen order.
pub open spec fn add_seeds(acc: Seq<i64>, s: Seq<crate::retrieve::RetrievalSource>) -> Seq<i64>
    decreases s.len(),
{
    if s.len() == 0 {
        acc
    } else {
        let r = add_seeds(acc, s.drop_last());
        let x = s.last();
        if x.kind.related() && x.seed_tmdb_id is Some && !r.contains(x.seed_tmdb_id->0) {
            r.push(x.seed_tmdb_id->0)
        } else {
            r
        }
    }
}

pub open spec fn seeds_upto(pool: Seq<(String, Candidate)>, n: int) -> Seq<i64>
    decreases n,
{
    if n <= 0 {
        Seq::empty()
    } else {
        add_seeds(seeds_upto(pool, n - 1), pool[n - 1].1.sources@)
    }
}

/// Filmography labels, each once, in first-seen order.
pub open spec fn add_people(acc: Seq<Seq<char>>, s: Seq<crate::retrieve::RetrievalSource>) -> Seq<
    Seq<char>,
>
    decreases s.len(),
{
    if s.len() == 0 {
        acc
    } else {
        let r = add_people(acc, s.drop_last());
        let x = s.last();
        if x.kind == RetrievalKind::Filmography && !r.contains(x.label@) {
            r.push(x.label@)
        } else {
            r
        }
    }
}

pub open spec fn people_upto(pool: Seq<(String, Candidate)>, n: int) -> Seq<Seq<char>>
    decreases n,
{
    if n <= 0 {
        Seq::empty()
    } else {
        add_people(people_upto(pool, n - 1), pool[n - 1].1.sources@)
    }
}

/// First position in `s` before which `x` goes under `lt`, or the end.
pub open spec fn val_pos<T>(s: Seq<T>, x: T, lt: spec_fn(T, T) -> bool, i: int) -> int
    decreases s.len() - i,
{
    if i >= s.len() || i < 0 {
        s.len() as int
    } else if lt(x, s[i]) {
        i
    } else {
        val_pos(s, x, lt, i + 1)
    }
}

/// A stable insertion sort of values by `lt`.
pub open spec fn val_sorted<T>(s: Seq<T>, lt: spec_fn(T, T) -> bool) -> Seq<T>
    decreases s.len(),
{
    if s.len() == 0 {
        Seq::empty()
    } else {
        let r = val_sorted(s.drop_last(), lt);
        r.insert(val_pos(r, s.last(), lt, 0), s.last())
    }
}

pub open spec fn i64_lt() -> spec_fn(i64, i64) -> bool {
    |a: i64, b: i64| a < b
}

pub open spec fn text_lt() -> spec_fn(Seq<char>, Seq<char>) -> bool {
    |a: Seq<char>, b: Seq<char>| seq_lt(a, b)
}

/// The seed films of the pool, in ascending id order.
pub open spec fn seed_ids(pool: Seq<(String, Candidate)>) -> Seq<i64> {
    val_sorted(seeds_upto(pool, pool.len() as int), i64_lt())
}

/// The filmography people of the pool, in ascending name order.
pub open spec fn people(pool: Seq<(String, Candidate)>) -> Seq<Seq<char>> {
    val_sorted(people_upto(pool, pool.len() as int), text_lt())
}

/// A seed's neighbours, best first (pool order, then key).
pub open spec fn seed_group(pool: Seq<(String, Candidate)>, sid: i64) -> Seq<usize> {
    idx_sorted(pool, 1, indices_where(pool, pool.len() as int, 2, sid, Seq::empty()))
}

/// A person's filmography titles, best first (pool order, then key).
pub open spec fn person_group(pool: Seq<(String, Candidate)>, label: Seq<char>) -> Seq<usize> {
    idx_sorted(pool, 1, indices_where(pool, pool.len() as int, 3, 0, label))
}

/// The `pass`-th member of every group that has one, in group order.
pub open spec fn round(groups: Seq<Seq<usize>>, pass: int) -> Seq<usize>
    decreases groups.len(),
{
    if groups.len() == 0 {
        Seq::empty()
    } else {
        let r = round(groups.drop_last(), pass);
        let g = groups.last();
        if 0 <= pass < g.len() {
            r.push(g[pass])
        } else {
            r
        }
    }
}

/// Rounds `0 .. passes` one after another.
pub open spec fn rounds(groups: Seq<Seq<usize>>, passes: int) -> Seq<usize>
    decreases passes,
{
    if passes <= 0 {
        Seq::empty()
    } else {
        rounds(groups, passes - 1) + round(groups, passes - 1)
    }
}

/// The order in which a too-large pool is filled: must-keep titles by key,
/// then rounds over the seeds' and the people's groups, then everything by
/// pool order and key.
pub open spec fn fair_order(pool: Seq<(String, Candidate)>) -> Seq<usize> {
    let n = pool.len() as int;
    let must = idx_sorted(pool, 2, indices_where(pool, n, 1, 0, Seq::empty()));
    let seeds = seed_ids(pool).map_values(|sid: i64| seed_group(pool, sid));
    let persons = people(pool).map_values(|l: Seq<char>| person_group(pool, l));
    let rest = idx_sorted(pool, 1, indices_where(pool, n, 0, 0, Seq::empty()));
    must + rounds(seeds, PER_SEED_GUARANTEE as int) + rounds(persons, PER_PERSON_GUARANTEE as int)
        + rest
}

/// The first `cap` distinct entries of `s`.
pub open spec fn take_fair(s: Seq<usize>, cap: usize) -> Seq<usize>
    decreases s.len(),
{
    if s.len() == 0 {
        Seq::empty()
    } else {
        let r = take_fair(s.drop_last(), cap);
        if r.len() >= cap || r.contains(s.last()) {
            r
        } else {
            r.push(s.last())
        }
    }
}

/// The indices of the candidates a pool keeps, in output order: the whole
/// pool by pool order when it fits, else the fair selection.
pub open spec fn selected(pool: Seq<(String, Candidate)>, cap: usize) -> Seq<usize> {
    if pool.len() <= cap {
        idx_sorted(pool, 0, indices_where(pool, pool.len() as int, 0, 0, Seq::empty()))
    } else {
        take_fair(fair_order(pool), cap)
    }
}

// ---------------------------------------------------------------------------
// Selecting the pool
// ---------------------------------------------------------------------------

fn picks_exec(kind: u8, sid: i64, label: &Vec<char>, c: &Candidate) -> (b: bool)
    ensures
        b == picks(kind, sid, label@, *c),
{
    if kind == 0 {
        return true;
    }
    if kind == 1 && c.watchlist {
        return true;
    }
    let s = &c.sources;
    let mut k: usize = 0;
    while k < s.len()
        invariant
            k <= s.len(),
            s == &c.sources,
            kind != 0,
            kind == 1 ==> !c.watchlist,
            forall|j: int|
                0 <= j < k ==> !(if kind == 1 {
                    (#[trigger] s@[j]).kind == RetrievalKind::Friend
                } else if kind == 2 {
                    s@[j].kind.related() && s@[j].seed_tmdb_id == Some(sid)
                } else {
                    s@[j].kind == RetrievalKind::Filmography && s@[j].label@ == label@
                }),
        decreases s.len() - k,
    {
        let x = &s[k];
        let hit = if kind == 1 {
            x.kind == RetrievalKind::Friend
        } else if kind == 2 {
            x.kind.is_related() && x.seed_tmdb_id == Some(sid)
        } else {
            if x.kind == RetrievalKind::Filmography {
                let l = crate::text::chars_of(x.label.as_str());
                crate::text::seq_eq(&l, label)
            } else {
                false
            }
        };
        if hit {
            assert(s@[k as int] == *x);
            return true;
        }
        k += 1;
    }
    false
}

fn indices_matching(pool: &Vec<(String, Candidate)>, kind: u8, sid: i64, label: &Vec<char>) -> (r: Vec<
    usize,
>)
    ensures
        r@ == indices_where(pool@, pool@.len() as int, kind, sid, label@),
        in_range(pool@, r@),
{
    let mut r: Vec<usize> = Vec::new();
    let mut i: usize = 0;
    while i < pool.len()
        invariant
            i <= pool.len(),
            r@ == indices_where(pool@, i as int, kind, sid, label@),
            in_range(pool@, r@),
        decreases pool.len() - i,
    {
        if picks_exec(kind, sid, label, &pool[i].1) {
            r.push(i);
        }
        i += 1;
    }
    r
}

fn contains_i64(v: &Vec<i64>, x: i64) -> (b: bool)
    ensures
        b == v@.contains(x),
{
    let mut i: usize = 0;
    while i < v.len()
        invariant
            i <= v.len(),
            forall|k: int| 0 <= k < i ==> v@[k] != x,
        decreases v.len() - i,
    {
        if v[i] == x {
            return true;
        }
        i += 1;
    }
    false
}

fn contains_text(v: &Vec<Vec<char>>, x: &Vec<char>) -> (b: bool)
    ensures
        b == v@.map_values(|t: Vec<char>| t@).contains(x@),
{
    let ghost vv = v@.map_values(|t: Vec<char>| t@);
    let mut i: usize = 0;
    while i < v.len()
        invariant
            i <= v.len(),
            vv == v@.map_values(|t: Vec<char>| t@),
            forall|k: int| 0 <= k < i ==> vv[k] != x@,
        decreases v.len() - i,
    {
        assert(vv[i as int] == v@[i as int]@);
        if crate::text::seq_eq(&v[i], x) {
            return true;
        }
        i += 1;
    }
    false
}

fn seeds_of(pool: &Vec<(String, Candidate)>) -> (r: Vec<i64>)
    ensures
        r@ == seeds_upto(pool@, pool@.len() as int),
{
    let mut r: Vec<i64> = Vec::new();
    let mut i: usize = 0;
    while i < pool.len()
        invariant
            i <= pool.len(),
            r@ == seeds_upto(pool@, i as int),
        decreases pool.len() - i,
    {
        let s = &pool[i].1.sources;
        let ghost acc0 = r@;
        let mut k: usize = 0;
        while k < s.len()
            invariant
                k <= s.len(),
                s == &pool@[i as int].1.sources,
                r@ == add_seeds(acc0, s@.take(k as int)),
            decreases s.len() - k,
        {
            assert(s@.take((k + 1) as int).drop_last() =~= s@.take(k as int));
            let x = &s[k];
            if x.kind.is_related() {
                match x.seed_tmdb_id {
                    Some(v) => {
                        if !contains_i64(&r, v) {
                            r.push(v);
                        }
                    },
                    None => {},
                }
            }
            k += 1;
        }
        assert(s@.take(s.len() as int) =~= s@);
        i += 1;
    }
    r
}

fn people_of(pool: &Vec<(String, Candidate)>) -> (r: Vec<Vec<char>>)
    ensures
        r@.map_values(|t: Vec<char>| t@) == people_upto(pool@, pool@.len() as int),
{
    let mut r: Vec<Vec<char>> = Vec::new();
    let mut i: usize = 0;
    while i < pool.len()
        invariant
            i <= pool.len(),
            r@.map_values(|t: Vec<char>| t@) == people_upto(pool@, i as int),
        decreases pool.len() - i,
    {
        let s = &pool[i].1.sources;
        let ghost acc0 = r@.map_values(|t: Vec<char>| t@);
        let mut k: usize = 0;
        while k < s.len()
            invariant
                k <= s.len(),
                s == &pool@[i as int].1.sources,
                r@.map_values(|t: Vec<char>| t@) == add_people(acc0, s@.take(k as int)),
            decreases s.len() - k,
        {
            assert(s@.take((k + 1) as int).drop_last() =~= s@.take(k as int));
            let x = &s[k];
            if x.kind == RetrievalKind::Filmography {
                let l = crate::text::chars_of(x.label.as_str());
                if !contains_text(&r, &l) {
                    let ghost before = r@;
                    r.push(l);
                    assert(r@.map_values(|t: Vec<char>| t@) =~= before.map_values(|t: Vec<char>| t@).push(
                        x.label@,
                    ));
                }
            }
            k += 1;
        }
        assert(s@.take(s.len() as int) =~= s@);
        i += 1;
    }
    r
}

fn sort_i64(v: &Vec<i64>) -> (r: Vec<i64>)
    ensures
        r@ == val_sorted(v@, i64_lt()),
{
    let mut sorted: Vec<i64> = Vec::new();
    let mut i: usize = 0;
    while i < v.len()
        invariant
            i <= v.len(),
            sorted@ == val_sorted(v@.take(i as int), i64_lt()),
        decreases v.len() - i,
    {
        assert(v@.take((i + 1) as int).drop_last() =~= v@.take(i as int));
        let x = v[i];
        let ghost cur = sorted@;
        let mut p: usize = 0;
        while p < sorted.len() && !(x < sorted[p])
            invariant
                p <= sorted.len(),
                cur == sorted@,
                val_pos(cur, x, i64_lt(), 0) == val_pos(cur, x, i64_lt(), p as int),
            decreases sorted.len() - p,
        {
            p += 1;
        }
        sorted.insert(p, x);
        i += 1;
    }
    assert(v@.take(v.len() as int) =~= v@);
    sorted
}

fn sort_text(v: &Vec<Vec<char>>) -> (r: Vec<Vec<char>>)
    ensures
        r@.map_values(|t: Vec<char>| t@) == val_sorted(v@.map_values(|t: Vec<char>| t@), text_lt()),
{
    let ghost vv = v@.map_values(|t: Vec<char>| t@);
    let mut sorted: Vec<Vec<char>> = Vec::new();
    let mut i: usize = 0;
    while i < v.len()
        invariant
            i <= v.len(),
            vv == v@.map_values(|t: Vec<char>| t@),
            sorted@.map_values(|t: Vec<char>| t@) == val_sorted(vv.take(i as int), text_lt()),
        decreases v.len() - i,
    {
        assert(vv.take((i + 1) as int).drop_last() =~= vv.take(i as int));
        assert(vv.take((i + 1) as int).last() == v@[i as int]@);
        let x = v[i].clone();
        let ghost cur = sorted@.map_values(|t: Vec<char>| t@);
        let mut p: usize = 0;
        while p < sorted.len() && !seq_less(&x, &sorted[p])
            invariant
                p <= sorted.len(),
                cur == sorted@.map_values(|t: Vec<char>| t@),
                x@ == v@[i as int]@,
                val_pos(cur, x@, text_lt(), 0) == val_pos(cur, x@, text_lt(), p as int),
            decreases sorted.len() - p,
        {
            assert(cur[p as int] == sorted@[p as int]@);
            p += 1;
        }
        proof {
            if p < sorted.len() {
                assert(cur[p as int] == sorted@[p as int]@);
            }
        }
        let ghost xv = x@;
        sorted.insert(p, x);
        assert(sorted@.map_values(|t: Vec<char>| t@) =~= cur.insert(p as int, xv));
        i += 1;
    }
    assert(vv.take(v.len() as int) =~= vv);
    sorted
}

pub open spec fn below(s: Seq<usize>, n: int) -> bool {
    forall|k: int| 0 <= k < s.len() ==> (#[trigger] s[k]) < n
}

pub open spec fn no_dup(s: Seq<usize>) -> bool {
    forall|a: int, b: int| 0 <= a < b < s.len() ==> s[a] != s[b]
}

proof fn lemma_indices_where(pool: Seq<(String, Candidate)>, n: int, kind: u8, sid: i64, label: Seq<char>)
    requires
        0 <= n <= pool.len(),
        pool.len() <= usize::MAX,
    ensures
        forall|k: int|
            0 <= k < indices_where(pool, n, kind, sid, label).len() ==> (#[trigger] indices_where(
                pool,
                n,
                kind,
                sid,
                label,
            )[k]) < n,
        no_dup(indices_where(pool, n, kind, sid, label)),
    decreases n,
{
    if n > 0 {
        lemma_indices_where(pool, n - 1, kind, sid, label);
        let r = indices_where(pool, n - 1, kind, sid, label);
        let t = indices_where(pool, n, kind, sid, label);
        assert forall|a: int, b: int| 0 <= a < b < t.len() implies t[a] != t[b] by {
            if picks(kind, sid, label, pool[n - 1].1) {
                assert(t == r.push((n - 1) as usize));
                if b == r.len() {
                    assert(t[a] == r[a]);
                    assert(r[a] < n - 1);
                } else {
                    assert(t[a] == r[a] && t[b] == r[b]);
                }
            } else {
                assert(t == r);
            }
        }
    }
}

proof fn lemma_idx_sorted(pool: Seq<(String, Candidate)>, mode: u8, s: Seq<usize>)
    ensures
        idx_sorted(pool, mode, s).len() == s.len(),
        forall|x: usize| idx_sorted(pool, mode, s).contains(x) <==> s.contains(x),
        no_dup(s) ==> no_dup(idx_sorted(pool, mode, s)),
    decreases s.len(),
{
    if s.len() > 0 {
        let d = s.drop_last();
        lemma_idx_sorted(pool, mode, d);
        let r = idx_sorted(pool, mode, d);
        let x = s.last();
        lemma_idx_pos_bounds(pool, mode, r, x, 0);
        let p = idx_pos(pool, mode, r, x, 0);
        let t = r.insert(p, x);
        assert forall|y: usize| t.contains(y) <==> s.contains(y) by {
            if t.contains(y) {
                let k = choose|k: int| 0 <= k < t.len() && t[k] == y;
                if k < p {
                    assert(r[k] == y);
                    assert(r.contains(y));
                    assert(d.contains(y));
                    let j = choose|j: int| 0 <= j < d.len() && d[j] == y;
                    assert(s[j] == y);
                } else if k > p {
                    assert(r[k - 1] == y);
                    assert(r.contains(y));
                    assert(d.contains(y));
                    let j = choose|j: int| 0 <= j < d.len() && d[j] == y;
                    assert(s[j] == y);
                } else {
                    assert(s[s.len() - 1] == y);
                }
            }
            if s.contains(y) {
                let j = choose|j: int| 0 <= j < s.len() && s[j] == y;
                if j == s.len() - 1 {
                    assert(t[p] == y);
                } else {
                    assert(d[j] == y);
                    assert(d.contains(y));
                    assert(r.contains(y));
                    let k = choose|k: int| 0 <= k < r.len() && r[k] == y;
                    if k < p {
                        assert(t[k] == y);
                    } else {
                        assert(t[k + 1] == y);
                    }
                }
            }
        }
        if no_dup(s) {
            assert(no_dup(d));
            assert(!d.contains(x)) by {
                if d.contains(x) {
                    let j = choose|j: int| 0 <= j < d.len() && d[j] == x;
                    assert(s[j] == s[s.len() - 1]);
                }
            }
            assert(!r.contains(x));
            assert forall|a: int, b: int| 0 <= a < b < t.len() implies t[a] != t[b] by {
                if a == p {
                    assert(r.contains(t[b])) by {
                        assert(t[b] == r[b - 1]);
                    }
                } else if b == p {
                    assert(r.contains(t[a])) by {
                        assert(t[a] == r[a]);
                    }
                } else {
                    let ra = if a < p {
                        a
                    } else {
                        a - 1
                    };
                    let rb = if b < p {
                        b
                    } else {
                        b - 1
                    };
                    assert(t[a] == r[ra] && t[b] == r[rb]);
                }
            }
        }
    }
}

proof fn lemma_idx_pos_bounds(pool: Seq<(String, Candidate)>, mode: u8, s: Seq<usize>, x: usize, i: int)
    requires
        0 <= i <= s.len(),
    ensures
        i <= idx_pos(pool, mode, s, x, i) <= s.len(),
    decreases s.len() - i,
{
    if i < s.len() && !before(pool, mode, x, s[i]) {
        lemma_idx_pos_bounds(pool, mode, s, x, i + 1);
    }
}

proof fn lemma_take_fair(s: Seq<usize>, cap: usize)
    ensures
        no_dup(take_fair(s, cap)),
        forall|x: usize| take_fair(s, cap).contains(x) ==> s.contains(x),
    decreases s.len(),
{
    if s.len() > 0 {
        lemma_take_fair(s.drop_last(), cap);
        let r = take_fair(s.drop_last(), cap);
        assert forall|x: usize| take_fair(s, cap).contains(x) implies s.contains(x) by {
            let t = take_fair(s, cap);
            let k = choose|k: int| 0 <= k < t.len() && t[k] == x;
            if k < r.len() {
                assert(r[k] == x);
                assert(r.contains(x));
                assert(s.drop_last().contains(x));
                let j = choose|j: int| 0 <= j < s.drop_last().len() && s.drop_last()[j] == x;
                assert(s[j] == x);
            } else {
                assert(s[s.len() - 1] == x);
            }
        }
    }
}

fn rounds_exec(groups: &Vec<Vec<usize>>, passes: usize, n: usize) -> (r: Vec<usize>)
    requires
        forall|k: int| 0 <= k < groups.len() ==> below((#[trigger] groups@[k])@, n as int),
    ensures
        r@ == rounds(groups@.map_values(|g: Vec<usize>| g@), passes as int),
        below(r@, n as int),
{
    let ghost gv = groups@.map_values(|g: Vec<usize>| g@);
    let mut r: Vec<usize> = Vec::new();
    let mut pass: usize = 0;
    while pass < passes
        invariant
            pass <= passes,
            gv == groups@.map_values(|g: Vec<usize>| g@),
            r@ == rounds(gv, pass as int),
            below(r@, n as int),
            forall|k: int| 0 <= k < groups.len() ==> below((#[trigger] groups@[k])@, n as int),
        decreases passes - pass,
    {
        let ghost head = r@;
        let mut k: usize = 0;
        while k < groups.len()
            invariant
                k <= groups.len(),
                gv == groups@.map_values(|g: Vec<usize>| g@),
                r@ == head + round(gv.take(k as int), pass as int),
                below(r@, n as int),
                forall|k: int| 0 <= k < groups.len() ==> below((#[trigger] groups@[k])@, n as int),
            decreases groups.len() - k,
        {
            assert(gv.take((k + 1) as int).drop_last() =~= gv.take(k as int));
            assert(gv.take((k + 1) as int).last() == groups@[k as int]@);
            if pass < groups[k].len() {
                let ghost before = r@;
                assert(below(groups@[k as int]@, n as int));
                assert(groups@[k as int]@[pass as int] < n);
                r.push(groups[k][pass]);
                assert(r@ =~= before.push(groups@[k as int]@[pass as int]));
            }
            k += 1;
        }
        assert(gv.take(groups.len() as int) =~= gv);
        pass += 1;
    }
    r
}

fn append_indices(a: &mut Vec<usize>, b: &Vec<usize>, n: usize)
    requires
        below(old(a)@, n as int),
        below(b@, n as int),
    ensures
        final(a)@ == old(a)@ + b@,
        below(final(a)@, n as int),
{
    let ghost start = a@;
    let mut i: usize = 0;
    while i < b.len()
        invariant
            i <= b.len(),
            a@ == start + b@.take(i as int),
            below(start, n as int),
            below(b@, n as int),
            below(a@, n as int),
        decreases b.len() - i,
    {
        a.push(b[i]);
        i += 1;
        assert(a@ =~= start + b@.take(i as int));
    }
    assert(b@.take(b.len() as int) =~= b@);
}

fn seed_groups_exec(pool: &Vec<(String, Candidate)>, seeds: &Vec<i64>) -> (groups: Vec<Vec<usize>>)
    ensures
        forall|j: int| 0 <= j < groups.len() ==> below((#[trigger] groups@[j])@, pool@.len() as int),
        groups@.map_values(|g: Vec<usize>| g@) == seeds@.map_values(
            |sid: i64| seed_group(pool@, sid),
        ),
{
    let empty: Vec<char> = Vec::new();
    assert(empty@ =~= Seq::<char>::empty());
    let mut groups: Vec<Vec<usize>> = Vec::new();
    let mut k: usize = 0;
    while k < seeds.len()
        invariant
            k <= seeds.len(),
            empty@ == Seq::<char>::empty(),
            forall|j: int| 0 <= j < groups.len() ==> below((#[trigger] groups@[j])@, pool@.len() as int),
            groups@.map_values(|g: Vec<usize>| g@) == seeds@.take(k as int).map_values(
                |sid: i64| seed_group(pool@, sid),
            ),
        decreases seeds.len() - k,
    {
        let idx = indices_matching(pool, 2, seeds[k], &empty);
        let g = sort_indices(pool, 1, &idx);
        let ghost before = groups@;
        groups.push(g);
        assert(groups@.map_values(|g: Vec<usize>| g@) =~= before.map_values(|g: Vec<usize>| g@).push(
            seed_group(pool@, seeds@[k as int]),
        ));
        k += 1;
        assert(seeds@.take(k as int).map_values(|sid: i64| seed_group(pool@, sid)) =~= seeds@.take(
            (k - 1) as int,
        ).map_values(|sid: i64| seed_group(pool@, sid)).push(seed_group(pool@, seeds@[k - 1])));
    }
    assert(seeds@.take(seeds.len() as int) =~= seeds@);
    groups
}

fn person_groups_exec(pool: &Vec<(String, Candidate)>, persons: &Vec<Vec<char>>) -> (pgroups: Vec<
    Vec<usize>,
>)
    ensures
        forall|j: int| 0 <= j < pgroups.len() ==> below((#[trigger] pgroups@[j])@, pool@.len() as int),
        pgroups@.map_values(|g: Vec<usize>| g@) == persons@.map_values(|t: Vec<char>| t@).map_values(
            |l: Seq<char>| person_group(pool@, l),
        ),
{
    let ghost pv = persons@.map_values(|t: Vec<char>| t@);
    let mut pgroups: Vec<Vec<usize>> = Vec::new();
    let mut k: usize = 0;
    while k < persons.len()
        invariant
            k <= persons.len(),
            pv == persons@.map_values(|t: Vec<char>| t@),
            forall|j: int| 0 <= j < pgroups.len() ==> below((#[trigger] pgroups@[j])@, pool@.len() as int),
            pgroups@.map_values(|g: Vec<usize>| g@) == pv.take(k as int).map_values(
                |l: Seq<char>| person_group(pool@, l),
            ),
        decreases persons.len() - k,
    {
        assert(pv[k as int] == persons@[k as int]@);
        let idx = indices_matching(pool, 3, 0, &persons[k]);
        let g = sort_indices(pool, 1, &idx);
        let ghost before = pgroups@;
        pgroups.push(g);
        assert(pgroups@.map_values(|g: Vec<usize>| g@) =~= before.map_values(|g: Vec<usize>| g@).push(
            person_group(pool@, pv[k as int]),
        ));
        k += 1;
        assert(pv.take(k as int).map_values(|l: Seq<char>| person_group(pool@, l)) =~= pv.take(
            (k - 1) as int,
        ).map_values(|l: Seq<char>| person_group(pool@, l)).push(person_group(pool@, pv[k - 1])));
    }
    assert(pv.take(persons.len() as int) =~= pv);
    pgroups
}

fn fair_order_exec(pool: &Vec<(String, Candidate)>) -> (r: Vec<usize>)
    ensures
        r@ == fair_order(pool@),
        below(r@, pool@.len() as int),
{
    let empty: Vec<char> = Vec::new();
    assert(empty@ =~= Seq::<char>::empty());
    let must_idx = indices_matching(pool, 1, 0, &empty);
    let must = sort_indices(pool, 2, &must_idx);
    let seeds_raw = seeds_of(pool);
    let seeds = sort_i64(&seeds_raw);
    let groups = seed_groups_exec(pool, &seeds);
    let seed_rounds = rounds_exec(&groups, PER_SEED_GUARANTEE, pool.len());
    let people_raw = people_of(pool);
    let persons = sort_text(&people_raw);
    let pgroups = person_groups_exec(pool, &persons);
    let person_rounds = rounds_exec(&pgroups, PER_PERSON_GUARANTEE, pool.len());
    let all = indices_matching(pool, 0, 0, &empty);
    let rest = sort_indices(pool, 1, &all);
    let mut out = must;
    append_indices(&mut out, &seed_rounds, pool.len());
    append_indices(&mut out, &person_rounds, pool.len());
    append_indices(&mut out, &rest, pool.len());
    out
}

fn contains_usize(v: &Vec<usize>, x: usize) -> (b: bool)
    ensures
        b == v@.contains(x),
{
    let mut i: usize = 0;
    while i < v.len()
        invariant
            i <= v.len(),
            forall|k: int| 0 <= k < i ==> v@[k] != x,
        decreases v.len() - i,
    {
        if v[i] == x {
            return true;
        }
        i += 1;
    }
    false
}

fn take_fair_exec(s: &Vec<usize>, cap: usize, n: usize) -> (r: Vec<usize>)
    requires
        below(s@, n as int),
    ensures
        r@ == take_fair(s@, cap),
        below(r@, n as int),
        no_dup(r@),
{
    let mut r: Vec<usize> = Vec::new();
    let mut i: usize = 0;
    while i < s.len()
        invariant
            i <= s.len(),
            r@ == take_fair(s@.take(i as int), cap),
        decreases s.len() - i,
    {
        assert(s@.take((i + 1) as int).drop_last() =~= s@.take(i as int));
        if r.len() < cap {
            let x = s[i];
            let found = contains_usize(&r, x);
            if !found {
                r.push(x);
            }
        }
        i += 1;
    }
    assert(s@.take(s.len() as int) =~= s@);
    proof {
        lemma_take_fair(s@, cap);
        assert forall|k: int| 0 <= k < r@.len() implies (#[trigger] r@[k]) < n by {
            assert(r@.contains(r@[k]));
            assert(s@.contains(r@[k]));
            let j = choose|j: int| 0 <= j < s@.len() && s@[j] == r@[k];
        }
    }
    r
}

/// Moves the candidates at the given (distinct) indices out of the pool, in
/// that order.
fn take_out(pool: Vec<(String, Candidate)>, order: Vec<usize>) -> (out: Vec<Candidate>)
    requires
        below(order@, pool@.len() as int),
        no_dup(order@),
    ensures
        out@ == order@.map_values(|i: usize| pool@[i as int].1),
{
    let ghost p0 = pool@;
    let mut rest = pool;
    let mut slots: Vec<Option<Candidate>> = Vec::new();
    let mut j: usize = 0;
    assert(p0.len() == rest.len());
    while rest.len() > 0
        invariant
            j <= p0.len(),
            p0.len() <= usize::MAX,
            rest@ == p0.skip(j as int),
            slots@.len() == j,
            forall|k: int| 0 <= k < j ==> (#[trigger] slots@[k]) == Some(p0[k].1),
        decreases rest.len(),
    {
        let (_key, c) = rest.remove(0);
        assert(c == p0[j as int].1);
        slots.push(Some(c));
        j += 1;
        assert(rest@ =~= p0.skip(j as int));
    }
    let mut out: Vec<Candidate> = Vec::new();
    let mut t: usize = 0;
    while t < order.len()
        invariant
            t <= order.len(),
            p0.len() <= usize::MAX,
            slots@.len() == p0.len(),
            below(order@, p0.len() as int),
            no_dup(order@),
            out@ == order@.take(t as int).map_values(|i: usize| p0[i as int].1),
            forall|k: int|
                0 <= k < p0.len() ==> (#[trigger] slots@[k]) == if order@.take(t as int).contains(
                    k as usize,
                ) {
                    None
                } else {
                    Some(p0[k].1)
                },
        decreases order.len() - t,
    {
        let idx = order[t];
        assert(idx < p0.len());
        assert(!order@.take(t as int).contains(idx)) by {
            if order@.take(t as int).contains(idx) {
                let a = choose|a: int| 0 <= a < t && #[trigger] order@.take(t as int)[a] == idx;
                assert(order@[a] == order@[t as int]);
            }
        }
        let ghost before = slots@;
        let v = slots.remove(idx);
        slots.insert(idx, None);
        assert(v == Some(p0[idx as int].1));
        match v {
            Some(c) => {
                out.push(c);
            },
            None => {},
        }
        assert(order@.take((t + 1) as int) =~= order@.take(t as int).push(idx));
        assert forall|k: int| 0 <= k < p0.len() implies (#[trigger] slots@[k]) == if order@.take(
            (t + 1) as int,
        ).contains(k as usize) {
            None
        } else {
            Some(p0[k].1)
        } by {
            if k == idx {
                assert(order@.take((t + 1) as int)[t as int] == idx);
            } else {
                assert(slots@[k] == before[k]);
                if order@.take((t + 1) as int).contains(k as usize) {
                    let a = choose|a: int|
                        0 <= a < t + 1 && #[trigger] order@.take((t + 1) as int)[a] == k as usize;
                    assert(a != t);
                    assert(order@.take(t as int)[a] == k as usize);
                }
                if order@.take(t as int).contains(k as usize) {
                    let a = choose|a: int|
                        0 <= a < t && #[trigger] order@.take(t as int)[a] == k as usize;
                    assert(order@.take((t + 1) as int)[a] == k as usize);
                }
            }
        }
        t += 1;
        assert(out@ =~= order@.take(t as int).map_values(|i: usize| p0[i as int].1));
    }
    assert(order@.take(order.len() as int) =~= order@);
    out
}

/// Chooses the candidates a pool keeps (at most `cap`), in order. A pool
/// that fits is kept whole, best first. A larger one keeps its watchlist
/// titles and friends' picks, then the two best neighbours of every seed
/// film and the two best titles of every filmography person (taking the
/// first of each before the second), then fills up by pool order. Entries
/// are (identity key, candidate); ties in pool order go to the smaller key.
pub fn select_fair_pool(pool: Vec<(String, Candidate)>, cap: usize) -> (out: Vec<Candidate>)
    ensures
        out@ == selected(pool@, cap).map_values(|i: usize| pool@[i as int].1),
{
    let empty: Vec<char> = Vec::new();
    assert(empty@ =~= Seq::<char>::empty());
    let order: Vec<usize> = if pool.len() <= cap {
        let all = indices_matching(&pool, 0, 0, &empty);
        proof {
            lemma_indices_where(pool@, pool@.len() as int, 0, 0, Seq::empty());
            lemma_idx_sorted(pool@, 0, all@);
        }
        let o = sort_indices(&pool, 0, &all);
        o
    } else {
        let fair = fair_order_exec(&pool);
        take_fair_exec(&fair, cap, pool.len())
    };
    take_out(pool, order)
}


// ---------------------------------------------------------------------------
// Merging a retrieved film into the pool
// ---------------------------------------------------------------------------

/// The identity key of a candidate.
pub open spec fn key_of(c: Candidate) -> Seq<char> {
    identity_key_spec(c.tmdb_id, c.title@, c.year)
}

/// Two sources are the same retrieval: same kind, seed and label.
pub open spec fn same_source(a: RetrievalSource, b: RetrievalSource) -> bool {
    a.kind == b.kind && a.seed_tmdb_id == b.seed_tmdb_id && a.label@ == b.label@
}

pub open spec fn has_same_source(s: Seq<RetrievalSource>, x: RetrievalSource) -> bool {
    exists|k: int| 0 <= k < s.len() && #[trigger] same_source(s[k], x)
}

/// `existing` with each source of `incoming` appended, in order, unless an
/// equal source is already there.
pub open spec fn merge_sources(existing: Seq<RetrievalSource>, incoming: Seq<RetrievalSource>) -> Seq<
    RetrievalSource,
>
    decreases incoming.len(),
{
    if incoming.len() == 0 {
        existing
    } else {
        let rest = merge_sources(existing, incoming.drop_last());
        if has_same_source(rest, incoming.last()) {
            rest
        } else {
            rest.push(incoming.last())
        }
    }
}

pub open spec fn saturate_i32(x: int) -> i32 {
    if x > i32::MAX {
        i32::MAX
    } else if x < i32::MIN {
        i32::MIN
    } else {
        x as i32
    }
}

/// `new` is `old` with `inc` merged in: sources united, the strongest TMDB
/// relation, friend affinity added (saturating), watchlist or-ed, and
/// credits, genres, poster and TMDB id filled in where `old` had none.
pub open spec fn merged_into(old: Candidate, inc: Candidate, new: Candidate) -> bool {
    &&& new.sources@ == merge_sources(old.sources@, inc.sources@)
    &&& new.tmdb_related == (if old.tmdb_related >= inc.tmdb_related {
        old.tmdb_related
    } else {
        inc.tmdb_related
    })
    &&& new.friend_affinity == saturate_i32(old.friend_affinity + inc.friend_affinity)
    &&& new.watchlist == (old.watchlist || inc.watchlist)
    &&& new.credits == (if old.credits@.len() == 0 {
        inc.credits
    } else {
        old.credits
    })
    &&& new.genres == (if old.genres@.len() == 0 {
        inc.genres
    } else {
        old.genres
    })
    &&& new.poster == (if old.poster.is_none() {
        inc.poster
    } else {
        old.poster
    })
    &&& new.tmdb_id == (if old.tmdb_id.is_none() {
        inc.tmdb_id
    } else {
        old.tmdb_id
    })
    &&& new.title == old.title
    &&& new.year == old.year
    &&& new.keywords == old.keywords
    &&& new.runtime == old.runtime
    &&& new.vote_count == old.vote_count
    &&& new.media_kind == old.media_kind
}

/// `j` is the first pool entry filed under `key`.
pub open spec fn first_key_at(pool: Seq<(String, Candidate)>, key: Seq<char>, j: int) -> bool {
    &&& 0 <= j < pool.len()
    &&& pool[j].0@ == key
    &&& forall|k: int| 0 <= k < j ==> (#[trigger] pool[k]).0@ != key
}

pub open spec fn holds_key(pool: Seq<(String, Candidate)>, key: Seq<char>) -> bool {
    exists|j: int| 0 <= j < pool.len() && (#[trigger] pool[j]).0@ == key
}

/// What adding `inc` to the pool `old` gives: `old` itself for a
/// non-movie; the first entry filed under the film's key merged with it; or
/// the film filed under its key at the end.
pub open spec fn upsert_post(
    old: Seq<(String, Candidate)>,
    inc: Candidate,
    new: Seq<(String, Candidate)>,
) -> bool {
    &&& inc.media_kind != MediaKind::Movie ==> new == old
    &&& inc.media_kind == MediaKind::Movie && holds_key(old, key_of(inc)) ==> exists|j: int|
        {
            &&& first_key_at(old, key_of(inc), j)
            &&& new.len() == old.len()
            &&& forall|k: int| 0 <= k < old.len() && k != j ==> #[trigger] new[k] == old[k]
            &&& new[j].0 == old[j].0
            &&& merged_into(old[j].1, inc, new[j].1)
        }
    &&& inc.media_kind == MediaKind::Movie && !holds_key(old, key_of(inc)) ==> {
        &&& new.len() == old.len() + 1
        &&& new.drop_last() == old
        &&& new.last().0@ == key_of(inc)
        &&& new.last().1 == inc
    }
}

fn find_key(pool: &Vec<(String, Candidate)>, key: &Vec<char>) -> (r: Option<usize>)
    ensures
        match r {
            Some(j) => first_key_at(pool@, key@, j as int),
            None => !holds_key(pool@, key@),
        },
{
    let mut i: usize = 0;
    while i < pool.len()
        invariant
            i <= pool.len(),
            forall|k: int| 0 <= k < i ==> (#[trigger] pool@[k]).0@ != key@,
        decreases pool.len() - i,
    {
        let here = chars_of(pool[i].0.as_str());
        if seq_eq(&here, key) {
            return Some(i);
        }
        i += 1;
    }
    None
}

fn source_present(s: &Vec<RetrievalSource>, x: &RetrievalSource) -> (b: bool)
    ensures
        b == has_same_source(s@, *x),
{
    let xl = chars_of(x.label.as_str());
    let mut i: usize = 0;
    while i < s.len()
        invariant
            i <= s.len(),
            xl@ == x.label@,
            forall|k: int| 0 <= k < i ==> !same_source(#[trigger] s@[k], *x),
        decreases s.len() - i,
    {
        let si = &s[i];
        if si.kind == x.kind && si.seed_tmdb_id == x.seed_tmdb_id {
            let l = chars_of(si.label.as_str());
            if seq_eq(&l, &xl) {
                assert(same_source(s@[i as int], *x));
                return true;
            }
        }
        i += 1;
    }
    false
}

fn merge_source_list(existing: &mut Vec<RetrievalSource>, incoming: Vec<RetrievalSource>)
    ensures
        final(existing)@ == merge_sources(old(existing)@, incoming@),
{
    let ghost orig = existing@;
    let ghost all = incoming@;
    let mut rest = incoming;
    let n = rest.len();
    assert(all.len() == n);
    let mut t: usize = 0;
    while rest.len() > 0
        invariant
            t <= all.len(),
            all.len() <= usize::MAX,
            rest@ == all.skip(t as int),
            existing@ == merge_sources(orig, all.take(t as int)),
        decreases rest.len(),
    {
        let src = rest.remove(0);
        assert(src == all[t as int]);
        assert(all.take(t as int + 1).drop_last() =~= all.take(t as int));
        assert(all.take(t as int + 1).last() == src);
        if !source_present(existing, &src) {
            existing.push(src);
        }
        t += 1;
        assert(rest@ =~= all.skip(t as int));
    }
    assert(all.take(t as int) =~= all);
}

fn add_affinity(a: i32, b: i32) -> (r: i32)
    ensures
        r == saturate_i32(a + b),
{
    let s: i64 = a as i64 + b as i64;
    if s > i32::MAX as i64 {
        i32::MAX
    } else if s < i32::MIN as i64 {
        i32::MIN
    } else {
        s as i32
    }
}

/// Adds a retrieved film to the pool. Non-movies are ignored. A film whose
/// identity key is already filed is merged into that entry; otherwise it is
/// filed under its key at the end.
pub fn upsert_candidate(pool: &mut Vec<(String, Candidate)>, incoming: Candidate)
    ensures
        upsert_post(old(pool)@, incoming, final(pool)@),
{
    if !incoming.media_kind.is_movie() {
        return ;
    }
    let key = identity_key(incoming.tmdb_id, incoming.title.as_str(), incoming.year);
    let key_chars = chars_of(key.as_str());
    match find_key(pool, &key_chars) {
        None => {
            pool.push((key, incoming));
            assert(pool@.drop_last() =~= old(pool)@);
        },
        Some(j) => {
            let (k, mut existing) = pool.remove(j);
            let ghost before = existing;
            let Candidate {
                tmdb_id,
                title: _,
                year: _,
                poster,
                genres,
                credits,
                keywords: _,
                runtime: _,
                vote_count: _,
                watchlist,
                sources,
                friend_affinity,
                tmdb_related,
                media_kind: _,
            } = incoming;
            merge_source_list(&mut existing.sources, sources);
            if tmdb_related > existing.tmdb_related {
                existing.tmdb_related = tmdb_related;
            }
            existing.friend_affinity = add_affinity(existing.friend_affinity, friend_affinity);
            existing.watchlist = existing.watchlist || watchlist;
            if existing.credits.len() == 0 {
                existing.credits = credits;
            }
            if existing.genres.len() == 0 {
                existing.genres = genres;
            }
            if existing.poster.is_none() {
                existing.poster = poster;
            }
            if existing.tmdb_id.is_none() {
                existing.tmdb_id = tmdb_id;
            }
            assert(merged_into(before, incoming, existing));
            pool.insert(j, (k, existing));
            assert(first_key_at(old(pool)@, key_of(incoming), j as int));
        },
    }
}


// ---------------------------------------------------------------------------
// Related neighbours of a seed film
// ---------------------------------------------------------------------------

/// A film from a seed's related lists: catalog id (`"tmdb:<n>"` for TMDB
/// titles), title, year and poster.
#[derive(Clone, Debug)]
pub struct RelatedItem {
    pub id: String,
    pub title: String,
    pub year: Option<i32>,
    pub poster: Option<String>,
}

/// An optional text by its characters.
pub open spec fn opt_text(o: Option<String>) -> Option<Seq<char>> {
    match o {
        Some(t) => Some(t@),
        None => None,
    }
}

/// A copy of a related item, field for field.
pub fn copy_item(item: &RelatedItem) -> (c: RelatedItem)
    ensures
        c.id@ == item.id@,
        c.title@ == item.title@,
        c.year == item.year,
        opt_text(c.poster) == opt_text(item.poster),
{
    RelatedItem {
        id: item.id.clone(),
        title: item.title.clone(),
        year: item.year,
        poster: match &item.poster {
            Some(p) => Some(p.clone()),
            None => None,
        },
    }
}

/// The TMDB id in a catalog id of the form `"tmdb:<n>"`.
pub open spec fn item_tmdb_id(id: Seq<char>) -> Option<i64> {
    if has_prefix(id, "tmdb:"@) {
        parse_i64_spec(id.skip(5))
    } else {
        None
    }
}

/// The TMDB id of a related item, when its catalog id carries one.
pub fn tmdb_id_from_item(item: &RelatedItem) -> (r: Option<i64>)
    ensures
        r == item_tmdb_id(item.id@),
{
    proof {
        reveal_strlit("tmdb:");
    }
    let id = chars_of(item.id.as_str());
    if !starts_with_str(&id, "tmdb:") {
        return None;
    }
    let rest = slice_chars(&id, 5, id.len());
    assert(rest@ =~= id@.skip(5));
    parse_i64(&rest)
}

/// The candidate a related item becomes: a movie with only its id, title,
/// year and poster known, one source naming the seed, and a TMDB relation
/// of one.
pub open spec fn related_candidate(
    c: Candidate,
    item: RelatedItem,
    seed_tmdb_id: Option<i64>,
    seed_rating: Option<i32>,
    kind: RetrievalKind,
    label: Seq<char>,
) -> bool {
    &&& c.tmdb_id == item_tmdb_id(item.id@)
    &&& c.title@ == item.title@
    &&& c.year == item.year
    &&& opt_text(c.poster) == opt_text(item.poster)
    &&& c.genres@.len() == 0
    &&& c.credits@.len() == 0
    &&& c.keywords@.len() == 0
    &&& c.runtime.is_none()
    &&& c.vote_count.is_none()
    &&& !c.watchlist
    &&& c.sources@.len() == 1
    &&& c.sources@[0].kind == kind
    &&& c.sources@[0].label@ == label
    &&& c.sources@[0].seed_tmdb_id == seed_tmdb_id
    &&& c.sources@[0].seed_rating == seed_rating
    &&& c.friend_affinity == 0
    &&& c.tmdb_related == 1000
    &&& c.media_kind == MediaKind::Movie
}

pub(crate) fn key_seen(seen: &[String], key: &Vec<char>) -> (b: bool)
    ensures
        b == seen@.map_values(|t: String| t@).contains(key@),
{
    let ghost sv = seen@.map_values(|t: String| t@);
    let mut i: usize = 0;
    while i < seen.len()
        invariant
            i <= seen.len(),
            sv == seen@.map_values(|t: String| t@),
            forall|k: int| 0 <= k < i ==> sv[k] != key@,
        decreases seen.len() - i,
    {
        let t = chars_of(seen[i].as_str());
        if seq_eq(&t, key) {
            assert(sv[i as int] == key@);
            return true;
        }
        i += 1;
    }
    false
}

/// Files a related neighbour of a seed film into the pool, unless the
/// viewer has already seen it (`seen` holds identity keys).
pub fn push_related(
    pool: &mut Vec<(String, Candidate)>,
    seen: &[String],
    seed_tmdb_id: Option<i64>,
    seed_rating: Option<i32>,
    item: RelatedItem,
    kind: RetrievalKind,
    label: String,
)
    ensures
        ({
            let key = identity_key_spec(item_tmdb_id(item.id@), item.title@, item.year);
            &&& seen@.map_values(|t: String| t@).contains(key) ==> final(pool)@ == old(pool)@
            &&& !seen@.map_values(|t: String| t@).contains(key) ==> exists|c: Candidate|
                #[trigger] related_candidate(c, item, seed_tmdb_id, seed_rating, kind, label@)
                    && upsert_post(old(pool)@, c, final(pool)@)
        }),
{
    let tmdb_id = tmdb_id_from_item(&item);
    let key = identity_key(tmdb_id, item.title.as_str(), item.year);
    let key_chars = chars_of(key.as_str());
    if key_seen(seen, &key_chars) {
        return ;
    }
    let ghost it = item;
    let ghost lab = label;
    let src = RetrievalSource::new(kind, label, seed_tmdb_id).with_rating(seed_rating);
    let mut sources: Vec<RetrievalSource> = Vec::new();
    sources.push(src);
    let RelatedItem { id: _, title, year, poster } = item;
    let c = Candidate {
        tmdb_id,
        title,
        year,
        poster,
        genres: Vec::new(),
        credits: Vec::new(),
        keywords: Vec::new(),
        runtime: None,
        vote_count: None,
        watchlist: false,
        sources,
        friend_affinity: 0,
        tmdb_related: 1000,
        media_kind: MediaKind::Movie,
    };
    assert(related_candidate(c, it, seed_tmdb_id, seed_rating, kind, lab@));
    upsert_candidate(pool, c);
}


// ---------------------------------------------------------------------------
// What filing keeps
// ---------------------------------------------------------------------------

/// Every identity key is filed once.
pub open spec fn keys_distinct(pool: Seq<(String, Candidate)>) -> bool {
    forall|a: int, b: int| 0 <= a < b < pool.len() ==> pool[a].0@ != pool[b].0@
}

/// Every filed candidate is a movie.
pub open spec fn all_movies(pool: Seq<(String, Candidate)>) -> bool {
    forall|k: int| 0 <= k < pool.len() ==> (#[trigger] pool[k]).1.media_kind == MediaKind::Movie
}

/// Filing a candidate keeps the pool sound: each identity key once, and
/// only movies.
pub proof fn lemma_upsert_keeps_pool_sound(
    old: Seq<(String, Candidate)>,
    inc: Candidate,
    new: Seq<(String, Candidate)>,
)
    requires
        upsert_post(old, inc, new),
        keys_distinct(old),
        all_movies(old),
    ensures
        keys_distinct(new),
        all_movies(new),
{
    if inc.media_kind == MediaKind::Movie {
        if holds_key(old, key_of(inc)) {
            let j = choose|j: int|
                {
                    &&& first_key_at(old, key_of(inc), j)
                    &&& new.len() == old.len()
                    &&& forall|k: int| 0 <= k < old.len() && k != j ==> #[trigger] new[k] == old[k]
                    &&& new[j].0 == old[j].0
                    &&& merged_into(old[j].1, inc, new[j].1)
                };
            assert forall|a: int, b: int| 0 <= a < b < new.len() implies new[a].0@ != new[b].0@ by {
                if a != j {
                    assert(new[a] == old[a]);
                }
                if b != j {
                    assert(new[b] == old[b]);
                }
            }
            assert forall|k: int| 0 <= k < new.len() implies (#[trigger] new[k]).1.media_kind
                == MediaKind::Movie by {
                if k != j {
                    assert(new[k] == old[k]);
                }
            }
        } else {
            assert forall|a: int, b: int| 0 <= a < b < new.len() implies new[a].0@ != new[b].0@ by {
                if b < old.len() {
                    assert(new[a] == new.drop_last()[a]);
                    assert(new[b] == new.drop_last()[b]);
                } else {
                    assert(new[a] == old[a]);
                    assert(!(0 <= a < old.len() && (#[trigger] old[a]).0@ == key_of(inc)));
                }
            }
            assert forall|k: int| 0 <= k < new.len() implies (#[trigger] new[k]).1.media_kind
                == MediaKind::Movie by {
                if k < old.len() {
                    assert(new[k] == new.drop_last()[k]);
                }
            }
        }
    }
}

/// No two sources are the same retrieval.
pub open spec fn sources_distinct(s: Seq<RetrievalSource>) -> bool {
    forall|a: int, b: int| 0 <= a < b < s.len() ==> !same_source(s[a], s[b])
}

/// Merging sources never repeats a retrieval and loses none: the result
/// holds every source of both lists (up to sameness), each once.
pub proof fn lemma_merge_sources_distinct(existing: Seq<RetrievalSource>, incoming: Seq<RetrievalSource>)
    requires
        sources_distinct(existing),
    ensures
        sources_distinct(merge_sources(existing, incoming)),
        forall|k: int| 0 <= k < existing.len() ==> merge_sources(existing, incoming)[k] == existing[k],
        existing.len() <= merge_sources(existing, incoming).len(),
        forall|k: int| 0 <= k < incoming.len() ==> has_same_source(merge_sources(existing, incoming), #[trigger] incoming[k]),
    decreases incoming.len(),
{
    if incoming.len() > 0 {
        let d = incoming.drop_last();
        lemma_merge_sources_distinct(existing, d);
        let r = merge_sources(existing, d);
        let x = incoming.last();
        let m = merge_sources(existing, incoming);
        if has_same_source(r, x) {
            assert(m == r);
        } else {
            assert(m == r.push(x));
            assert forall|a: int, b: int| 0 <= a < b < m.len() implies !same_source(m[a], m[b]) by {
                if b == r.len() {
                    assert(m[a] == r[a]);
                    if same_source(r[a], x) {
                        assert(has_same_source(r, x));
                    }
                } else {
                    assert(m[a] == r[a] && m[b] == r[b]);
                }
            }
            assert(same_source(m[r.len() as int], x));
        }
        assert forall|k: int| 0 <= k < incoming.len() implies has_same_source(m, #[trigger] incoming[k]) by {
            if k < d.len() {
                assert(d[k] == incoming[k]);
                assert(has_same_source(r, d[k]));
                let q = choose|q: int| 0 <= q < r.len() && #[trigger] same_source(r[q], d[k]);
                assert(m[q] == r[q]);
                assert(same_source(m[q], incoming[k]));
            } else if has_same_source(r, x) {
                let q = choose|q: int| 0 <= q < r.len() && #[trigger] same_source(r[q], x);
                assert(same_source(m[q], incoming[k]));
            } else {
                assert(same_source(m[r.len() as int], incoming[k]));
            }
        }
    }
}


// ---------------------------------------------------------------------------
// What the fair cut keeps
// ---------------------------------------------------------------------------

proof fn lemma_val_pos_bounds<T>(s: Seq<T>, x: T, lt: spec_fn(T, T) -> bool, i: int)
    requires
        0 <= i <= s.len(),
    ensures
        i <= val_pos(s, x, lt, i) <= s.len(),
    decreases s.len() - i,
{
    if i < s.len() && !lt(x, s[i]) {
        lemma_val_pos_bounds(s, x, lt, i + 1);
    }
}

proof fn lemma_val_sorted_members<T>(s: Seq<T>, lt: spec_fn(T, T) -> bool)
    ensures
        val_sorted(s, lt).len() == s.len(),
        forall|x: T| #![trigger val_sorted(s, lt).contains(x)] #![trigger s.contains(x)]
            val_sorted(s, lt).contains(x) <==> s.contains(x),
    decreases s.len(),
{
    if s.len() > 0 {
        let d = s.drop_last();
        lemma_val_sorted_members(d, lt);
        let r = val_sorted(d, lt);
        let p = val_pos(r, s.last(), lt, 0);
        lemma_val_pos_bounds(r, s.last(), lt, 0);
        let t = r.insert(p, s.last());
        assert forall|x: T| t.contains(x) <==> s.contains(x) by {
            if t.contains(x) {
                let k = choose|k: int| 0 <= k < t.len() && t[k] == x;
                if k < p {
                    assert(r[k] == x);
                    assert(r.contains(x));
                    let j = choose|j: int| 0 <= j < d.len() && d[j] == x;
                    assert(d[j] == s[j]);
                } else if k == p {
                    assert(s[s.len() - 1] == x);
                } else {
                    assert(r[k - 1] == x);
                    assert(r.contains(x));
                    let j = choose|j: int| 0 <= j < d.len() && d[j] == x;
                    assert(d[j] == s[j]);
                }
            }
            if s.contains(x) {
                let k = choose|k: int| 0 <= k < s.len() && s[k] == x;
                if k == s.len() - 1 {
                    assert(t[p] == x);
                } else {
                    assert(d[k] == x);
                    assert(d.contains(x));
                    assert(r.contains(x));
                    let j = choose|j: int| 0 <= j < r.len() && r[j] == x;
                    if j < p {
                        assert(t[j] == x);
                    } else {
                        assert(t[j + 1] == x);
                    }
                }
            }
        }
    }
}

proof fn lemma_add_seeds_source(acc: Seq<i64>, s: Seq<RetrievalSource>, sid: i64)
    requires
        add_seeds(acc, s).contains(sid),
    ensures
        acc.contains(sid) || exists|k: int|
            0 <= k < s.len() && (#[trigger] s[k]).kind.related() && s[k].seed_tmdb_id == Some(sid),
    decreases s.len(),
{
    if s.len() > 0 {
        let r = add_seeds(acc, s.drop_last());
        let x = s.last();
        if r.contains(sid) {
            lemma_add_seeds_source(acc, s.drop_last(), sid);
            if !acc.contains(sid) {
                let k = choose|k: int|
                    0 <= k < s.drop_last().len() && (#[trigger] s.drop_last()[k]).kind.related()
                        && s.drop_last()[k].seed_tmdb_id == Some(sid);
                assert(s[k] == s.drop_last()[k]);
            }
        } else {
            assert(add_seeds(acc, s) == r.push(x.seed_tmdb_id->0) || add_seeds(acc, s) == r);
            let t = add_seeds(acc, s);
            let q = choose|q: int| 0 <= q < t.len() && t[q] == sid;
            assert(q == r.len());
            assert(s[s.len() - 1].kind.related() && s[s.len() - 1].seed_tmdb_id == Some(sid));
        }
    }
}

proof fn lemma_seeds_upto_source(pool: Seq<(String, Candidate)>, n: int, sid: i64)
    requires
        0 <= n <= pool.len(),
        seeds_upto(pool, n).contains(sid),
    ensures
        exists|i: int| 0 <= i < n && has_seed(#[trigger] pool[i].1, sid),
    decreases n,
{
    if n > 0 {
        lemma_add_seeds_source(seeds_upto(pool, n - 1), pool[n - 1].1.sources@, sid);
        if seeds_upto(pool, n - 1).contains(sid) {
            lemma_seeds_upto_source(pool, n - 1, sid);
            let i = choose|i: int| 0 <= i < n - 1 && has_seed(#[trigger] pool[i].1, sid);
            assert(has_seed(pool[i].1, sid));
        } else {
            let c = pool[n - 1].1;
            let k = choose|k: int|
                0 <= k < c.sources@.len() && (#[trigger] c.sources@[k]).kind.related()
                    && c.sources@[k].seed_tmdb_id == Some(sid);
            assert(c.sources@[k].kind.related());
            assert(has_seed(c, sid));
        }
    }
}

proof fn lemma_indices_where_has(pool: Seq<(String, Candidate)>, n: int, kind: u8, sid: i64, label: Seq<char>, i: int)
    requires
        0 <= i < n <= pool.len(),
        pool.len() <= usize::MAX,
        picks(kind, sid, label, pool[i].1),
    ensures
        indices_where(pool, n, kind, sid, label).contains(i as usize),
    decreases n,
{
    if i < n - 1 {
        lemma_indices_where_has(pool, n - 1, kind, sid, label, i);
        let r = indices_where(pool, n - 1, kind, sid, label);
        let k = choose|k: int| 0 <= k < r.len() && r[k] == i as usize;
        let t = indices_where(pool, n, kind, sid, label);
        assert(t[k] == i as usize);
    } else {
        let t = indices_where(pool, n, kind, sid, label);
        assert(t[t.len() - 1] == i as usize);
    }
}

proof fn lemma_indices_where_picks(pool: Seq<(String, Candidate)>, n: int, kind: u8, sid: i64, label: Seq<char>)
    requires
        0 <= n <= pool.len(),
        pool.len() <= usize::MAX,
    ensures
        forall|k: int|
            0 <= k < indices_where(pool, n, kind, sid, label).len() ==> picks(
                kind,
                sid,
                label,
                pool[#[trigger] indices_where(pool, n, kind, sid, label)[k] as int].1,
            ),
    decreases n,
{
    if n > 0 {
        lemma_indices_where_picks(pool, n - 1, kind, sid, label);
        let r = indices_where(pool, n - 1, kind, sid, label);
        let t = indices_where(pool, n, kind, sid, label);
        assert forall|k: int| 0 <= k < t.len() implies picks(kind, sid, label, pool[#[trigger] t[k] as int].1) by {
            if k < r.len() {
                assert(t[k] == r[k]);
            }
        }
    }
}

/// The first pass over the groups takes the first member of every group.
proof fn lemma_round_firsts(groups: Seq<Seq<usize>>, k: int)
    requires
        0 <= k < groups.len(),
        groups[k].len() > 0,
    ensures
        round(groups, 0).contains(groups[k][0]),
    decreases groups.len(),
{
    let r = round(groups.drop_last(), 0);
    if k < groups.len() - 1 {
        assert(groups.drop_last()[k] == groups[k]);
        lemma_round_firsts(groups.drop_last(), k);
        let q = choose|q: int| 0 <= q < r.len() && r[q] == groups[k][0];
        assert(round(groups, 0)[q] == groups[k][0]);
    } else {
        let t = round(groups, 0);
        assert(t[t.len() - 1] == groups[k][0]);
    }
}

proof fn lemma_round_len(groups: Seq<Seq<usize>>, pass: int)
    ensures
        round(groups, pass).len() <= groups.len(),
    decreases groups.len(),
{
    if groups.len() > 0 {
        lemma_round_len(groups.drop_last(), pass);
    }
}

proof fn lemma_take_fair_len(s: Seq<usize>, cap: usize)
    ensures
        take_fair(s, cap).len() <= s.len(),
    decreases s.len(),
{
    if s.len() > 0 {
        lemma_take_fair_len(s.drop_last(), cap);
    }
}

/// A run no longer than the cap is taken whole.
proof fn lemma_take_fair_small(s: Seq<usize>, cap: usize)
    requires
        s.len() <= cap,
    ensures
        forall|x: usize| s.contains(x) ==> take_fair(s, cap).contains(x),
    decreases s.len(),
{
    if s.len() > 0 {
        let d = s.drop_last();
        lemma_take_fair_small(d, cap);
        lemma_take_fair_len(d, cap);
        let r = take_fair(d, cap);
        let t = take_fair(s, cap);
        assert forall|x: usize| s.contains(x) implies t.contains(x) by {
            let k = choose|k: int| 0 <= k < s.len() && s[k] == x;
            if k < d.len() {
                assert(d[k] == x);
                assert(d.contains(x));
                assert(r.contains(x));
                let q = choose|q: int| 0 <= q < r.len() && r[q] == x;
                if t == r {
                } else {
                    assert(t == r.push(s.last()));
                    assert(t[q] == x);
                }
            } else {
                if !r.contains(x) {
                    assert(t == r.push(x));
                    assert(t[t.len() - 1] == x);
                }
            }
        }
    }
}

/// Taking from a longer run keeps what the shorter run took.
proof fn lemma_take_fair_prefix(s: Seq<usize>, t: Seq<usize>, cap: usize)
    ensures
        forall|x: usize| #[trigger] take_fair(s, cap).contains(x) ==> take_fair(s + t, cap).contains(x),
    decreases t.len(),
{
    if t.len() > 0 {
        let d = t.drop_last();
        lemma_take_fair_prefix(s, d, cap);
        assert((s + t).drop_last() =~= s + d);
        let r = take_fair(s + d, cap);
        let u = take_fair(s + t, cap);
        assert forall|x: usize| take_fair(s, cap).contains(x) implies u.contains(x) by {
            assert(r.contains(x));
            let q = choose|q: int| 0 <= q < r.len() && r[q] == x;
            if u != r {
                assert(u[q] == x);
            }
        }
    }
}

/// A pool over the cap keeps a neighbour of every seed film, as long as the
/// must-keep titles and one neighbour per seed fit under the cap.
pub proof fn lemma_fair_pool_keeps_a_neighbor_per_seed(
    pool: Seq<(String, Candidate)>,
    cap: usize,
    sid: i64,
)
    requires
        pool.len() > cap,
        pool.len() <= usize::MAX,
        indices_where(pool, pool.len() as int, 1, 0, Seq::empty()).len() + seed_ids(pool).len()
            <= cap,
        seed_ids(pool).contains(sid),
    ensures
        exists|k: int|
            0 <= k < selected(pool, cap).len() && has_seed(
                pool[#[trigger] selected(pool, cap)[k] as int].1,
                sid,
            ),
{
    let n = pool.len() as int;
    let ids = seed_ids(pool);
    lemma_val_sorted_members(seeds_upto(pool, n), i64_lt());
    assert(seeds_upto(pool, n).contains(sid));
    lemma_seeds_upto_source(pool, n, sid);
    let i = choose|i: int| 0 <= i < n && has_seed(#[trigger] pool[i].1, sid);
    // the seed's group is not empty, and its first member is a neighbour
    let raw = indices_where(pool, n, 2, sid, Seq::empty());
    lemma_indices_where_has(pool, n, 2, sid, Seq::empty(), i);
    lemma_indices_where_picks(pool, n, 2, sid, Seq::empty());
    let g = seed_group(pool, sid);
    lemma_idx_sorted(pool, 1, raw);
    assert(g.len() == raw.len());
    assert(raw.len() > 0);
    assert(raw.contains(g[0]));
    let q = choose|q: int| 0 <= q < raw.len() && raw[q] == g[0];
    assert(has_seed(pool[raw[q] as int].1, sid));
    // that member is in the first pass over the seed groups
    let groups = ids.map_values(|s: i64| seed_group(pool, s));
    let ki = choose|ki: int| 0 <= ki < ids.len() && ids[ki] == sid;
    assert(groups[ki] == g);
    lemma_round_firsts(groups, ki);
    lemma_round_len(groups, 0);
    let must = idx_sorted(pool, 2, indices_where(pool, n, 1, 0, Seq::empty()));
    lemma_idx_sorted(pool, 2, indices_where(pool, n, 1, 0, Seq::empty()));
    let first = must + round(groups, 0);
    assert(first.len() <= cap);
    let persons = people(pool).map_values(|l: Seq<char>| person_group(pool, l));
    let rest = idx_sorted(pool, 1, indices_where(pool, n, 0, 0, Seq::empty()));
    let tail = round(groups, 1) + rounds(persons, PER_PERSON_GUARANTEE as int) + rest;
    assert(rounds(groups, 2) =~= round(groups, 0) + round(groups, 1)) by {
        assert(rounds(groups, 0) =~= Seq::<usize>::empty());
        assert(rounds(groups, 1) =~= round(groups, 0));
    }
    assert(fair_order(pool) =~= first + tail);
    // the first pass fits, so it is taken whole, and the rest only adds
    let x = g[0];
    let kr = choose|kr: int| 0 <= kr < round(groups, 0).len() && round(groups, 0)[kr] == x;
    assert(first[must.len() + kr] == x);
    assert(first.contains(x));
    lemma_take_fair_small(first, cap);
    lemma_take_fair_prefix(first, tail, cap);
    let sel = selected(pool, cap);
    assert(sel == take_fair(first + tail, cap));
    assert(sel.contains(x));
    let k = choose|k: int| 0 <= k < sel.len() && sel[k] == x;
    assert(has_seed(pool[sel[k] as int].1, sid));
}


/// In pool order the candidate of higher priority goes first; at equal
/// priority, the one with more sources.
pub proof fn lemma_pool_priority_first(pool: Seq<(String, Candidate)>, mode: u8, i: usize, j: usize)
    requires
        0 <= i < pool.len(),
        0 <= j < pool.len(),
        mode <= 1,
    ensures
        candidate_priority_spec(&pool[i as int].1) > candidate_priority_spec(&pool[j as int].1)
            ==> before(pool, mode, i, j) && !before(pool, mode, j, i),
        candidate_priority_spec(&pool[i as int].1) == candidate_priority_spec(&pool[j as int].1)
            && pool[i as int].1.sources.len() > pool[j as int].1.sources.len() ==> before(pool, mode, i, j)
            && !before(pool, mode, j, i),
{
}

} // verus!
