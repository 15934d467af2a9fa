//! Gathering the candidate pool from the viewer's library: the related
//! neighbours of every liked seed film (strongest seeds first), the
//! filmographies of cited people, the unwatched watchlist and friends'
//! picks, each filed under its identity and then cut down fairly.
use vstd::prelude::*;
use crate::explain::{seq_less, seq_lt};
use crate::features::{job_family, FeatureAffinity, FeatureFamily, FeatureProfile, Keyword, Credit, strs};
use crate::pool::{
    select_fair_pool, selected, POOL_CAP, copy_item, item_tmdb_id, key_seen, opt_text, push_related, related_candidate, upsert_candidate,
    upsert_post, RelatedItem,
};
use crate::retrieve::{
    credit_cap_spec, eligible_positive_like, eligible_spec, filmography_allowed_spec,
    filmography_credit_cap, filmography_person_allowed, identity_key, identity_key_spec,
    keep_person_credit, seed_priority, seed_priority_spec, candidate_catalog_spec,
    candidate_has_catalog, film_catalog_spec, film_has_catalog, has_usable_related,
    usable_related_spec, Candidate, FilmRecord, MediaKind, RetrievalKind, RetrievalResult,
    RetrievalSource, SeedCoverage,
};
use crate::text::{append_str, chars_of, string_of};

verus! {

// ---------------------------------------------------------------------------
// Seed order
// ---------------------------------------------------------------------------

/// A seed's TMDB id for ordering; seeds without one go last.
pub open spec fn id_rank(f: FilmRecord) -> int {
    match f.tmdb_id {
        Some(i) => i as int,
        None => i64::MAX as int,
    }
}

/// Seeds go by priority (highest first), then TMDB id, then title.
pub open spec fn seed_before(a: FilmRecord, b: FilmRecord) -> bool {
    seed_priority_spec(a) > seed_priority_spec(b) || (seed_priority_spec(a)
        == seed_priority_spec(b) && (id_rank(a) < id_rank(b) || (id_rank(a) == id_rank(b)
        && seq_lt(a.title@, b.title@))))
}

/// Where seed `x` goes in the ordered seeds `order`: before the first seed
/// it precedes, after all others.
pub open spec fn seed_slot(films: Seq<FilmRecord>, order: Seq<int>, x: int, i: int) -> int
    decreases order.len() - i,
{
    if i >= order.len() || seed_before(films[x], films[order[i]]) {
        i
    } else {
        seed_slot(films, order, x, i + 1)
    }
}

/// The eligible seeds among the first `n` films, ordered (stably).
pub open spec fn seed_order_upto(films: Seq<FilmRecord>, n: int) -> Seq<int>
    decreases n,
{
    if n <= 0 {
        Seq::empty()
    } else {
        let r = seed_order_upto(films, n - 1);
        if eligible_spec(films[n - 1]) {
            r.insert(seed_slot(films, r, n - 1, 0), n - 1)
        } else {
            r
        }
    }
}

/// The eligible seeds of the library, in retrieval order (indices).
pub open spec fn seed_order(films: Seq<FilmRecord>) -> Seq<int> {
    seed_order_upto(films, films.len() as int)
}

pub open spec fn as_ints(v: Seq<usize>) -> Seq<int> {
    v.map_values(|i: usize| i as int)
}

fn seed_first(a: &FilmRecord, b: &FilmRecord) -> (r: bool)
    ensures
        r == seed_before(*a, *b),
{
    let pa = seed_priority(a);
    let pb = seed_priority(b);
    if pa != pb {
        return pa > pb;
    }
    let ia: i64 = match a.tmdb_id {
        Some(i) => i,
        None => i64::MAX,
    };
    let ib: i64 = match b.tmdb_id {
        Some(i) => i,
        None => i64::MAX,
    };
    if ia != ib {
        return ia < ib;
    }
    seq_less(&chars_of(a.title.as_str()), &chars_of(b.title.as_str()))
}

proof fn lemma_seed_order_bounds(films: Seq<FilmRecord>, n: int)
    requires
        0 <= n <= films.len(),
    ensures
        seed_order_upto(films, n).len() <= n,
        forall|k: int|
            0 <= k < seed_order_upto(films, n).len() ==> 0 <= #[trigger] seed_order_upto(films, n)[k]
                < n,
    decreases n,
{
    if n > 0 {
        lemma_seed_order_bounds(films, n - 1);
        let r = seed_order_upto(films, n - 1);
        if eligible_spec(films[n - 1]) {
            lemma_seed_slot_bounds(films, r, n - 1, 0);
        }
    }
}

proof fn lemma_seed_slot_bounds(films: Seq<FilmRecord>, order: Seq<int>, x: int, i: int)
    requires
        0 <= i <= order.len(),
    ensures
        i <= seed_slot(films, order, x, i) <= order.len(),
    decreases order.len() - i,
{
    if i < order.len() && !seed_before(films[x], films[order[i]]) {
        lemma_seed_slot_bounds(films, order, x, i + 1);
    }
}

/// The eligible seeds, strongest first.
pub fn seed_indices(films: &[FilmRecord]) -> (order: Vec<usize>)
    ensures
        as_ints(order@) == seed_order(films@),
{
    let mut order: Vec<usize> = Vec::new();
    let mut n: usize = 0;
    while n < films.len()
        invariant
            n <= films.len(),
            as_ints(order@) == seed_order_upto(films@, n as int),
        decreases films.len() - n,
    {
        proof {
            lemma_seed_order_bounds(films@, n as int);
        }
        if eligible_positive_like(&films[n]) {
            let ghost r = seed_order_upto(films@, n as int);
            let mut p: usize = 0;
            while p < order.len() && !seed_first(&films[n], &films[order[p]])
                invariant
                    p <= order.len(),
                    n < films.len(),
                    as_ints(order@) == r,
                    forall|k: int| 0 <= k < r.len() ==> 0 <= #[trigger] r[k] < n,
                    seed_slot(films@, r, n as int, 0) == seed_slot(films@, r, n as int, p as int),
                decreases order.len() - p,
            {
                assert(r[p as int] == order@[p as int] as int);
                p += 1;
            }
            proof {
                if p < order.len() {
                    assert(r[p as int] == order@[p as int] as int);
                }
            }
            order.insert(p, n);
            assert(as_ints(order@) =~= r.insert(p as int, n as int));
        }
        n += 1;
    }
    order
}

// ---------------------------------------------------------------------------
// Filing a run of candidates
// ---------------------------------------------------------------------------

/// Filing `cs` one after another into `p0` can give `p`.
pub open spec fn filed_from(
    p0: Seq<(String, Candidate)>,
    cs: Seq<Candidate>,
    p: Seq<(String, Candidate)>,
) -> bool {
    exists|ps: Seq<Seq<(String, Candidate)>>| #[trigger]
        filing_steps(ps, p0, cs, p)
}

pub open spec fn filing_steps(
    ps: Seq<Seq<(String, Candidate)>>,
    p0: Seq<(String, Candidate)>,
    cs: Seq<Candidate>,
    p: Seq<(String, Candidate)>,
) -> bool {
    &&& ps.len() == cs.len() + 1
    &&& ps[0] == p0
    &&& ps[cs.len() as int] == p
    &&& forall|i: int| 0 <= i < cs.len() ==> upsert_post(#[trigger] ps[i], cs[i], ps[i + 1])
}

proof fn lemma_filed_empty(p: Seq<(String, Candidate)>)
    ensures
        filed_from(p, Seq::empty(), p),
{
    assert(filing_steps(seq![p], p, Seq::empty(), p));
}

proof fn lemma_filed_push(
    p0: Seq<(String, Candidate)>,
    cs: Seq<Candidate>,
    p1: Seq<(String, Candidate)>,
    c: Candidate,
    p2: Seq<(String, Candidate)>,
)
    requires
        filed_from(p0, cs, p1),
        upsert_post(p1, c, p2),
    ensures
        filed_from(p0, cs.push(c), p2),
{
    let ps = choose|ps: Seq<Seq<(String, Candidate)>>| #[trigger] filing_steps(ps, p0, cs, p1);
    let qs = ps.push(p2);
    assert forall|i: int| 0 <= i < cs.push(c).len() implies upsert_post(
        #[trigger] qs[i],
        cs.push(c)[i],
        qs[i + 1],
    ) by {
        if i < cs.len() {
            assert(qs[i] == ps[i]);
            assert(qs[i + 1] == ps[i + 1]);
        }
    }
    assert(filing_steps(qs, p0, cs.push(c), p2));
}


// ---------------------------------------------------------------------------
// What arrives in the pool
// ---------------------------------------------------------------------------

/// A title in a person's filmography.
#[derive(Clone, Debug)]
pub struct PersonCredit {
    pub tmdb_id: i64,
    pub title: String,
    pub year: Option<i32>,
    pub job: String,
}

/// One film offered to the pool, and why.
pub enum Arrival {
    Related { item: RelatedItem, seed: FilmRecord, kind: RetrievalKind, label: Seq<char> },
    Credit { person: FeatureAffinity, pid: i64, credit: PersonCredit },
    Watch { film: FilmRecord },
}

/// At most the first `n` entries.
pub open spec fn first_n<A>(s: Seq<A>, n: int) -> Seq<A> {
    if s.len() > n {
        s.take(n)
    } else {
        s
    }
}

pub open spec fn rec_label(title: Seq<char>) -> Seq<char> {
    "recommended from "@ + title
}

pub open spec fn sim_label(title: Seq<char>) -> Seq<char> {
    "similar to "@ + title
}

/// The related items the viewer has not seen, as arrivals from `seed`.
pub open spec fn item_arrivals(
    items: Seq<RelatedItem>,
    seed: FilmRecord,
    kind: RetrievalKind,
    label: Seq<char>,
    seen: Seq<Seq<char>>,
) -> Seq<Arrival>
    decreases items.len(),
{
    if items.len() == 0 {
        Seq::empty()
    } else {
        let r = item_arrivals(items.drop_last(), seed, kind, label, seen);
        let it = items.last();
        if seen.contains(identity_key_spec(item_tmdb_id(it.id@), it.title@, it.year)) {
            r
        } else {
            r.push(Arrival::Related { item: it, seed, kind, label })
        }
    }
}

/// Recommendations taken per seed.
pub const RECS_PER_SEED: usize = 8;
/// Similar titles taken per seed.
pub const SIMILAR_PER_SEED: usize = 3;
/// Seeds whose similar titles are taken.
pub const SIMILAR_SEED_CAP: usize = 40;

/// The arrivals from one seed: its first eight recommendations (or, with
/// `similar`, its first three similar titles) that the viewer has not seen.
pub open spec fn seed_arrivals(seed: FilmRecord, seen: Seq<Seq<char>>, similar: bool) -> Seq<Arrival> {
    if similar {
        item_arrivals(
            first_n(seed.similar@, SIMILAR_PER_SEED as int),
            seed,
            RetrievalKind::RelatedSimilar,
            sim_label(seed.title@),
            seen,
        )
    } else {
        item_arrivals(
            first_n(seed.recommendations@, RECS_PER_SEED as int),
            seed,
            RetrievalKind::RelatedRecommendations,
            rec_label(seed.title@),
            seen,
        )
    }
}

/// The arrivals from the seeds in `order`, seed after seed.
pub open spec fn related_arrivals(
    films: Seq<FilmRecord>,
    order: Seq<int>,
    seen: Seq<Seq<char>>,
    similar: bool,
) -> Seq<Arrival>
    decreases order.len(),
{
    if order.len() == 0 {
        Seq::empty()
    } else {
        related_arrivals(films, order.drop_last(), seen, similar) + seed_arrivals(
            films[order.last()],
            seen,
            similar,
        )
    }
}

/// The candidate an arrival becomes.
pub open spec fn arrival_candidate(c: Candidate, a: Arrival) -> bool {
    match a {
        Arrival::Related { item, seed, kind, label } => related_candidate(
            c,
            item,
            seed.tmdb_id,
            seed.rating,
            kind,
            label,
        ),
        Arrival::Credit { person, pid, credit } => credit_candidate(c, person, pid, credit),
        Arrival::Watch { film } => watch_candidate(c, film),
    }
}

/// The candidate a filmography title becomes: the title with the person as
/// its one credit, and one filmography source naming the person.
pub open spec fn credit_candidate(c: Candidate, person: FeatureAffinity, pid: i64, credit: PersonCredit) -> bool {
    &&& c.tmdb_id == Some(credit.tmdb_id)
    &&& c.title@ == credit.title@
    &&& c.year == credit.year
    &&& c.poster.is_none()
    &&& c.genres@.len() == 0
    &&& c.credits@.len() == 1
    &&& c.credits@[0].id == Some(pid)
    &&& c.credits@[0].name@ == person.key.name@
    &&& c.credits@[0].job@ == credit.job@
    &&& c.keywords@.len() == 0
    &&& c.runtime.is_none()
    &&& c.vote_count.is_none()
    &&& !c.watchlist
    &&& c.sources@.len() == 1
    &&& c.sources@[0].kind == RetrievalKind::Filmography
    &&& c.sources@[0].label@ == person.key.name@
    &&& c.sources@[0].seed_tmdb_id.is_none()
    &&& c.sources@[0].seed_rating.is_none()
    &&& c.friend_affinity == 0
    &&& c.tmdb_related == 0
    &&& c.media_kind == MediaKind::Movie
}

pub open spec fn credit_views(cs: Seq<Credit>) -> Seq<(Option<i64>, Seq<char>, Seq<char>)> {
    cs.map_values(|c: Credit| (c.id, c.name@, c.job@))
}

pub open spec fn keyword_views(ks: Seq<Keyword>) -> Seq<(Option<i64>, Seq<char>)> {
    ks.map_values(|k: Keyword| (k.id, k.name@))
}

/// The candidate an unwatched watchlist film becomes: the film's catalog
/// facts, flagged as watchlist, with one watchlist source.
pub open spec fn watch_candidate(c: Candidate, f: FilmRecord) -> bool {
    &&& c.tmdb_id == f.tmdb_id
    &&& c.title@ == f.title@
    &&& c.year == f.year
    &&& opt_text(c.poster) == opt_text(f.poster)
    &&& strs(c.genres@) == strs(f.genres@)
    &&& credit_views(c.credits@) == credit_views(f.credits@)
    &&& keyword_views(c.keywords@) == keyword_views(f.keywords@)
    &&& c.runtime == f.runtime
    &&& c.vote_count == f.vote_count
    &&& c.watchlist
    &&& c.sources@.len() == 1
    &&& c.sources@[0].kind == RetrievalKind::Watchlist
    &&& c.sources@[0].label@ == "watchlist"@
    &&& c.sources@[0].seed_tmdb_id.is_none()
    &&& c.sources@[0].seed_rating.is_none()
    &&& c.friend_affinity == 0
    &&& c.tmdb_related == 0
    &&& c.media_kind == MediaKind::Movie
}

pub open spec fn arrivals_match(cs: Seq<Candidate>, arr: Seq<Arrival>) -> bool {
    cs.len() == arr.len() && forall|i: int| 0 <= i < arr.len() ==> arrival_candidate(#[trigger] cs[i], arr[i])
}

proof fn lemma_match_push(a: Seq<Candidate>, x: Seq<Arrival>, c: Candidate, y: Arrival)
    requires
        arrivals_match(a, x),
        arrival_candidate(c, y),
    ensures
        arrivals_match(a.push(c), x.push(y)),
{
    assert forall|i: int| 0 <= i < x.push(y).len() implies arrival_candidate(#[trigger] a.push(c)[i], x.push(y)[i]) by {
        if i < x.len() {
            assert(a.push(c)[i] == a[i]);
        }
    }
}

proof fn lemma_match_join(a: Seq<Candidate>, x: Seq<Arrival>, b: Seq<Candidate>, y: Seq<Arrival>)
    requires
        arrivals_match(a, x),
        arrivals_match(b, y),
    ensures
        arrivals_match(a + b, x + y),
{
    assert forall|i: int| 0 <= i < (x + y).len() implies arrival_candidate(#[trigger] (a + b)[i], (x + y)[i]) by {
        if i < x.len() {
            assert((a + b)[i] == a[i]);
        } else {
            assert((a + b)[i] == b[i - x.len()]);
        }
    }
}

pub open spec fn seen_views(seen: Seq<String>) -> Seq<Seq<char>> {
    seen.map_values(|t: String| t@)
}

fn label_for(prefix: &str, title: &String) -> (l: String)
    ensures
        l@ == prefix@ + title@,
{
    let mut v = chars_of(prefix);
    append_str(&mut v, title.as_str());
    string_of(&v)
}


/// Files the unseen items among the first `cap` of `items` as arrivals from
/// `seed`, continuing a run of filings that started from `p0`.
fn file_items(
    pool: &mut Vec<(String, Candidate)>,
    seen: &[String],
    seed: &FilmRecord,
    items: &Vec<RelatedItem>,
    cap: usize,
    kind: RetrievalKind,
    label: &String,
    Ghost(p0): Ghost<Seq<(String, Candidate)>>,
    Ghost(cs0): Ghost<Seq<Candidate>>,
) -> (cs: Ghost<Seq<Candidate>>)
    requires
        filed_from(p0, cs0, old(pool)@),
    ensures
        arrivals_match(
            cs@,
            item_arrivals(first_n(items@, cap as int), *seed, kind, label@, seen_views(seen@)),
        ),
        filed_from(p0, cs0 + cs@, final(pool)@),
{
    let ghost all = first_n(items@, cap as int);
    let ghost mut cs: Seq<Candidate> = Seq::empty();
    assert(cs0 + cs =~= cs0);
    let n = if items.len() > cap {
        cap
    } else {
        items.len()
    };
    let mut i: usize = 0;
    while i < n
        invariant
            i <= n,
            n == all.len(),
            n <= items.len(),
            all == first_n(items@, cap as int),
            forall|k: int| 0 <= k < n ==> all[k] == items@[k],
            arrivals_match(cs, item_arrivals(all.take(i as int), *seed, kind, label@, seen_views(seen@))),
            filed_from(p0, cs0 + cs, pool@),
        decreases n - i,
    {
        let item = copy_item(&items[i]);
        let ghost orig = items@[i as int];
        let ghost before = pool@;
        let lab = label.clone();
        assert(all.take(i + 1).drop_last() =~= all.take(i as int));
        assert(all.take(i + 1).last() == orig);
        push_related(pool, seen, seed.tmdb_id, seed.rating, item, kind, lab);
        proof {
            let key = identity_key_spec(item_tmdb_id(orig.id@), orig.title@, orig.year);
            if !seen_views(seen@).contains(key) {
                let c = choose|c: Candidate|
                    #[trigger] related_candidate(c, item, seed.tmdb_id, seed.rating, kind, lab@)
                        && upsert_post(before, c, pool@);
                assert(related_candidate(c, orig, seed.tmdb_id, seed.rating, kind, label@));
                lemma_filed_push(p0, cs0 + cs, before, c, pool@);
                lemma_match_push(
                    cs,
                    item_arrivals(all.take(i as int), *seed, kind, label@, seen_views(seen@)),
                    c,
                    Arrival::Related { item: orig, seed: *seed, kind, label: label@ },
                );
                assert((cs0 + cs).push(c) =~= cs0 + cs.push(c));
                cs = cs.push(c);
            }
        }
        i += 1;
    }
    assert(all.take(n as int) =~= all);
    Ghost(cs)
}


/// Files the arrivals from the first `upto` seeds of `order`: their
/// recommendations, or with `similar` their similar titles.
fn file_related(
    pool: &mut Vec<(String, Candidate)>,
    films: &[FilmRecord],
    order: &Vec<usize>,
    upto: usize,
    seen: &[String],
    similar: bool,
    Ghost(p0): Ghost<Seq<(String, Candidate)>>,
    Ghost(cs0): Ghost<Seq<Candidate>>,
) -> (cs: Ghost<Seq<Candidate>>)
    requires
        filed_from(p0, cs0, old(pool)@),
        upto <= order.len(),
        forall|k: int| 0 <= k < order.len() ==> #[trigger] order@[k] < films.len(),
    ensures
        arrivals_match(
            cs@,
            related_arrivals(films@, as_ints(order@).take(upto as int), seen_views(seen@), similar),
        ),
        filed_from(p0, cs0 + cs@, final(pool)@),
{
    let ghost ord = as_ints(order@);
    let ghost mut cs: Seq<Candidate> = Seq::empty();
    assert(cs0 + cs =~= cs0);
    let mut k: usize = 0;
    while k < upto
        invariant
            k <= upto,
            upto <= order.len(),
            ord == as_ints(order@),
            forall|q: int| 0 <= q < order.len() ==> #[trigger] order@[q] < films.len(),
            arrivals_match(cs, related_arrivals(films@, ord.take(k as int), seen_views(seen@), similar)),
            filed_from(p0, cs0 + cs, pool@),
        decreases upto - k,
    {
        let idx = order[k];
        let seed = &films[idx];
        assert(ord.take(k + 1).drop_last() =~= ord.take(k as int));
        assert(ord.take(k + 1).last() == idx as int);
        let more = if similar {
            let label = label_for("similar to ", &seed.title);
            file_items(
                pool,
                seen,
                seed,
                &seed.similar,
                SIMILAR_PER_SEED,
                RetrievalKind::RelatedSimilar,
                &label,
                Ghost(p0),
                Ghost(cs0 + cs),
            )
        } else {
            let label = label_for("recommended from ", &seed.title);
            file_items(
                pool,
                seen,
                seed,
                &seed.recommendations,
                RECS_PER_SEED,
                RetrievalKind::RelatedRecommendations,
                &label,
                Ghost(p0),
                Ghost(cs0 + cs),
            )
        };
        proof {
            lemma_match_join(
                cs,
                related_arrivals(films@, ord.take(k as int), seen_views(seen@), similar),
                more@,
                seed_arrivals(*seed, seen_views(seen@), similar),
            );
            assert((cs0 + cs) + more@ =~= cs0 + (cs + more@));
            cs = cs + more@;
        }
        k += 1;
    }
    Ghost(cs)
}


// ---------------------------------------------------------------------------
// Filmographies of cited people
// ---------------------------------------------------------------------------

/// The filmography listed for person `pid` (the first entry for them), or
/// nothing.
pub open spec fn credits_of(all: Seq<(i64, Vec<PersonCredit>)>, pid: i64) -> Seq<PersonCredit>
    decreases all.len(),
{
    if all.len() == 0 {
        Seq::empty()
    } else if all[0].0 == pid {
        all[0].1@
    } else {
        credits_of(all.drop_first(), pid)
    }
}

/// The credits in the job that made the person an affinity.
pub open spec fn kept_credits(cs: Seq<PersonCredit>, family: FeatureFamily) -> Seq<PersonCredit>
    decreases cs.len(),
{
    if cs.len() == 0 {
        Seq::empty()
    } else {
        let r = kept_credits(cs.drop_last(), family);
        if job_family(cs.last().job@) == Some(family) {
            r.push(cs.last())
        } else {
            r
        }
    }
}

/// The credits the viewer has not seen, as arrivals from the person.
pub open spec fn credit_arrivals(
    cs: Seq<PersonCredit>,
    person: FeatureAffinity,
    pid: i64,
    seen: Seq<Seq<char>>,
) -> Seq<Arrival>
    decreases cs.len(),
{
    if cs.len() == 0 {
        Seq::empty()
    } else {
        let r = credit_arrivals(cs.drop_last(), person, pid, seen);
        let c = cs.last();
        if seen.contains(identity_key_spec(Some(c.tmdb_id), c.title@, c.year)) {
            r
        } else {
            r.push(Arrival::Credit { person, pid, credit: c })
        }
    }
}

/// The arrivals from one person: nothing unless their filmography may be
/// retrieved; else the first credits (up to the family's cap) in the job
/// that made them an affinity, less those the viewer has seen.
pub open spec fn person_arrivals(
    person: FeatureAffinity,
    all: Seq<(i64, Vec<PersonCredit>)>,
    seen: Seq<Seq<char>>,
) -> Seq<Arrival> {
    if filmography_allowed_spec(&person) {
        let pid = person.key.id.unwrap();
        credit_arrivals(
            first_n(
                kept_credits(credits_of(all, pid), person.key.family),
                credit_cap_spec(person.key.family) as int,
            ),
            person,
            pid,
            seen,
        )
    } else {
        Seq::empty()
    }
}

pub open spec fn filmography_arrivals(
    affs: Seq<FeatureAffinity>,
    all: Seq<(i64, Vec<PersonCredit>)>,
    seen: Seq<Seq<char>>,
) -> Seq<Arrival>
    decreases affs.len(),
{
    if affs.len() == 0 {
        Seq::empty()
    } else {
        filmography_arrivals(affs.drop_last(), all, seen) + person_arrivals(affs.last(), all, seen)
    }
}

fn credits_for<'a>(all: &'a [(i64, Vec<PersonCredit>)], pid: i64) -> (r: Option<&'a Vec<PersonCredit>>)
    ensures
        match r {
            Some(v) => v@ == credits_of(all@, pid),
            None => credits_of(all@, pid) == Seq::<PersonCredit>::empty(),
        },
{
    let mut i: usize = 0;
    assert(all@.skip(0) =~= all@);
    while i < all.len()
        invariant
            i <= all.len(),
            credits_of(all@, pid) == credits_of(all@.skip(i as int), pid),
        decreases all.len() - i,
    {
        assert(all@.skip(i as int).drop_first() =~= all@.skip(i + 1));
        if all[i].0 == pid {
            return Some(&all[i].1);
        }
        i += 1;
    }
    None
}

fn file_person(
    pool: &mut Vec<(String, Candidate)>,
    person: &FeatureAffinity,
    all: &[(i64, Vec<PersonCredit>)],
    seen: &[String],
    Ghost(p0): Ghost<Seq<(String, Candidate)>>,
    Ghost(cs0): Ghost<Seq<Candidate>>,
) -> (cs: Ghost<Seq<Candidate>>)
    requires
        filed_from(p0, cs0, old(pool)@),
    ensures
        arrivals_match(cs@, person_arrivals(*person, all@, seen_views(seen@))),
        filed_from(p0, cs0 + cs@, final(pool)@),
{
    let ghost mut cs: Seq<Candidate> = Seq::empty();
    assert(cs0 + cs =~= cs0);
    if !filmography_person_allowed(person) {
        return Ghost(cs);
    }
    let pid = match person.key.id {
        Some(p) => p,
        None => return Ghost(cs),
    };
    let family = person.key.family;
    let cap = filmography_credit_cap(family);
    let empty: Vec<PersonCredit> = Vec::new();
    let credits = match credits_for(all, pid) {
        Some(v) => v,
        None => &empty,
    };
    assert(credits@ == credits_of(all@, pid));
    let ghost sv = seen_views(seen@);
    let mut taken: usize = 0;
    let mut j: usize = 0;
    while j < credits.len()
        invariant
            j <= credits.len(),
            credits@ == credits_of(all@, pid),
            sv == seen_views(seen@),
            filmography_allowed_spec(person),
            pid == person.key.id.unwrap(),
            family == person.key.family,
            cap == credit_cap_spec(family),
            taken <= cap,
            taken == first_n(kept_credits(credits@.take(j as int), family), cap as int).len(),
            arrivals_match(
                cs,
                credit_arrivals(
                    first_n(kept_credits(credits@.take(j as int), family), cap as int),
                    *person,
                    pid,
                    sv,
                ),
            ),
            filed_from(p0, cs0 + cs, pool@),
        decreases credits.len() - j,
    {
        let credit = &credits[j];
        let ghost kept = kept_credits(credits@.take(j as int), family);
        assert(credits@.take(j + 1).drop_last() =~= credits@.take(j as int));
        assert(credits@.take(j + 1).last() == *credit);
        if keep_person_credit(credit.job.as_str(), family) {
            assert(kept_credits(credits@.take(j + 1), family) == kept.push(*credit));
            if taken < cap {
                assert(first_n(kept, cap as int) == kept);
                assert(first_n(kept.push(*credit), cap as int) == kept.push(*credit));
                assert(kept.push(*credit).drop_last() =~= kept);
                let key = identity_key(Some(credit.tmdb_id), credit.title.as_str(), credit.year);
                let key_chars = chars_of(key.as_str());
                if !key_seen(seen, &key_chars) {
                    let c = Candidate {
                        tmdb_id: Some(credit.tmdb_id),
                        title: credit.title.clone(),
                        year: credit.year,
                        poster: None,
                        genres: Vec::new(),
                        credits: vec![Credit { id: Some(pid), name: person.key.name.clone(), job: credit.job.clone() }],
                        keywords: Vec::new(),
                        runtime: None,
                        vote_count: None,
                        watchlist: false,
                        sources: vec![RetrievalSource::new(RetrievalKind::Filmography, person.key.name.clone(), None)],
                        friend_affinity: 0,
                        tmdb_related: 0,
                        media_kind: MediaKind::Movie,
                    };
                    let ghost before = pool@;
                    let ghost gc = c;
                    assert(credit_candidate(gc, *person, pid, *credit));
                    upsert_candidate(pool, c);
                    proof {
                        lemma_filed_push(p0, cs0 + cs, before, gc, pool@);
                        lemma_match_push(
                            cs,
                            credit_arrivals(first_n(kept, cap as int), *person, pid, sv),
                            gc,
                            Arrival::Credit { person: *person, pid, credit: *credit },
                        );
                        assert((cs0 + cs).push(gc) =~= cs0 + cs.push(gc));
                        cs = cs.push(gc);
                    }
                }
                taken += 1;
            } else {
                assert(first_n(kept.push(*credit), cap as int) =~= first_n(kept, cap as int));
            }
        } else {
            assert(kept_credits(credits@.take(j + 1), family) == kept);
        }
        j += 1;
    }
    assert(credits@.take(credits.len() as int) =~= credits@);
    Ghost(cs)
}

fn file_filmographies(
    pool: &mut Vec<(String, Candidate)>,
    affs: &Vec<FeatureAffinity>,
    all: &[(i64, Vec<PersonCredit>)],
    seen: &[String],
    Ghost(p0): Ghost<Seq<(String, Candidate)>>,
    Ghost(cs0): Ghost<Seq<Candidate>>,
) -> (cs: Ghost<Seq<Candidate>>)
    requires
        filed_from(p0, cs0, old(pool)@),
    ensures
        arrivals_match(cs@, filmography_arrivals(affs@, all@, seen_views(seen@))),
        filed_from(p0, cs0 + cs@, final(pool)@),
{
    let ghost mut cs: Seq<Candidate> = Seq::empty();
    assert(cs0 + cs =~= cs0);
    let mut k: usize = 0;
    while k < affs.len()
        invariant
            k <= affs.len(),
            arrivals_match(cs, filmography_arrivals(affs@.take(k as int), all@, seen_views(seen@))),
            filed_from(p0, cs0 + cs, pool@),
        decreases affs.len() - k,
    {
        assert(affs@.take(k + 1).drop_last() =~= affs@.take(k as int));
        assert(affs@.take(k + 1).last() == affs@[k as int]);
        let more = file_person(pool, &affs[k], all, seen, Ghost(p0), Ghost(cs0 + cs));
        proof {
            lemma_match_join(
                cs,
                filmography_arrivals(affs@.take(k as int), all@, seen_views(seen@)),
                more@,
                person_arrivals(affs@[k as int], all@, seen_views(seen@)),
            );
            assert((cs0 + cs) + more@ =~= cs0 + (cs + more@));
            cs = cs + more@;
        }
        k += 1;
    }
    assert(affs@.take(affs.len() as int) =~= affs@);
    Ghost(cs)
}


// ---------------------------------------------------------------------------
// The watchlist, friends, and the whole gathering
// ---------------------------------------------------------------------------

/// The unwatched watchlist films the viewer has not seen, as arrivals.
pub open spec fn watch_arrivals(films: Seq<FilmRecord>, seen: Seq<Seq<char>>) -> Seq<Arrival>
    decreases films.len(),
{
    if films.len() == 0 {
        Seq::empty()
    } else {
        let r = watch_arrivals(films.drop_last(), seen);
        let f = films.last();
        if f.watchlist && !f.watched && !seen.contains(identity_key_spec(f.tmdb_id, f.title@, f.year)) {
            r.push(Arrival::Watch { film: f })
        } else {
            r
        }
    }
}

fn copy_strings(v: &Vec<String>) -> (out: Vec<String>)
    ensures
        strs(out@) == strs(v@),
{
    let mut out: Vec<String> = Vec::new();
    let mut i: usize = 0;
    while i < v.len()
        invariant
            i <= v.len(),
            strs(out@) == strs(v@.take(i as int)),
        decreases v.len() - i,
    {
        let ghost before = out@;
        out.push(v[i].clone());
        assert(strs(out@) =~= strs(before).push(v@[i as int]@));
        i += 1;
        assert(strs(v@.take(i as int)) =~= strs(v@.take(i - 1)).push(v@[i - 1]@));
    }
    assert(v@.take(v.len() as int) =~= v@);
    out
}

fn copy_credits(v: &Vec<Credit>) -> (out: Vec<Credit>)
    ensures
        credit_views(out@) == credit_views(v@),
{
    let mut out: Vec<Credit> = Vec::new();
    let mut i: usize = 0;
    while i < v.len()
        invariant
            i <= v.len(),
            credit_views(out@) == credit_views(v@.take(i as int)),
        decreases v.len() - i,
    {
        let ghost before = out@;
        let c = Credit { id: v[i].id, name: v[i].name.clone(), job: v[i].job.clone() };
        out.push(c);
        assert(credit_views(out@) =~= credit_views(before).push(
            (v@[i as int].id, v@[i as int].name@, v@[i as int].job@),
        ));
        i += 1;
        assert(credit_views(v@.take(i as int)) =~= credit_views(v@.take(i - 1)).push(
            (v@[i - 1].id, v@[i - 1].name@, v@[i - 1].job@),
        ));
    }
    assert(v@.take(v.len() as int) =~= v@);
    out
}

fn copy_keywords(v: &Vec<Keyword>) -> (out: Vec<Keyword>)
    ensures
        keyword_views(out@) == keyword_views(v@),
{
    let mut out: Vec<Keyword> = Vec::new();
    let mut i: usize = 0;
    while i < v.len()
        invariant
            i <= v.len(),
            keyword_views(out@) == keyword_views(v@.take(i as int)),
        decreases v.len() - i,
    {
        let ghost before = out@;
        out.push(Keyword { id: v[i].id, name: v[i].name.clone() });
        assert(keyword_views(out@) =~= keyword_views(before).push((v@[i as int].id, v@[i as int].name@)));
        i += 1;
        assert(keyword_views(v@.take(i as int)) =~= keyword_views(v@.take(i - 1)).push(
            (v@[i - 1].id, v@[i - 1].name@),
        ));
    }
    assert(v@.take(v.len() as int) =~= v@);
    out
}

/// The candidate an unwatched watchlist film becomes.
fn watch_entry(f: &FilmRecord) -> (c: Candidate)
    ensures
        watch_candidate(c, *f),
{
    Candidate {
        tmdb_id: f.tmdb_id,
        title: f.title.clone(),
        year: f.year,
        poster: match &f.poster {
            Some(p) => Some(p.clone()),
            None => None,
        },
        genres: copy_strings(&f.genres),
        credits: copy_credits(&f.credits),
        keywords: copy_keywords(&f.keywords),
        runtime: f.runtime,
        vote_count: f.vote_count,
        watchlist: true,
        sources: vec![
            RetrievalSource {
                kind: RetrievalKind::Watchlist,
                label: label_for("watchlist", &String::new()),
                seed_tmdb_id: None,
                seed_rating: None,
            },
        ],
        friend_affinity: 0,
        tmdb_related: 0,
        media_kind: MediaKind::Movie,
    }
}

fn file_watchlist(
    pool: &mut Vec<(String, Candidate)>,
    films: &[FilmRecord],
    seen: &[String],
    Ghost(p0): Ghost<Seq<(String, Candidate)>>,
    Ghost(cs0): Ghost<Seq<Candidate>>,
) -> (cs: Ghost<Seq<Candidate>>)
    requires
        filed_from(p0, cs0, old(pool)@),
    ensures
        arrivals_match(cs@, watch_arrivals(films@, seen_views(seen@))),
        filed_from(p0, cs0 + cs@, final(pool)@),
{
    let ghost mut cs: Seq<Candidate> = Seq::empty();
    assert(cs0 + cs =~= cs0);
    let mut i: usize = 0;
    while i < films.len()
        invariant
            i <= films.len(),
            arrivals_match(cs, watch_arrivals(films@.take(i as int), seen_views(seen@))),
            filed_from(p0, cs0 + cs, pool@),
        decreases films.len() - i,
    {
        let f = &films[i];
        assert(films@.take(i + 1).drop_last() =~= films@.take(i as int));
        assert(films@.take(i + 1).last() == *f);
        if f.watchlist && !f.watched {
            let key = identity_key(f.tmdb_id, f.title.as_str(), f.year);
            let key_chars = chars_of(key.as_str());
            if !key_seen(seen, &key_chars) {
                let c = watch_entry(f);
                let ghost before = pool@;
                let ghost gc = c;
                upsert_candidate(pool, c);
                proof {
                    lemma_filed_push(p0, cs0 + cs, before, gc, pool@);
                    lemma_match_push(
                        cs,
                        watch_arrivals(films@.take(i as int), seen_views(seen@)),
                        gc,
                        Arrival::Watch { film: *f },
                    );
                    assert((cs0 + cs).push(gc) =~= cs0 + cs.push(gc));
                    cs = cs.push(gc);
                }
            }
        }
        i += 1;
    }
    assert(films@.take(films.len() as int) =~= films@);
    Ghost(cs)
}

proof fn lemma_file_next(
    p0: Seq<(String, Candidate)>,
    cs0: Seq<Candidate>,
    all: Seq<Candidate>,
    t: int,
    before: Seq<(String, Candidate)>,
    after: Seq<(String, Candidate)>,
)
    requires
        0 <= t < all.len(),
        filed_from(p0, cs0 + all.take(t), before),
        upsert_post(before, all[t], after),
    ensures
        filed_from(p0, cs0 + all.take(t + 1), after),
{
    lemma_filed_push(p0, cs0 + all.take(t), before, all[t], after);
    assert((cs0 + all.take(t)).push(all[t]) =~= cs0 + all.take(t + 1));
}

fn file_all(
    pool: &mut Vec<(String, Candidate)>,
    cands: Vec<Candidate>,
    Ghost(p0): Ghost<Seq<(String, Candidate)>>,
    Ghost(cs0): Ghost<Seq<Candidate>>,
)
    requires
        filed_from(p0, cs0, old(pool)@),
    ensures
        filed_from(p0, cs0 + cands@, final(pool)@),
{
    let ghost all = cands@;
    let mut rest = cands;
    let n = rest.len();
    let mut t: usize = 0;
    assert(cs0 + all.take(0) =~= cs0);
    while t < n
        invariant
            t <= n,
            all.len() == n,
            rest@ == all.skip(t as int),
            filed_from(p0, cs0 + all.take(t as int), pool@),
        decreases n - t,
    {
        let c = rest.remove(0);
        let ghost before = pool@;
        upsert_candidate(pool, c);
        proof {
            lemma_file_next(p0, cs0, all, t as int, before, pool@);
        }
        t += 1;
        assert(rest@ =~= all.skip(t as int));
    }
    assert(all.take(n as int) =~= all);
}


/// Everything offered to the pool from the library, in filing order: the
/// seeds' recommendations, the similar titles of the first forty seeds, the
/// filmographies, and the unwatched watchlist.
pub open spec fn all_arrivals(
    films: Seq<FilmRecord>,
    affs: Seq<FeatureAffinity>,
    seen: Seq<Seq<char>>,
    credits: Seq<(i64, Vec<PersonCredit>)>,
) -> Seq<Arrival> {
    let order = seed_order(films);
    related_arrivals(films, order, seen, false) + related_arrivals(
        films,
        first_n(order, SIMILAR_SEED_CAP as int),
        seen,
        true,
    ) + filmography_arrivals(affs, credits, seen) + watch_arrivals(films, seen)
}

/// `pool` is what filing the arrivals (each as the candidate it becomes)
/// and then the friends' picks into an empty pool gives.
pub open spec fn gathered(
    films: Seq<FilmRecord>,
    affs: Seq<FeatureAffinity>,
    seen: Seq<Seq<char>>,
    credits: Seq<(i64, Vec<PersonCredit>)>,
    friends: Seq<Candidate>,
    pool: Seq<(String, Candidate)>,
) -> bool {
    exists|cs: Seq<Candidate>|
        #[trigger] arrivals_match(cs, all_arrivals(films, affs, seen, credits)) && filed_from(
            Seq::empty(),
            cs + friends,
            pool,
        )
}

/// How many of the ordered seeds satisfy `usable` (a related list) or,
/// without it, have their catalog facts.
pub open spec fn seed_count(films: Seq<FilmRecord>, order: Seq<int>, usable: bool) -> int
    decreases order.len(),
{
    if order.len() == 0 {
        0
    } else {
        seed_count(films, order.drop_last(), usable) + if (usable && usable_related_spec(
            films[order.last()],
        )) || (!usable && film_catalog_spec(films[order.last()])) {
            1int
        } else {
            0
        }
    }
}

pub open spec fn catalog_count(cs: Seq<Candidate>) -> int
    decreases cs.len(),
{
    if cs.len() == 0 {
        0
    } else {
        catalog_count(cs.drop_last()) + if candidate_catalog_spec(&cs.last()) {
            1int
        } else {
            0
        }
    }
}

fn count_seeds(films: &[FilmRecord], order: &Vec<usize>, usable: bool) -> (n: usize)
    requires
        forall|k: int| 0 <= k < order.len() ==> #[trigger] order@[k] < films.len(),
    ensures
        n == seed_count(films@, as_ints(order@), usable),
{
    let ghost ord = as_ints(order@);
    let mut n: usize = 0;
    let mut k: usize = 0;
    while k < order.len()
        invariant
            k <= order.len(),
            ord == as_ints(order@),
            forall|q: int| 0 <= q < order.len() ==> #[trigger] order@[q] < films.len(),
            n == seed_count(films@, ord.take(k as int), usable),
            n <= k,
        decreases order.len() - k,
    {
        assert(ord.take(k + 1).drop_last() =~= ord.take(k as int));
        let f = &films[order[k]];
        let hit = if usable {
            has_usable_related(f)
        } else {
            film_has_catalog(f)
        };
        if hit {
            n += 1;
        }
        k += 1;
    }
    assert(ord.take(order.len() as int) =~= ord);
    n
}

/// How many candidates have their catalog facts.
pub fn count_with_catalog(cs: &Vec<Candidate>) -> (n: usize)
    ensures
        n == catalog_count(cs@),
{
    let mut n: usize = 0;
    let mut k: usize = 0;
    while k < cs.len()
        invariant
            k <= cs.len(),
            n == catalog_count(cs@.take(k as int)),
            n <= k,
        decreases cs.len() - k,
    {
        assert(cs@.take(k + 1).drop_last() =~= cs@.take(k as int));
        if candidate_has_catalog(&cs[k]) {
            n += 1;
        }
        k += 1;
    }
    assert(cs@.take(cs.len() as int) =~= cs@);
    n
}

/// Gathers the candidate pool. Seeds are the eligible liked films, strongest
/// first; each contributes its first eight unseen recommendations, and the
/// first forty their first three unseen similar titles. People whose
/// filmography may be retrieved contribute their unseen credits in the job
/// that made them an affinity (`person_credits` holds the filmographies
/// fetched for them, by TMDB person id), then unwatched watchlist films and
/// the friends' picks are filed. Everything is filed by identity and the
/// pool is cut down fairly to the pool cap. The coverage counts the seeds,
/// those with a related list and those with catalog facts, and the
/// candidates with catalog facts.
pub fn retrieve_with_coverage(
    films: &[FilmRecord],
    profile: &FeatureProfile,
    seen: &[String],
    person_credits: &[(i64, Vec<PersonCredit>)],
    friends: Vec<Candidate>,
) -> (r: RetrievalResult)
    ensures
        r.coverage.eligible_seeds == seed_order(films@).len(),
        r.coverage.seeds_with_usable_related == seed_count(films@, seed_order(films@), true),
        r.coverage.seeds_refreshed == 0,
        r.coverage.seeds_with_catalog == seed_count(films@, seed_order(films@), false),
        r.coverage.candidates_with_catalog == catalog_count(r.candidates@),
        exists|pool: Seq<(String, Candidate)>|
            #[trigger] gathered(
                films@,
                profile.affinities@,
                seen_views(seen@),
                person_credits@,
                friends@,
                pool,
            ) && r.candidates@ == selected(pool, POOL_CAP).map_values(
                |i: usize| pool[i as int].1,
            ),
{
    let order = seed_indices(films);
    let ghost ord = as_ints(order@);
    let ghost sv = seen_views(seen@);
    proof {
        lemma_seed_order_bounds(films@, films@.len() as int);
        assert forall|k: int| 0 <= k < order.len() implies #[trigger] order@[k] < films.len() by {
            assert(ord[k] == order@[k] as int);
        }
    }
    let mut pool: Vec<(String, Candidate)> = Vec::new();
    let ghost p0 = pool@;
    let ghost e: Seq<Candidate> = Seq::empty();
    proof {
        lemma_filed_empty(p0);
    }
    let c1 = file_related(&mut pool, films, &order, order.len(), seen, false, Ghost(p0), Ghost(e));
    assert(ord.take(order.len() as int) =~= ord);
    assert(e + c1@ =~= c1@);
    let upto = if order.len() > SIMILAR_SEED_CAP {
        SIMILAR_SEED_CAP
    } else {
        order.len()
    };
    let c2 = file_related(&mut pool, films, &order, upto, seen, true, Ghost(p0), Ghost(c1@));
    assert(ord.take(upto as int) =~= first_n(ord, SIMILAR_SEED_CAP as int));
    let c3 = file_filmographies(
        &mut pool,
        &profile.affinities,
        person_credits,
        seen,
        Ghost(p0),
        Ghost(c1@ + c2@),
    );
    let c4 = file_watchlist(&mut pool, films, seen, Ghost(p0), Ghost(c1@ + c2@ + c3@));
    let ghost cs = c1@ + c2@ + c3@ + c4@;
    let ghost fr = friends@;
    file_all(&mut pool, friends, Ghost(p0), Ghost(cs));
    proof {
        lemma_match_join(
            c1@,
            related_arrivals(films@, ord, sv, false),
            c2@,
            related_arrivals(films@, first_n(ord, SIMILAR_SEED_CAP as int), sv, true),
        );
        lemma_match_join(
            c1@ + c2@,
            related_arrivals(films@, ord, sv, false) + related_arrivals(
                films@,
                first_n(ord, SIMILAR_SEED_CAP as int),
                sv,
                true,
            ),
            c3@,
            filmography_arrivals(profile.affinities@, person_credits@, sv),
        );
        lemma_match_join(
            c1@ + c2@ + c3@,
            related_arrivals(films@, ord, sv, false) + related_arrivals(
                films@,
                first_n(ord, SIMILAR_SEED_CAP as int),
                sv,
                true,
            ) + filmography_arrivals(profile.affinities@, person_credits@, sv),
            c4@,
            watch_arrivals(films@, sv),
        );
        assert(arrivals_match(cs, all_arrivals(films@, profile.affinities@, sv, person_credits@)));
        assert(gathered(films@, profile.affinities@, sv, person_credits@, fr, pool@));
    }
    let ghost final_pool = pool@;
    let eligible_seeds = order.len();
    let seeds_with_usable_related = count_seeds(films, &order, true);
    let seeds_with_catalog = count_seeds(films, &order, false);
    let candidates = select_fair_pool(pool, POOL_CAP);
    let candidates_with_catalog = count_with_catalog(&candidates);
    RetrievalResult {
        candidates,
        coverage: SeedCoverage {
            eligible_seeds,
            seeds_with_usable_related,
            seeds_refreshed: 0,
            seeds_with_catalog,
            candidates_with_catalog,
        },
    }
}


/// A seed of higher priority is taken before one of lower priority, and
/// never after it.
pub proof fn lemma_higher_priority_seed_first(a: FilmRecord, b: FilmRecord)
    requires
        seed_priority_spec(a) > seed_priority_spec(b),
    ensures
        seed_before(a, b),
        !seed_before(b, a),
{
}

} // verus!
