//! The time-aware holdout used to replay recommendations: the newest
//! positively rated films are held out, and every held-out identity is
//! removed from both the training library and the seen set.
use vstd::prelude::*;
use crate::explain::{seq_less, seq_lt};
use crate::features::strs;
use crate::retrieve::{identity_key, identity_key_spec, FilmRecord};
use crate::text::chars_of;

verus! {

/// Rating (thousandths of a star) from which a film can be held out.
pub const HOLDOUT_RATING: i32 = 4000;

/// Positions in the library of the training films, and the identity keys
/// held out (newest first) and seen in training.
#[derive(Clone, Debug)]
pub struct ReplaySplit {
    pub training: Vec<usize>,
    pub held_out: Vec<String>,
    pub seen: Vec<String>,
}

pub open spec fn film_key(f: FilmRecord) -> Seq<char> {
    identity_key_spec(f.tmdb_id, f.title@, f.year)
}

/// The date a film is ordered by: its last date, or the empty text.
pub open spec fn date_text(f: FilmRecord) -> Seq<char> {
    match f.last_date {
        Some(d) => d@,
        None => Seq::empty(),
    }
}

pub open spec fn positive_positions(films: Seq<FilmRecord>, n: int) -> Seq<int>
    decreases n,
{
    if n <= 0 {
        Seq::empty()
    } else {
        let r = positive_positions(films, n - 1);
        if films[n - 1].rating.is_some() && films[n - 1].rating->0 >= HOLDOUT_RATING {
            r.push(n - 1)
        } else {
            r
        }
    }
}

pub open spec fn date_slot(films: Seq<FilmRecord>, s: Seq<int>, x: int, i: int) -> int
    decreases s.len() - i,
{
    if i >= s.len() || i < 0 || seq_lt(date_text(films[x]), date_text(films[s[i]])) {
        i
    } else {
        date_slot(films, s, x, i + 1)
    }
}

/// The positions by date, oldest first (a stable sort, so equal dates keep
/// library order).
pub open spec fn date_sort(films: Seq<FilmRecord>, s: Seq<int>) -> Seq<int>
    decreases s.len(),
{
    if s.len() == 0 {
        Seq::empty()
    } else {
        let r = date_sort(films, s.drop_last());
        r.insert(date_slot(films, r, s.last(), 0), s.last())
    }
}

/// The newest `h` positively rated films, newest first.
pub open spec fn held_positions(films: Seq<FilmRecord>, h: int) -> Seq<int> {
    let newest = date_sort(films, positive_positions(films, films.len() as int)).reverse();
    if newest.len() > h {
        newest.take(h)
    } else {
        newest
    }
}

pub open spec fn keys_at(films: Seq<FilmRecord>, ps: Seq<int>) -> Seq<Seq<char>> {
    ps.map_values(|p: int| film_key(films[p]))
}

/// The films whose identity is not held out, in library order.
pub open spec fn training_positions(films: Seq<FilmRecord>, held: Seq<Seq<char>>, n: int) -> Seq<int>
    decreases n,
{
    if n <= 0 {
        Seq::empty()
    } else {
        let r = training_positions(films, held, n - 1);
        if held.contains(film_key(films[n - 1])) {
            r
        } else {
            r.push(n - 1)
        }
    }
}

/// The identity keys of the watched or rated training films, in order.
pub open spec fn seen_in(films: Seq<FilmRecord>, ps: Seq<int>) -> Seq<Seq<char>>
    decreases ps.len(),
{
    if ps.len() == 0 {
        Seq::empty()
    } else {
        let r = seen_in(films, ps.drop_last());
        let f = films[ps.last()];
        if f.watched || f.rating.is_some() {
            r.push(film_key(f))
        } else {
            r
        }
    }
}

pub open spec fn positions(v: Seq<usize>) -> Seq<int> {
    v.map_values(|x: usize| x as int)
}

fn date_before(a: &FilmRecord, b: &FilmRecord) -> (r: bool)
    ensures
        r == seq_lt(date_text(*a), date_text(*b)),
{
    let x = match &a.last_date {
        Some(d) => chars_of(d.as_str()),
        None => Vec::new(),
    };
    let y = match &b.last_date {
        Some(d) => chars_of(d.as_str()),
        None => Vec::new(),
    };
    assert(x@ == date_text(*a));
    assert(y@ == date_text(*b));
    seq_less(&x, &y)
}

fn holds(keys: &Vec<String>, k: &String) -> (b: bool)
    ensures
        b == strs(keys@).contains(k@),
{
    let kc = chars_of(k.as_str());
    let mut i: usize = 0;
    while i < keys.len()
        invariant
            i <= keys.len(),
            kc@ == k@,
            forall|q: int| 0 <= q < i ==> keys@[q]@ != k@,
        decreases keys.len() - i,
    {
        if crate::text::seq_eq(&chars_of(keys[i].as_str()), &kc) {
            assert(strs(keys@)[i as int] == k@);
            return true;
        }
        i += 1;
    }
    assert forall|q: int| 0 <= q < strs(keys@).len() implies strs(keys@)[q] != k@ by {
        assert(keys@[q]@ != k@);
    }
    false
}

/// The replay split of a library: the identity keys of the `holdout_count`
/// newest films rated four stars or more (by last date, ties in library
/// order), the films whose identity is not among them, and what those
/// training films have seen.
pub fn replay_split(films: &[FilmRecord], holdout_count: usize) -> (s: ReplaySplit)
    ensures
        strs(s.held_out@) == keys_at(films@, held_positions(films@, holdout_count as int)),
        positions(s.training@) == training_positions(films@, strs(s.held_out@), films@.len() as int),
        strs(s.seen@) == seen_in(films@, positions(s.training@)),
{
    let ghost fs = films@;
    // The positive films by date.
    let mut sorted: Vec<usize> = Vec::new();
    let mut i: usize = 0;
    while i < films.len()
        invariant
            i <= films.len(),
            fs == films@,
            positions(sorted@) == date_sort(fs, positive_positions(fs, i as int)),
            forall|k: int| 0 <= k < sorted@.len() ==> (#[trigger] sorted@[k]) < i,
        decreases films.len() - i,
    {
        let positive = match films[i].rating {
            Some(r) => r >= HOLDOUT_RATING,
            None => false,
        };
        if positive {
            let ghost r = positions(sorted@);
            let mut p: usize = 0;
            while p < sorted.len() && !date_before(&films[i], &films[sorted[p]])
                invariant
                    p <= sorted@.len(),
                    fs == films@,
                    i < films.len(),
                    r == positions(sorted@),
                    forall|k: int| 0 <= k < sorted@.len() ==> (#[trigger] sorted@[k]) < i,
                    date_slot(fs, r, i as int, 0) == date_slot(fs, r, i as int, p as int),
                decreases sorted@.len() - p,
            {
                assert(r[p as int] == sorted@[p as int] as int);
                p += 1;
            }
            proof {
                if p < sorted@.len() {
                    assert(r[p as int] == sorted@[p as int] as int);
                }
                assert(positive_positions(fs, i + 1).drop_last() == positive_positions(fs, i as int));
            }
            sorted.insert(p, i);
            assert(positions(sorted@) =~= r.insert(p as int, i as int));
        }
        i += 1;
    }
    // The newest of them, newest first.
    let ghost newest = positions(sorted@).reverse();
    let h = if sorted.len() > holdout_count {
        holdout_count
    } else {
        sorted.len()
    };
    let ghost hp = held_positions(fs, holdout_count as int);
    assert(hp =~= newest.take(h as int));
    let mut held_out: Vec<String> = Vec::new();
    let mut q: usize = 0;
    while q < h
        invariant
            q <= h <= sorted@.len(),
            fs == films@,
            newest == positions(sorted@).reverse(),
            hp == newest.take(h as int),
            forall|k: int| 0 <= k < sorted@.len() ==> (#[trigger] sorted@[k]) < films@.len(),
            strs(held_out@) == keys_at(fs, hp.take(q as int)),
        decreases h - q,
    {
        let p = sorted[sorted.len() - 1 - q];
        assert(newest[q as int] == p as int);
        let ghost before = strs(held_out@);
        held_out.push(identity_key(films[p].tmdb_id, films[p].title.as_str(), films[p].year));
        assert(strs(held_out@) =~= before.push(film_key(fs[p as int])));
        q += 1;
        assert(keys_at(fs, hp.take(q as int)) =~= keys_at(fs, hp.take(q - 1)).push(film_key(fs[hp[q - 1]])));
    }
    assert(hp.take(h as int) =~= hp);
    let ghost held = strs(held_out@);
    // The training films and what they have seen.
    let mut training: Vec<usize> = Vec::new();
    let mut seen: Vec<String> = Vec::new();
    let mut t: usize = 0;
    while t < films.len()
        invariant
            t <= films.len(),
            fs == films@,
            held == strs(held_out@),
            positions(training@) == training_positions(fs, held, t as int),
            strs(seen@) == seen_in(fs, positions(training@)),
        decreases films.len() - t,
    {
        let key = identity_key(films[t].tmdb_id, films[t].title.as_str(), films[t].year);
        if !holds(&held_out, &key) {
            let ghost before = positions(training@);
            training.push(t);
            assert(positions(training@) =~= before.push(t as int));
            assert(positions(training@).drop_last() =~= before);
            if films[t].watched || films[t].rating.is_some() {
                let ghost sb = strs(seen@);
                seen.push(key);
                assert(strs(seen@) =~= sb.push(film_key(fs[t as int])));
            }
        }
        t += 1;
    }
    ReplaySplit { training, held_out, seen }
}

} // verus!
