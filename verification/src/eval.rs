//! Board evaluation: what a finished board shows and where it leaks.
use vstd::prelude::*;
use std::collections::HashSet;
use crate::confidence::{
    capped_score_spec, judged_year, filmography_only, filmography_only_spec, has_kind,
    has_source_kind, match_score_at, related_only, related_only_spec,
    year_read, MATCH_SCORE_FLOOR, NEW_MATCH_FLOOR,
};
use crate::features::strs;
use crate::retrieve::{RetrievalKind, RetrievalSource};
use crate::score::ScoredCandidate;
use crate::text::{append_chars, chars_of, dec_i64, dec_int, string_of};

verus! {

/// Number of indices `i` in `[0, n)` for which `p(i)` holds.
pub open spec fn count_idx(n: int, p: spec_fn(int) -> bool) -> nat
    decreases n,
{
    if n <= 0 {
        0
    } else {
        count_idx(n - 1, p) + if p(n - 1) {
            1nat
        } else {
            0nat
        }
    }
}

/// The three boards of a workspace, each already in display order.
#[derive(Clone, Debug)]
pub struct Workspace {
    pub new_picks: Vec<ScoredCandidate>,
    pub explore_picks: Vec<ScoredCandidate>,
    pub watchlist_picks: Vec<ScoredCandidate>,
}

/// Every displayed row: New, then Explore, then Watchlist.
pub open spec fn displayed(ws: &Workspace) -> Seq<ScoredCandidate> {
    ws.new_picks@ + ws.explore_picks@ + ws.watchlist_picks@
}

/// The discovery rows: New, then Explore.
pub open spec fn discovery(ws: &Workspace) -> Seq<ScoredCandidate> {
    ws.new_picks@ + ws.explore_picks@
}

pub open spec fn tmdb_ids(s: Seq<ScoredCandidate>) -> Seq<Option<i64>> {
    s.map_values(|c: ScoredCandidate| c.candidate.tmdb_id)
}

/// Whether the row at `i` repeats a TMDB id shown earlier on the boards.
pub open spec fn repeats_earlier(ids: Seq<Option<i64>>, i: int) -> bool {
    ids[i] is Some && exists|j: int| 0 <= j < i && #[trigger] ids[j] == ids[i]
}

/// `"tmdb:{id}"` for each row that has a TMDB id, in order.
pub open spec fn ids_spec(s: Seq<ScoredCandidate>) -> Seq<Seq<char>>
    decreases s.len(),
{
    if s.len() == 0 {
        Seq::empty()
    } else {
        let r = ids_spec(s.drop_last());
        match s.last().candidate.tmdb_id {
            Some(id) => r.push("tmdb:"@ + dec_int(id as int)),
            None => r,
        }
    }
}

/// The `"tmdb:{id}"` keys of the rows that have a TMDB id, in order.
pub fn ids_of(scored: &[ScoredCandidate]) -> (out: Vec<String>)
    ensures
        strs(out@) == ids_spec(scored@),
{
    let mut out: Vec<String> = Vec::new();
    let mut i: usize = 0;
    while i < scored.len()
        invariant
            i <= scored.len(),
            strs(out@) == ids_spec(scored@.take(i as int)),
        decreases scored.len() - i,
    {
        assert(scored@.take((i + 1) as int).drop_last() =~= scored@.take(i as int));
        match scored[i].candidate.tmdb_id {
            Some(id) => {
                let mut k = chars_of("tmdb:");
                let d = dec_i64(id);
                append_chars(&mut k, &d);
                let ghost before = out@;
                out.push(string_of(&k));
                assert(strs(out@) =~= strs(before).push("tmdb:"@ + dec_int(id as int)));
            },
            None => {},
        }
        i += 1;
    }
    assert(scored@.take(scored.len() as int) =~= scored@);
    out
}

/// Band occupancy and leakage of the three boards.
#[derive(Clone, Copy, Debug, Default)]
pub struct BoardQuality {
    pub new_count: usize,
    pub explore_count: usize,
    pub watchlist_count: usize,
    pub new_related_only: usize,
    pub new_below_floor: usize,
    pub explore_outside_band: usize,
    pub seen_leakage: usize,
    pub board_overlap: usize,
    pub watchlist_on_discovery_boards: usize,
}

/// What [`board_quality_at`] reports, given the match blends of the New and
/// Explore rows.
pub open spec fn board_quality_spec(
    q: BoardQuality,
    ws: &Workspace,
    seen: Set<i64>,
    now_year: i32,
    new_blends: Seq<u8>,
    explore_blends: Seq<u8>,
) -> bool {
    let new = ws.new_picks@;
    let explore = ws.explore_picks@;
    let d = displayed(ws);
    let ids = tmdb_ids(d);
    let disc = discovery(ws);
    &&& q.new_count == new.len()
    &&& q.explore_count == explore.len()
    &&& q.watchlist_count == ws.watchlist_picks@.len()
    &&& q.new_related_only == count_idx(new.len() as int, |i: int| related_only_spec(&new[i]))
    &&& q.new_below_floor == count_idx(
        new.len() as int,
        |i: int| capped_score_spec(&new[i], now_year, new_blends[i]) < MATCH_SCORE_FLOOR,
    )
    &&& q.explore_outside_band == count_idx(
        explore.len() as int,
        |i: int|
            {
                let s = capped_score_spec(&explore[i], now_year, explore_blends[i]);
                s < MATCH_SCORE_FLOOR || s >= NEW_MATCH_FLOOR
            },
    )
    &&& q.seen_leakage == count_idx(
        d.len() as int,
        |i: int| ids[i] is Some && seen.contains(ids[i]->0),
    )
    &&& q.watchlist_on_discovery_boards == count_idx(
        disc.len() as int,
        |i: int| disc[i].candidate.watchlist,
    )
    &&& q.board_overlap == count_idx(d.len() as int, |i: int| repeats_earlier(ids, i))
}

fn push_ids(out: &mut Vec<Option<i64>>, rows: &Vec<ScoredCandidate>)
    ensures
        final(out)@ == old(out)@ + tmdb_ids(rows@),
{
    let ghost start = out@;
    let mut i: usize = 0;
    while i < rows.len()
        invariant
            i <= rows.len(),
            out@ == start + tmdb_ids(rows@.take(i as int)),
        decreases rows.len() - i,
    {
        out.push(rows[i].candidate.tmdb_id);
        assert(tmdb_ids(rows@.take((i + 1) as int)) =~= tmdb_ids(rows@.take(i as int)).push(
            rows@[i as int].candidate.tmdb_id,
        ));
        i += 1;
    }
    assert(rows@.take(rows.len() as int) =~= rows@);
}

fn count_related_only(rows: &Vec<ScoredCandidate>) -> (n: usize)
    ensures
        n == count_idx(rows@.len() as int, |i: int| related_only_spec(&rows@[i])),
{
    let ghost p = |i: int| related_only_spec(&rows@[i]);
    let mut n: usize = 0;
    let mut i: usize = 0;
    while i < rows.len()
        invariant
            i <= rows.len(),
            n <= i,
            n == count_idx(i as int, p),
            p == (|i: int| related_only_spec(&rows@[i])),
        decreases rows.len() - i,
    {
        if related_only(&rows[i]) {
            n += 1;
        }
        i += 1;
    }
    n
}

fn count_scores(rows: &Vec<ScoredCandidate>, now_year: i32, blends: &[u8], explore: bool) -> (n:
    usize)
    requires
        blends.len() == rows.len(),
    ensures
        !explore ==> n == count_idx(
            rows@.len() as int,
            |i: int| capped_score_spec(&rows@[i], now_year, blends@[i]) < MATCH_SCORE_FLOOR,
        ),
        explore ==> n == count_idx(
            rows@.len() as int,
            |i: int|
                {
                    let s = capped_score_spec(&rows@[i], now_year, blends@[i]);
                    s < MATCH_SCORE_FLOOR || s >= NEW_MATCH_FLOOR
                },
        ),
{
    let ghost p = |i: int|
        {
            let s = capped_score_spec(&rows@[i], now_year, blends@[i]);
            if explore {
                s < MATCH_SCORE_FLOOR || s >= NEW_MATCH_FLOOR
            } else {
                s < MATCH_SCORE_FLOOR
            }
        };
    let mut n: usize = 0;
    let mut i: usize = 0;
    while i < rows.len()
        invariant
            i <= rows.len(),
            blends.len() == rows.len(),
            n <= i,
            n == count_idx(i as int, p),
            p == (|i: int|
                {
                    let s = capped_score_spec(&rows@[i], now_year, blends@[i]);
                    if explore {
                        s < MATCH_SCORE_FLOOR || s >= NEW_MATCH_FLOOR
                    } else {
                        s < MATCH_SCORE_FLOOR
                    }
                }),
        decreases rows.len() - i,
    {
        let s = match_score_at(&rows[i], now_year, blends[i]);
        let hit = if explore {
            s < MATCH_SCORE_FLOOR || s >= NEW_MATCH_FLOOR
        } else {
            s < MATCH_SCORE_FLOOR
        };
        if hit {
            n += 1;
        }
        i += 1;
    }
    proof {
        if explore {
            lemma_count_idx_ext(
                rows@.len() as int,
                p,
                |i: int|
                    {
                        let s = capped_score_spec(&rows@[i], now_year, blends@[i]);
                        s < MATCH_SCORE_FLOOR || s >= NEW_MATCH_FLOOR
                    },
            );
        } else {
            lemma_count_idx_ext(
                rows@.len() as int,
                p,
                |i: int| capped_score_spec(&rows@[i], now_year, blends@[i]) < MATCH_SCORE_FLOOR,
            );
        }
    }
    n
}

/// Counting agrees for predicates that agree below `n`.
pub proof fn lemma_count_idx_ext(n: int, p: spec_fn(int) -> bool, q: spec_fn(int) -> bool)
    requires
        forall|i: int| 0 <= i < n ==> #[trigger] p(i) == q(i),
    ensures
        count_idx(n, p) == count_idx(n, q),
    decreases n,
{
    if n > 0 {
        lemma_count_idx_ext(n - 1, p, q);
    }
}

/// Band occupancy and leakage of a workspace, for the match blends of its
/// New and Explore rows in the given year.
pub fn board_quality_at(
    ws: &Workspace,
    seen: &HashSet<i64>,
    now_year: i32,
    new_blends: &[u8],
    explore_blends: &[u8],
) -> (q: BoardQuality)
    requires
        new_blends.len() == ws.new_picks.len(),
        explore_blends.len() == ws.explore_picks.len(),
    ensures
        board_quality_spec(q, ws, seen@, now_year, new_blends@, explore_blends@),
{
    broadcast use vstd::std_specs::hash::group_hash_axioms;

    let new_related_only = count_related_only(&ws.new_picks);
    let new_below_floor = count_scores(&ws.new_picks, now_year, new_blends, false);
    let explore_outside_band = count_scores(&ws.explore_picks, now_year, explore_blends, true);
    let mut ids: Vec<Option<i64>> = Vec::new();
    push_ids(&mut ids, &ws.new_picks);
    push_ids(&mut ids, &ws.explore_picks);
    push_ids(&mut ids, &ws.watchlist_picks);
    let ghost d = displayed(ws);
    proof {
        assert(tmdb_ids(d) =~= tmdb_ids(ws.new_picks@) + tmdb_ids(ws.explore_picks@) + tmdb_ids(
            ws.watchlist_picks@,
        ));
        assert(ids@ =~= tmdb_ids(d));
    }
    let ghost pl = |i: int| ids@[i] is Some && seen@.contains(ids@[i]->0);
    let ghost po = |i: int| repeats_earlier(ids@, i);
    let mut seen_leakage: usize = 0;
    let mut board_overlap: usize = 0;
    let mut shown: HashSet<i64> = HashSet::new();
    let mut i: usize = 0;
    while i < ids.len()
        invariant
            i <= ids.len(),
            seen_leakage <= i,
            board_overlap <= i,
            seen_leakage == count_idx(i as int, pl),
            board_overlap == count_idx(i as int, po),
            pl == (|i: int| ids@[i] is Some && seen@.contains(ids@[i]->0)),
            po == (|i: int| repeats_earlier(ids@, i)),
            forall|id: i64|
                shown@.contains(id) <==> exists|j: int| 0 <= j < i && #[trigger] ids@[j] == Some(id),
        decreases ids.len() - i,
    {
        match ids[i] {
            Some(id) => {
                if seen.contains(&id) {
                    seen_leakage += 1;
                }
                let fresh = shown.insert(id);
                if !fresh {
                    board_overlap += 1;
                    assert(repeats_earlier(ids@, i as int));
                } else {
                    assert(!repeats_earlier(ids@, i as int));
                }
                assert forall|x: i64|
                    shown@.contains(x) <==> exists|j: int|
                        0 <= j < i + 1 && #[trigger] ids@[j] == Some(x) by {
                    if x == id {
                        assert(ids@[i as int] == Some(x));
                    }
                }
            },
            None => {
                assert forall|x: i64|
                    shown@.contains(x) <==> exists|j: int|
                        0 <= j < i + 1 && #[trigger] ids@[j] == Some(x) by {
                    if exists|j: int| 0 <= j < i + 1 && #[trigger] ids@[j] == Some(x) {
                        let j = choose|j: int| 0 <= j < i + 1 && #[trigger] ids@[j] == Some(x);
                        assert(j != i);
                    }
                }
            },
        }
        i += 1;
    }
    assert(ids@.len() == d.len());
    let ghost disc = discovery(ws);
    let ghost pw = |i: int| disc[i].candidate.watchlist;
    let mut wl: usize = 0;
    let mut k: usize = 0;
    while k < ws.new_picks.len()
        invariant
            k <= ws.new_picks.len(),
            wl <= k,
            disc == ws.new_picks@ + ws.explore_picks@,
            wl == count_idx(k as int, pw),
            pw == (|i: int| disc[i].candidate.watchlist),
        decreases ws.new_picks.len() - k,
    {
        if ws.new_picks[k].candidate.watchlist {
            wl += 1;
        }
        k += 1;
    }
    let mut k: usize = 0;
    while k < ws.explore_picks.len()
        invariant
            k <= ws.explore_picks.len(),
            wl <= ws.new_picks.len() + k,
            ws.new_picks.len() + ws.explore_picks.len() <= ids.len(),
            disc == ws.new_picks@ + ws.explore_picks@,
            wl == count_idx(ws.new_picks.len() + k, pw),
            pw == (|i: int| disc[i].candidate.watchlist),
        decreases ws.explore_picks.len() - k,
    {
        assert(disc[ws.new_picks.len() + k] == ws.explore_picks@[k as int]);
        if ws.explore_picks[k].candidate.watchlist {
            wl += 1;
        }
        k += 1;
    }
    BoardQuality {
        new_count: ws.new_picks.len(),
        explore_count: ws.explore_picks.len(),
        watchlist_count: ws.watchlist_picks.len(),
        new_related_only,
        new_below_floor,
        explore_outside_band,
        seen_leakage,
        board_overlap,
        watchlist_on_discovery_boards: wl,
    }
}

/// [`board_quality_at`] for the current year (see [`current_year`]; when it cannot be read,
/// no film counts as dated after it).
pub fn board_quality(
    ws: &Workspace,
    seen: &HashSet<i64>,
    new_blends: &[u8],
    explore_blends: &[u8],
) -> (q: BoardQuality)
    requires
        new_blends.len() == ws.new_picks.len(),
        explore_blends.len() == ws.explore_picks.len(),
    ensures
        exists|y: Option<i32>| board_quality_spec(q, ws, seen@, year_read(y), new_blends@, explore_blends@),
{
    board_quality_at(ws, seen, judged_year(), new_blends, explore_blends)
}

/// How many rows each retrieval source contributed. A row counts under every
/// source kind it carries.
#[derive(Clone, Copy, Debug, Default)]
pub struct SourceMix {
    pub related_recommendations: usize,
    pub related_similar: usize,
    pub related_legacy: usize,
    pub filmography_only: usize,
    pub watchlist: usize,
    pub friend: usize,
}

pub open spec fn source_mix_spec(m: SourceMix, rows: Seq<ScoredCandidate>) -> bool {
    let n = rows.len() as int;
    &&& m.related_recommendations == count_idx(
        n,
        |i: int| has_kind(&rows[i], RetrievalKind::RelatedRecommendations),
    )
    &&& m.related_similar == count_idx(n, |i: int| has_kind(&rows[i], RetrievalKind::RelatedSimilar))
    &&& m.related_legacy == count_idx(n, |i: int| has_kind(&rows[i], RetrievalKind::Related))
    &&& m.filmography_only == count_idx(n, |i: int| filmography_only_spec(&rows[i]))
    &&& m.watchlist == count_idx(n, |i: int| rows[i].candidate.watchlist)
    &&& m.friend == count_idx(n, |i: int| has_kind(&rows[i], RetrievalKind::Friend))
}

/// Per-source row counts of a scored pool.
pub fn source_mix(rows: &[ScoredCandidate]) -> (m: SourceMix)
    ensures
        source_mix_spec(m, rows@),
{
    let ghost s = rows@;
    let ghost p_rec = |i: int| has_kind(&s[i], RetrievalKind::RelatedRecommendations);
    let ghost p_sim = |i: int| has_kind(&s[i], RetrievalKind::RelatedSimilar);
    let ghost p_rel = |i: int| has_kind(&s[i], RetrievalKind::Related);
    let ghost p_film = |i: int| filmography_only_spec(&s[i]);
    let ghost p_wl = |i: int| s[i].candidate.watchlist;
    let ghost p_fr = |i: int| has_kind(&s[i], RetrievalKind::Friend);
    let mut m = SourceMix {
        related_recommendations: 0,
        related_similar: 0,
        related_legacy: 0,
        filmography_only: 0,
        watchlist: 0,
        friend: 0,
    };
    let mut i: usize = 0;
    while i < rows.len()
        invariant
            i <= rows.len(),
            s == rows@,
            m.related_recommendations <= i && m.related_recommendations == count_idx(i as int, p_rec),
            m.related_similar <= i && m.related_similar == count_idx(i as int, p_sim),
            m.related_legacy <= i && m.related_legacy == count_idx(i as int, p_rel),
            m.filmography_only <= i && m.filmography_only == count_idx(i as int, p_film),
            m.watchlist <= i && m.watchlist == count_idx(i as int, p_wl),
            m.friend <= i && m.friend == count_idx(i as int, p_fr),
            p_rec == (|i: int| has_kind(&s[i], RetrievalKind::RelatedRecommendations)),
            p_sim == (|i: int| has_kind(&s[i], RetrievalKind::RelatedSimilar)),
            p_rel == (|i: int| has_kind(&s[i], RetrievalKind::Related)),
            p_film == (|i: int| filmography_only_spec(&s[i])),
            p_wl == (|i: int| s[i].candidate.watchlist),
            p_fr == (|i: int| has_kind(&s[i], RetrievalKind::Friend)),
        decreases rows.len() - i,
    {
        let c = &rows[i];
        if c.candidate.watchlist {
            m.watchlist = m.watchlist + 1;
        }
        if has_source_kind(c, RetrievalKind::Friend) {
            m.friend = m.friend + 1;
        }
        if has_source_kind(c, RetrievalKind::RelatedRecommendations) {
            m.related_recommendations = m.related_recommendations + 1;
        }
        if has_source_kind(c, RetrievalKind::RelatedSimilar) {
            m.related_similar = m.related_similar + 1;
        }
        if has_source_kind(c, RetrievalKind::Related) {
            m.related_legacy = m.related_legacy + 1;
        }
        if filmography_only(c) {
            m.filmography_only = m.filmography_only + 1;
        }
        i += 1;
    }
    m
}


/// The TMDB ids among the first `n` rows.
pub open spec fn id_set(ids: Seq<Option<i64>>, n: int) -> Set<i64>
    decreases n,
{
    if n <= 0 {
        Set::empty()
    } else {
        let r = id_set(ids, n - 1);
        match ids[n - 1] {
            Some(x) => r.insert(x),
            None => r,
        }
    }
}

proof fn lemma_id_set(ids: Seq<Option<i64>>, n: int)
    requires
        0 <= n <= ids.len(),
    ensures
        id_set(ids, n).finite(),
        forall|x: i64| id_set(ids, n).contains(x) <==> exists|j: int| 0 <= j < n && #[trigger] ids[j] == Some(x),
    decreases n,
{
    if n > 0 {
        lemma_id_set(ids, n - 1);
        assert forall|x: i64| id_set(ids, n).contains(x) <==> exists|j: int| 0 <= j < n && #[trigger] ids[j] == Some(x) by {
            if id_set(ids, n).contains(x) && ids[n - 1] != Some(x) {
                assert(id_set(ids, n - 1).contains(x));
                let j = choose|j: int| 0 <= j < n - 1 && #[trigger] ids[j] == Some(x);
                assert(0 <= j < n && ids[j] == Some(x));
            }
            if exists|j: int| 0 <= j < n && #[trigger] ids[j] == Some(x) {
                let j = choose|j: int| 0 <= j < n && #[trigger] ids[j] == Some(x);
                if j < n - 1 {
                    assert(id_set(ids, n - 1).contains(x));
                }
            }
        }
    }
}

/// The rows that repeat an earlier TMDB id are the rows with an id less
/// the number of distinct ids among them.
pub proof fn lemma_overlap_is_rows_less_distinct(ids: Seq<Option<i64>>, n: int)
    requires
        0 <= n <= ids.len(),
    ensures
        count_idx(n, |i: int| repeats_earlier(ids, i)) + id_set(ids, n).len() == count_idx(
            n,
            |i: int| ids[i] is Some,
        ),
    decreases n,
{
    if n > 0 {
        lemma_overlap_is_rows_less_distinct(ids, n - 1);
        lemma_id_set(ids, n - 1);
        let prev = id_set(ids, n - 1);
        match ids[n - 1] {
            Some(x) => {
                if prev.contains(x) {
                    let j = choose|j: int| 0 <= j < n - 1 && #[trigger] ids[j] == Some(x);
                    assert(ids[j] == ids[n - 1]);
                    assert(repeats_earlier(ids, n - 1));
                    assert(prev.insert(x) =~= prev);
                } else {
                    assert(!repeats_earlier(ids, n - 1)) by {
                        if repeats_earlier(ids, n - 1) {
                            let j = choose|j: int| 0 <= j < n - 1 && #[trigger] ids[j] == ids[n - 1];
                            assert(ids[j] == Some(x));
                        }
                    }
                }
            },
            None => {},
        }
    }
}

} // verus!
