//! Discovery: titles the critic proposes, and which of them are kept.
use vstd::prelude::*;
use crate::features::{strs, FeatureAffinity, FeatureFamily};
use crate::score::ScoredCandidate;
use crate::text::{seq_eq, trim, trimmed, chars_of, string_of};

verus! {

/// Total score (thousandths) a proposed title needs to be kept.
pub const DISCOVERY_FLOOR: i32 = 120;
/// At most this many proposed titles are kept per query.
pub const MAX_DISCOVERIES: usize = 3;
/// At most this many proposed titles are read from a reply.
pub const MAX_SEARCH_TITLES: usize = 8;

/// The proposed titles, trimmed, without blank ones, at most eight; years
/// are narrowed to `i32` as `as` does.
pub open spec fn search_titles_spec(entries: Seq<(String, Option<i64>)>) -> Seq<(Seq<char>, Option<i32>)>
    decreases entries.len(),
{
    if entries.len() == 0 {
        Seq::empty()
    } else {
        let r = search_titles_spec(entries.drop_last());
        let (t, y) = entries.last();
        if trim(t@).len() == 0 {
            r
        } else {
            r.push(
                (
                    trim(t@),
                    match y {
                        Some(v) => Some(v as i32),
                        None => None,
                    },
                ),
            )
        }
    }
}

pub open spec fn title_views(v: Seq<(String, Option<i32>)>) -> Seq<(Seq<char>, Option<i32>)> {
    v.map_values(|e: (String, Option<i32>)| (e.0@, e.1))
}

/// The titles of a discovery reply: `entries` are the `title` (or bare
/// string) and `year` of each entry of its `titles` (or `films`) array.
pub fn parse_search_titles(entries: &[(String, Option<i64>)]) -> (out: Vec<(String, Option<i32>)>)
    ensures
        title_views(out@) == {
            let all = search_titles_spec(entries@);
            if all.len() <= MAX_SEARCH_TITLES {
                all
            } else {
                all.take(MAX_SEARCH_TITLES as int)
            }
        },
{
    let mut out: Vec<(String, Option<i32>)> = Vec::new();
    let mut i: usize = 0;
    while i < entries.len()
        invariant
            i <= entries.len(),
            title_views(out@) == search_titles_spec(entries@.take(i as int)),
        decreases entries.len() - i,
    {
        assert(entries@.take((i + 1) as int).drop_last() =~= entries@.take(i as int));
        let t = trimmed(entries[i].0.as_str());
        if t.len() > 0 {
            let y: Option<i32> = match entries[i].1 {
                Some(v) => Some(v as i32),
                None => None,
            };
            let ghost before = out@;
            out.push((string_of(&t), y));
            assert(title_views(out@) =~= title_views(before).push((t@, y)));
        }
        i += 1;
    }
    assert(entries@.take(entries.len() as int) =~= entries@);
    if out.len() > MAX_SEARCH_TITLES {
        out.truncate(MAX_SEARCH_TITLES);
        assert(title_views(out@) =~= search_titles_spec(entries@).take(MAX_SEARCH_TITLES as int));
    }
    out
}

pub open spec fn sparse_family(f: FeatureFamily) -> bool {
    f == FeatureFamily::Keyword || f == FeatureFamily::Genre || f == FeatureFamily::Director
}

/// A feature the viewer rarely met but clearly liked.
pub open spec fn sparse_affinity(a: FeatureAffinity) -> bool {
    a.appearances <= 4 && a.confidence > 350 && a.recommendation_mean > 200 && sparse_family(
        a.key.family,
    )
}

/// The scored title carries the feature by name.
pub open spec fn carries_name(c: &ScoredCandidate, name: Seq<char>) -> bool {
    strs(c.positive_features@).contains(name) || strs(c.candidate.genres@).contains(name) || strs(
        c.candidate.directors@,
    ).contains(name)
}

/// Whether the title matches a sparse but clearly liked facet of the profile.
pub open spec fn sparse_facet_spec(affinities: Seq<FeatureAffinity>, c: &ScoredCandidate) -> bool {
    exists|i: int|
        0 <= i < affinities.len() && sparse_affinity(#[trigger] affinities[i]) && carries_name(
            c,
            affinities[i].key.name@,
        )
}

fn list_has(list: &Vec<String>, x: &Vec<char>) -> (b: bool)
    ensures
        b == strs(list@).contains(x@),
{
    let mut i: usize = 0;
    while i < list.len()
        invariant
            i <= list.len(),
            forall|k: int| 0 <= k < i ==> list@[k]@ != x@,
        decreases list.len() - i,
    {
        let v = chars_of(list[i].as_str());
        if seq_eq(&v, x) {
            assert(strs(list@)[i as int] == x@);
            return true;
        }
        i += 1;
    }
    assert forall|k: int| 0 <= k < strs(list@).len() implies strs(list@)[k] != x@ by {
        assert(strs(list@)[k] == list@[k]@);
    }
    false
}

/// Whether a proposed title matches a facet the viewer rarely met but
/// clearly liked: a keyword, genre or director seen at most four times, with
/// confidence above 0.35 and mean above 0.2.
pub fn matches_sparse_facet(affinities: &[FeatureAffinity], c: &ScoredCandidate) -> (b: bool)
    ensures
        b == sparse_facet_spec(affinities@, c),
{
    let mut i: usize = 0;
    while i < affinities.len()
        invariant
            i <= affinities.len(),
            forall|k: int|
                0 <= k < i ==> !(sparse_affinity(#[trigger] affinities@[k]) && carries_name(
                    c,
                    affinities@[k].key.name@,
                )),
        decreases affinities.len() - i,
    {
        let a = &affinities[i];
        let fam = a.key.family;
        if a.appearances <= 4 && a.confidence > 350 && a.recommendation_mean > 200 && (fam
            == FeatureFamily::Keyword || fam == FeatureFamily::Genre || fam
            == FeatureFamily::Director) {
            let n = chars_of(a.key.name.as_str());
            if list_has(&c.positive_features, &n) || list_has(&c.candidate.genres, &n) || list_has(
                &c.candidate.directors,
                &n,
            ) {
                return true;
            }
        }
        i += 1;
    }
    false
}

/// Whether a proposed title is kept: its total reaches the discovery floor,
/// or it matches a sparse liked facet.
pub fn keeps_discovery(affinities: &[FeatureAffinity], c: &ScoredCandidate) -> (b: bool)
    ensures
        b == (c.score.total >= DISCOVERY_FLOOR || sparse_facet_spec(affinities@, c)),
{
    c.score.total >= DISCOVERY_FLOOR || matches_sparse_facet(affinities, c)
}

} // verus!
