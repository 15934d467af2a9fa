//! Run logs kept on disk: which old logs to remove so that only the newest
//! twenty remain. Log files are named by their UTC time stamp, so name
//! order is age order.
use vstd::prelude::*;
use crate::explain::{seq_less, seq_lt};
use crate::features::strs;
use crate::text::{chars_of, has_suffix};

verus! {

/// Run logs kept.
pub const KEEP_RUNS: usize = 20;

/// A run log: a `.json` file other than the `latest.json` copy.
pub open spec fn is_run_log(name: Seq<char>) -> bool {
    has_suffix(name, ".json"@) && name != "latest.json"@
}

pub open spec fn run_logs(names: Seq<Seq<char>>) -> Seq<Seq<char>>
    decreases names.len(),
{
    if names.len() == 0 {
        Seq::empty()
    } else {
        let r = run_logs(names.drop_last());
        if is_run_log(names.last()) {
            r.push(names.last())
        } else {
            r
        }
    }
}

pub open spec fn name_slot(s: Seq<Seq<char>>, x: Seq<char>, i: int) -> int
    decreases s.len() - i,
{
    if i >= s.len() || i < 0 || seq_lt(x, s[i]) {
        i
    } else {
        name_slot(s, x, i + 1)
    }
}

/// The names in ascending order (a stable sort).
pub open spec fn sort_names(s: Seq<Seq<char>>) -> Seq<Seq<char>>
    decreases s.len(),
{
    if s.len() == 0 {
        Seq::empty()
    } else {
        let r = sort_names(s.drop_last());
        r.insert(name_slot(r, s.last(), 0), s.last())
    }
}

/// The oldest run logs beyond the twenty newest.
pub open spec fn logs_to_prune(names: Seq<Seq<char>>) -> Seq<Seq<char>> {
    let logs = sort_names(run_logs(names));
    if logs.len() > KEEP_RUNS {
        logs.take(logs.len() - KEEP_RUNS)
    } else {
        Seq::empty()
    }
}

fn ends_with_json(v: &Vec<char>) -> (b: bool)
    ensures
        b == has_suffix(v@, ".json"@),
{
    crate::text::ends_with_str(v, ".json")
}

fn is_latest(v: &Vec<char>) -> (b: bool)
    ensures
        b == (v@ == "latest.json"@),
{
    crate::text::eq_str(v, "latest.json")
}

/// The files of a run-log directory to remove: the run logs (`.json`
/// files other than `latest.json`) beyond the twenty newest by name,
/// oldest first.
pub fn runs_to_prune(names: &[String]) -> (out: Vec<String>)
    ensures
        strs(out@) == logs_to_prune(strs(names@)),
{
    let ghost all = strs(names@);
    let mut sorted: Vec<String> = Vec::new();
    let mut i: usize = 0;
    while i < names.len()
        invariant
            i <= names.len(),
            all == strs(names@),
            strs(sorted@) == sort_names(run_logs(all.take(i as int))),
        decreases names.len() - i,
    {
        assert(all.take(i + 1).drop_last() =~= all.take(i as int));
        assert(all.take(i + 1).last() == names@[i as int]@);
        let v = chars_of(names[i].as_str());
        if ends_with_json(&v) && !is_latest(&v) {
            let ghost r = strs(sorted@);
            let mut p: usize = 0;
            while p < sorted.len() && !seq_less(&v, &chars_of(sorted[p].as_str()))
                invariant
                    p <= sorted@.len(),
                    i < names@.len(),
                    r == strs(sorted@),
                    v@ == names@[i as int]@,
                    name_slot(r, v@, 0) == name_slot(r, v@, p as int),
                decreases sorted@.len() - p,
            {
                assert(r[p as int] == sorted@[p as int]@);
                p += 1;
            }
            proof {
                if p < sorted@.len() {
                    assert(r[p as int] == sorted@[p as int]@);
                }
            }
            sorted.insert(p, names[i].clone());
            assert(strs(sorted@) =~= r.insert(p as int, v@));
            let ghost logs = run_logs(all.take(i as int));
            assert(run_logs(all.take(i + 1)) == logs.push(v@));
            assert(logs.push(v@).drop_last() =~= logs);
            assert(sort_names(logs.push(v@)) == r.insert(name_slot(r, v@, 0), v@));
        }
        i += 1;
    }
    assert(all.take(names.len() as int) =~= all);
    if sorted.len() > KEEP_RUNS {
        let extra = sorted.len() - KEEP_RUNS;
        let ghost before = strs(sorted@);
        sorted.truncate(extra);
        assert(strs(sorted@) =~= before.take(extra as int));
        sorted
    } else {
        Vec::new()
    }
}

} // verus!
