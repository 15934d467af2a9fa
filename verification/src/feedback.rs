//! Per-title feedback: the actions a user can take on a card, their
//! validation, and which titles feedback hides.
use vstd::prelude::*;
use std::collections::HashSet;
use crate::features::{strs, views};
use crate::text::{append_chars, chars_of, dec_i64, dec_int, eq_str, string_of};

verus! {

pub const ACTION_INTERESTED: &'static str = "interested";
pub const ACTION_REJECTED: &'static str = "rejected";
pub const ACTION_SEEN: &'static str = "seen";

/// A stored feedback row. Timestamps are RFC 3339 strings.
#[derive(Clone, Debug)]
pub struct TasteFeedback {
    pub content_key: String,
    pub tmdb_id: i64,
    pub media_kind: String,
    pub action: String,
    pub reason: Option<String>,
    pub created_at: String,
    pub updated_at: String,
}

/// `"movie:tmdb:{id}"`.
pub open spec fn content_key_spec(tmdb_id: i64) -> Seq<char> {
    "movie:tmdb:"@ + dec_int(tmdb_id as int)
}

/// The key under which a title's feedback is stored.
pub fn content_key(tmdb_id: i64) -> (k: String)
    ensures
        k@ == content_key_spec(tmdb_id),
{
    let mut out = chars_of("movie:tmdb:");
    let d = dec_i64(tmdb_id);
    append_chars(&mut out, &d);
    string_of(&out)
}

pub open spec fn valid_action(action: Seq<char>) -> bool {
    action == "interested"@ || action == "rejected"@ || action == "seen"@
}

/// Accepts the three known actions; anything else is an error naming it.
pub fn validate_action(action: &str) -> (r: Result<(), String>)
    ensures
        r.is_ok() == valid_action(action@),
        r.is_err() ==> r.unwrap_err()@ == "unknown feedback action: "@ + action@,
{
    let a = chars_of(action);
    if eq_str(&a, "interested") || eq_str(&a, "rejected") || eq_str(&a, "seen") {
        Ok(())
    } else {
        let mut msg = chars_of("unknown feedback action: ");
        append_chars(&mut msg, &a);
        Err(string_of(&msg))
    }
}

pub open spec fn allowed_reasons() -> Seq<Seq<char>> {
    seq!["already_seen_disliked"@, "not_this_kind"@, "wrong_connection"@, "not_in_the_mood"@]
}

fn allowed_reason_list() -> (v: Vec<&'static str>)
    ensures
        views(v@) == allowed_reasons(),
{
    let v = vec!["already_seen_disliked", "not_this_kind", "wrong_connection", "not_in_the_mood"];
    assert(views(v@) =~= allowed_reasons());
    v
}

pub open spec fn valid_reason(reason: Option<Seq<char>>) -> bool {
    match reason {
        Option::None => true,
        Some(r) => r.len() == 0 || allowed_reasons().contains(r),
    }
}

pub open spec fn opt_view(r: Option<String>) -> Option<Seq<char>> {
    match r {
        Some(s) => Some(s@),
        Option::None => Option::None,
    }
}

/// Accepts no reason, an empty reason or one of the four known reasons;
/// anything else is an error naming it.
pub fn validate_reason(reason: &Option<String>) -> (r: Result<(), String>)
    ensures
        r.is_ok() == valid_reason(opt_view(*reason)),
        r.is_err() ==> r.unwrap_err()@ == "unknown feedback reason: "@ + reason.unwrap()@,
{
    match reason {
        Option::None => Ok(()),
        Some(s) => {
            let v = chars_of(s.as_str());
            if v.len() == 0 || crate::features::in_list(&v, &allowed_reason_list()) {
                Ok(())
            } else {
                let mut msg = chars_of("unknown feedback reason: ");
                append_chars(&mut msg, &v);
                Err(string_of(&msg))
            }
        },
    }
}

/// The reason that is stored for a request: an empty reason counts as none.
pub open spec fn stored_reason(reason: Option<Seq<char>>) -> Option<Seq<char>> {
    match reason {
        Some(r) => if r.len() == 0 {
            Option::None
        } else {
            Some(r)
        },
        Option::None => Option::None,
    }
}

/// Checks a feedback request and returns the reason to store: errors for an
/// unknown action (checked first) or an unknown reason, else the reason with
/// an empty one dropped.
pub fn prepare_feedback(action: &str, reason: Option<String>) -> (r: Result<Option<String>, String>)
    ensures
        r.is_ok() == (valid_action(action@) && valid_reason(opt_view(reason))),
        !valid_action(action@) ==> r.is_err() && r.unwrap_err()@ == "unknown feedback action: "@
            + action@,
        valid_action(action@) && !valid_reason(opt_view(reason)) ==> r.is_err()
            && r.unwrap_err()@ == "unknown feedback reason: "@ + reason.unwrap()@,
        r.is_ok() ==> opt_view(r.unwrap()) == stored_reason(opt_view(reason)),
{
    match validate_action(action) {
        Ok(()) => {},
        Err(e) => return Err(e),
    }
    let reason = match reason {
        Some(s) => {
            let v = chars_of(s.as_str());
            if v.len() == 0 {
                Option::None
            } else {
                Some(s)
            }
        },
        Option::None => Option::None,
    };
    match validate_reason(&reason) {
        Ok(()) => Ok(reason),
        Err(e) => Err(e),
    }
}

pub open spec fn hides(row: TasteFeedback) -> bool {
    row.action@ == "rejected"@ || row.action@ == "seen"@
}

/// Titles hidden from the boards: those rejected or marked seen.
pub fn hide_ids(rows: &[TasteFeedback]) -> (ids: HashSet<i64>)
    ensures
        forall|id: i64|
            ids@.contains(id) <==> (exists|i: int|
                0 <= i < rows.len() && hides(#[trigger] rows@[i]) && rows@[i].tmdb_id == id),
{
    broadcast use vstd::std_specs::hash::group_hash_axioms;

    let mut ids: HashSet<i64> = HashSet::new();
    let mut i: usize = 0;
    while i < rows.len()
        invariant
            i <= rows.len(),
            forall|id: i64|
                ids@.contains(id) <==> (exists|k: int|
                    0 <= k < i && hides(#[trigger] rows@[k]) && rows@[k].tmdb_id == id),
        decreases rows.len() - i,
    {
        let a = chars_of(rows[i].action.as_str());
        let ghost before = ids@;
        if eq_str(&a, "rejected") || eq_str(&a, "seen") {
            ids.insert(rows[i].tmdb_id);
            assert(hides(rows@[i as int]));
        }
        assert forall|id: i64|
            ids@.contains(id) <==> (exists|k: int|
                0 <= k < i + 1 && hides(#[trigger] rows@[k]) && rows@[k].tmdb_id == id) by {
            if exists|k: int| 0 <= k < i + 1 && hides(#[trigger] rows@[k]) && rows@[k].tmdb_id == id {
                let k = choose|k: int| 0 <= k < i + 1 && hides(#[trigger] rows@[k]) && rows@[k].tmdb_id == id;
                if k < i {
                    assert(before.contains(id));
                }
            }
        }
        i += 1;
    }
    ids
}

} // verus!
