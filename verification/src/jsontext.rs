//! Recovering a JSON object from a model's reply: code fences, reasoning
//! blocks, typographic quotes, prose around the object, trailing commas and
//! truncated output.
use vstd::prelude::*;
use crate::text::{
    append_chars, chars_of, find, find_from, has_prefix, occurs_at, is_whitespace, lemma_find_from_bounds,
    slice_chars, starts_with_str, string_of, trim, trim_chars, trim_end, unicode_white_space,
};

verus! {

// ---------------------------------------------------------------------------
// Code fences
// ---------------------------------------------------------------------------

/// `s` without its trailing backticks (`trim_end_matches('`')`).
pub open spec fn strip_backticks(s: Seq<char>) -> Seq<char>
    decreases s.len(),
{
    if s.len() > 0 && s.last() == '`' {
        strip_backticks(s.drop_last())
    } else {
        s
    }
}

/// What is left of a reply once an opening code fence is removed.
pub open spec fn fence_inner(t: Seq<char>) -> Seq<char> {
    if has_prefix(t, "```json"@) {
        t.skip(7)
    } else if has_prefix(t, "```"@) {
        t.skip(3)
    } else if find_from(t, "```json"@, 0) >= 0 {
        t.skip(find_from(t, "```json"@, 0) + 7)
    } else {
        t
    }
}

/// A reply with its Markdown code fence removed.
pub open spec fn strip_fences_spec(raw: Seq<char>) -> Seq<char> {
    trim(strip_backticks(trim(fence_inner(trim(raw)))))
}

fn drop_backticks(v: &Vec<char>) -> (r: Vec<char>)
    ensures
        r@ == strip_backticks(v@),
{
    let mut n = v.len();
    assert(v@.subrange(0, n as int) =~= v@);
    while n > 0 && v[n - 1] == '`'
        invariant
            n <= v.len(),
            strip_backticks(v@) == strip_backticks(v@.subrange(0, n as int)),
        decreases n,
    {
        assert(v@.subrange(0, n as int).drop_last() =~= v@.subrange(0, n - 1));
        n -= 1;
    }
    slice_chars(v, 0, n)
}

/// Removes a Markdown code fence around (or before) the object.
pub fn strip_fences(raw: &str) -> (r: String)
    ensures
        r@ == strip_fences_spec(raw@),
{
    let v = chars_of(raw);
    let t = trim_chars(&v);
    let inner = if starts_with_str(&t, "```json") {
        proof {
            reveal_strlit("```json");
        }
        slice_chars(&t, 7, t.len())
    } else if starts_with_str(&t, "```") {
        proof {
            reveal_strlit("```");
        }
        slice_chars(&t, 3, t.len())
    } else {
        let fence = chars_of("```json");
        match find(&t, &fence, 0) {
            Some(k) => {
                proof {
                    lemma_find_from_bounds(t@, fence@, 0);
                    reveal_strlit("```json");
                    assert(occurs_at(t@, fence@, k as int));
                    assert(fence@.len() == 7);
                }
                assert(k + 7 <= t.len());
                slice_chars(&t, k + 7, t.len())
            },
            None => t.clone(),
        }
    };
    assert(inner@ =~= fence_inner(t@));
    let a = trim_chars(&inner);
    let b = drop_backticks(&a);
    let c = trim_chars(&b);
    string_of(&c)
}

// ---------------------------------------------------------------------------
// Reasoning blocks and typographic quotes
// ---------------------------------------------------------------------------

/// Curly double quotes read as straight ones.
pub open spec fn straight_quote(c: char) -> char {
    if c == '\u{201c}' || c == '\u{201d}' {
        '"'
    } else {
        c
    }
}

pub open spec fn straighten(s: Seq<char>) -> Seq<char> {
    s.map_values(|c: char| straight_quote(c))
}

/// A reply with curly quotes straightened and everything up to a closing
/// `</think>` tag removed.
pub open spec fn strip_think_spec(raw: Seq<char>) -> Seq<char> {
    let q = straighten(raw);
    let k = find_from(q, "</think>"@, 0);
    if k >= 0 {
        q.skip(k + 8)
    } else {
        q
    }
}

/// Straightens curly quotes and drops a leading reasoning block.
pub fn strip_think(raw: &str) -> (r: String)
    ensures
        r@ == strip_think_spec(raw@),
{
    let v = chars_of(raw);
    let mut q: Vec<char> = Vec::new();
    let mut i: usize = 0;
    while i < v.len()
        invariant
            i <= v.len(),
            q@ == straighten(v@.take(i as int)),
        decreases v.len() - i,
    {
        let c = v[i];
        let d = if c == '\u{201c}' || c == '\u{201d}' {
            '"'
        } else {
            c
        };
        q.push(d);
        i += 1;
        assert(straighten(v@.take(i as int)) =~= straighten(v@.take((i - 1) as int)).push(d));
    }
    assert(v@.take(v.len() as int) =~= v@);
    let tag = chars_of("</think>");
    match find(&q, &tag, 0) {
        Some(k) => {
            proof {
                lemma_find_from_bounds(q@, tag@, 0);
                reveal_strlit("</think>");
            }
            let rest = slice_chars(&q, k + 8, q.len());
            string_of(&rest)
        },
        None => string_of(&q),
    }
}

// ---------------------------------------------------------------------------
// The first balanced object
// ---------------------------------------------------------------------------

/// Where the scan that starts at `i` (with `depth` open braces, inside a
/// string or not, after a backslash or not) stops: just past the brace that
/// closes the object, or at the end of the text. Braces inside strings do
/// not count.
pub open spec fn object_end(s: Seq<char>, i: int, depth: int, in_str: bool, esc: bool) -> int
    decreases s.len() - i,
{
    if i < 0 || i >= s.len() {
        s.len() as int
    } else {
        let c = s[i];
        if in_str {
            if esc {
                object_end(s, i + 1, depth, true, false)
            } else if c == '\\' {
                object_end(s, i + 1, depth, true, true)
            } else if c == '"' {
                object_end(s, i + 1, depth, false, false)
            } else {
                object_end(s, i + 1, depth, true, false)
            }
        } else if c == '"' {
            object_end(s, i + 1, depth, true, esc)
        } else if c == '{' {
            object_end(s, i + 1, depth + 1, false, esc)
        } else if c == '}' {
            if depth - 1 == 0 {
                i + 1
            } else {
                object_end(s, i + 1, depth - 1, false, esc)
            }
        } else {
            object_end(s, i + 1, depth, false, esc)
        }
    }
}

/// The text from the first `{` to the brace that balances it (or to the end
/// of the text when it never closes); `None` when there is no `{`.
pub open spec fn first_object_spec(s: Seq<char>) -> Option<Seq<char>> {
    let start = find_from(s, "{"@, 0);
    if start < 0 {
        None
    } else {
        Some(s.subrange(start, object_end(s, start, 0, false, false)))
    }
}

proof fn lemma_object_end_bounds(s: Seq<char>, i: int, depth: int, in_str: bool, esc: bool)
    requires
        0 <= i <= s.len(),
    ensures
        i <= object_end(s, i, depth, in_str, esc) <= s.len(),
    decreases s.len() - i,
{
    if i < s.len() {
        lemma_object_end_bounds(s, i + 1, depth, true, false);
        lemma_object_end_bounds(s, i + 1, depth, true, true);
        lemma_object_end_bounds(s, i + 1, depth, false, false);
        lemma_object_end_bounds(s, i + 1, depth, true, esc);
        lemma_object_end_bounds(s, i + 1, depth + 1, false, esc);
        lemma_object_end_bounds(s, i + 1, depth - 1, false, esc);
        lemma_object_end_bounds(s, i + 1, depth, false, esc);
    }
}

/// The first JSON object in the text, found by balancing braces outside
/// strings.
pub fn first_object(s: &str) -> (r: Option<String>)
    ensures
        match r {
            Some(o) => first_object_spec(s@) == Some(o@),
            None => first_object_spec(s@) is None,
        },
{
    let v = chars_of(s);
    let brace = chars_of("{");
    let start = match find(&v, &brace, 0) {
        Some(k) => k,
        None => {
            return None;
        },
    };
    proof {
        lemma_find_from_bounds(v@, brace@, 0);
        lemma_object_end_bounds(v@, start as int, 0, false, false);
        reveal_strlit("{");
        assert(v@[start as int] == v@.subrange(start as int, start + 1)[0]);
    }
    let ghost target = object_end(v@, start as int, 0, false, false);
    let mut depth: usize = 0;
    let mut in_string = false;
    let mut escape = false;
    let mut i: usize = start;
    while i < v.len()
        invariant
            start <= i <= v.len(),
            start < v.len(),
            v@ == s@,
            find_from(s@, "{"@, 0) == start,
            v@[start as int] == '{',
            depth <= i - start,
            (i == start && depth == 0 && !in_string && !escape) || (i > start && depth >= 1),
            target == object_end(v@, start as int, 0, false, false),
            target == object_end(v@, i as int, depth as int, in_string, escape),
        decreases v.len() - i,
    {
        let c = v[i];
        if in_string {
            if escape {
                escape = false;
            } else if c == '\\' {
                escape = true;
            } else if c == '"' {
                in_string = false;
            }
        } else if c == '"' {
            in_string = true;
        } else if c == '{' {
            depth += 1;
        } else if c == '}' {
            if depth == 1 {
                assert(target == i + 1);
                let o = slice_chars(&v, start, i + 1);
                assert(o@ == v@.subrange(start as int, target));
                return Some(string_of(&o));
            }
            depth -= 1;
        }
        i += 1;
    }
    let o = slice_chars(&v, start, v.len());
    Some(string_of(&o))
}

// ---------------------------------------------------------------------------
// Trailing commas
// ---------------------------------------------------------------------------

/// The first index at or after `j` whose character is not white space, or
/// the length of the text.
pub open spec fn next_non_ws(s: Seq<char>, j: int) -> int
    decreases s.len() - j,
{
    if j < 0 || j >= s.len() {
        s.len() as int
    } else if unicode_white_space(s[j]) {
        next_non_ws(s, j + 1)
    } else {
        j
    }
}

/// A comma, outside strings, that only white space separates from a
/// closing brace or bracket.
pub open spec fn dangling_comma(s: Seq<char>, i: int) -> bool {
    &&& s[i] == ','
    &&& next_non_ws(s, i + 1) < s.len()
    &&& (s[next_non_ws(s, i + 1)] == '}' || s[next_non_ws(s, i + 1)] == ']')
}

/// The text from `i` on with its dangling commas removed, scanning from the
/// given string state.
pub open spec fn without_commas(s: Seq<char>, i: int, in_str: bool, esc: bool) -> Seq<char>
    decreases s.len() - i,
{
    if i < 0 || i >= s.len() {
        Seq::empty()
    } else {
        let c = s[i];
        if in_str {
            if esc {
                seq![c] + without_commas(s, i + 1, true, false)
            } else if c == '\\' {
                seq![c] + without_commas(s, i + 1, true, true)
            } else if c == '"' {
                seq![c] + without_commas(s, i + 1, false, false)
            } else {
                seq![c] + without_commas(s, i + 1, true, false)
            }
        } else if c == '"' {
            seq![c] + without_commas(s, i + 1, true, esc)
        } else if dangling_comma(s, i) {
            without_commas(s, i + 1, false, esc)
        } else {
            seq![c] + without_commas(s, i + 1, false, esc)
        }
    }
}

/// Removes commas that directly precede (up to white space) a closing brace
/// or bracket, leaving string contents alone.
pub fn strip_trailing_commas(s: &str) -> (r: String)
    ensures
        r@ == without_commas(s@, 0, false, false),
{
    let v = chars_of(s);
    let mut out: Vec<char> = Vec::new();
    let mut in_string = false;
    let mut escape = false;
    let mut i: usize = 0;
    while i < v.len()
        invariant
            i <= v.len(),
            v@ == s@,
            out@ + without_commas(v@, i as int, in_string, escape) == without_commas(
                v@,
                0,
                false,
                false,
            ),
        decreases v.len() - i,
    {
        let c = v[i];
        let ghost before = out@;
        if in_string {
            out.push(c);
            if escape {
                escape = false;
            } else if c == '\\' {
                escape = true;
            } else if c == '"' {
                in_string = false;
            }
            assert(out@ =~= before + seq![c]);
            i += 1;
            continue;
        }
        if c == '"' {
            in_string = true;
            out.push(c);
            assert(out@ =~= before + seq![c]);
            i += 1;
            continue;
        }
        if c == ',' {
            let mut j = i + 1;
            while j < v.len() && is_whitespace(v[j])
                invariant
                    i < j <= v.len(),
                    next_non_ws(v@, i + 1) == next_non_ws(v@, j as int),
                decreases v.len() - j,
            {
                j += 1;
            }
            if j < v.len() && (v[j] == '}' || v[j] == ']') {
                assert(dangling_comma(v@, i as int));
                i += 1;
                continue;
            }
            assert(!dangling_comma(v@, i as int));
        }
        out.push(c);
        assert(out@ =~= before + seq![c]);
        i += 1;
    }
    string_of(&out)
}

// ---------------------------------------------------------------------------
// Truncated output
// ---------------------------------------------------------------------------

pub open spec fn drop_final_comma(t: Seq<char>) -> Seq<char> {
    if t.len() > 0 && t.last() == ',' {
        t.drop_last()
    } else {
        t
    }
}

/// After scanning `s`: the closers still owed (innermost last), whether the
/// scan ends inside a string, and whether it ends after a backslash there.
pub open spec fn close_state(s: Seq<char>) -> (Seq<char>, bool, bool)
    decreases s.len(),
{
    if s.len() == 0 {
        (Seq::empty(), false, false)
    } else {
        let (st, ins, esc) = close_state(s.drop_last());
        let c = s.last();
        if ins {
            if esc {
                (st, true, false)
            } else if c == '\\' {
                (st, true, true)
            } else if c == '"' {
                (st, false, false)
            } else {
                (st, true, false)
            }
        } else if c == '"' {
            (st, true, esc)
        } else if c == '{' {
            (st.push('}'), false, esc)
        } else if c == '[' {
            (st.push(']'), false, esc)
        } else if c == '}' || c == ']' {
            (
                if st.len() > 0 {
                    st.drop_last()
                } else {
                    st
                },
                false,
                esc,
            )
        } else {
            (st, false, esc)
        }
    }
}

/// A truncated object completed: trailing white space and a final comma
/// dropped, an open string closed, then every open brace and bracket closed
/// innermost first.
pub open spec fn close_truncated_spec(s: Seq<char>) -> Seq<char> {
    let t = drop_final_comma(trim_end(s));
    let (st, ins, esc) = close_state(t);
    t + (if ins {
        seq!['"']
    } else {
        Seq::empty()
    }) + st.reverse()
}

fn trim_end_chars(v: &Vec<char>) -> (r: Vec<char>)
    ensures
        r@ == trim_end(v@),
{
    let mut b: usize = v.len();
    assert(v@.subrange(0, b as int) =~= v@);
    while b > 0 && is_whitespace(v[b - 1])
        invariant
            b <= v.len(),
            trim_end(v@) == trim_end(v@.subrange(0, b as int)),
        decreases b,
    {
        proof {
            crate::text::lemma_trim_end_step(v@, b as int);
        }
        b -= 1;
    }
    slice_chars(v, 0, b)
}

/// Closes what a truncated reply left open so that it may parse.
pub fn close_truncated(s: &str) -> (r: String)
    ensures
        r@ == close_truncated_spec(s@),
{
    let v = chars_of(s);
    let mut out = trim_end_chars(&v);
    if out.len() > 0 && out[out.len() - 1] == ',' {
        out.pop();
    }
    let ghost t = out@;
    assert(t =~= drop_final_comma(trim_end(s@)));
    let mut stack: Vec<char> = Vec::new();
    let mut in_string = false;
    let mut escape = false;
    let mut i: usize = 0;
    while i < out.len()
        invariant
            i <= out.len(),
            out@ == t,
            (stack@, in_string, escape) == close_state(t.take(i as int)),
        decreases out.len() - i,
    {
        let c = out[i];
        assert(t.take((i + 1) as int).drop_last() =~= t.take(i as int));
        if in_string {
            if escape {
                escape = false;
            } else if c == '\\' {
                escape = true;
            } else if c == '"' {
                in_string = false;
            }
        } else if c == '"' {
            in_string = true;
        } else if c == '{' {
            stack.push('}');
        } else if c == '[' {
            stack.push(']');
        } else if c == '}' || c == ']' {
            if stack.len() > 0 {
                stack.pop();
            }
        }
        i += 1;
    }
    assert(t.take(t.len() as int) =~= t);
    if in_string {
        out.push('"');
    }
    let ghost head = out@;
    let ghost full = stack@;
    while stack.len() > 0
        invariant
            out@ + stack@.reverse() == head + full.reverse(),
        decreases stack.len(),
    {
        let ghost st = stack@;
        let closer = stack.pop().unwrap();
        assert(st.reverse() =~= seq![closer] + stack@.reverse());
        out.push(closer);
        assert(out@ + stack@.reverse() =~= head + full.reverse());
    }
    assert(stack@.reverse() =~= Seq::<char>::empty());
    assert(out@ =~= head + full.reverse());
    string_of(&out)
}

// ---------------------------------------------------------------------------
// Extracting the object
// ---------------------------------------------------------------------------

#[verifier::external_type_specification]
#[verifier::external_body]
pub struct ExJsonValue(serde_json::Value);

/// What serde_json parses the text to, when it is JSON whose top level is
/// an object.
pub uninterp spec fn json_object(text: Seq<char>) -> Option<serde_json::Value>;

/// Whether serde_json parses the text as JSON whose top level is an object.
pub open spec fn json_object_text(text: Seq<char>) -> bool {
    json_object(text) is Some
}

/// serde_json `from_str::<Value>` on the text, keeping the value when it is
/// an object. The result depends on the text alone.
#[verifier::external_body]
fn parse_object(text: &str) -> (r: Option<serde_json::Value>)
    ensures
        r == json_object(text@),
{
    match serde_json::from_str::<serde_json::Value>(text) {
        Ok(serde_json::Value::Object(m)) => Some(serde_json::Value::Object(m)),
        Ok(_) => None,
        Err(_) => None,
    }
}

/// The first of the candidate texts that parses as an object, if any.
pub open spec fn first_object_index(c: Seq<Seq<char>>, from: int) -> int
    decreases c.len() - from,
{
    if from >= c.len() || from < 0 {
        -1
    } else if json_object_text(c[from]) {
        from
    } else {
        first_object_index(c, from + 1)
    }
}

/// The texts tried, in order, when reading a model's reply as JSON: the
/// first object as written, without dangling commas, and then also closed
/// where truncated. `None` when the reply holds no `{`.
pub open spec fn json_candidates_spec(raw: Seq<char>) -> Option<Seq<Seq<char>>> {
    match first_object_spec(strip_think_spec(strip_fences_spec(raw))) {
        None => None,
        Some(o) => {
            let c = without_commas(o, 0, false, false);
            Some(seq![o, c, close_truncated_spec(c)])
        },
    }
}

/// The candidate texts for [`extract_json`], in the order they are tried.
pub fn json_candidates(raw: &str) -> (r: Option<Vec<String>>)
    ensures
        match r {
            None => json_candidates_spec(raw@) is None,
            Some(v) => json_candidates_spec(raw@) is Some && v@.map_values(|x: String| x@)
                == json_candidates_spec(raw@)->0,
        },
{
    let fenced = strip_fences(raw);
    let cleaned = strip_think(fenced.as_str());
    let object = match first_object(cleaned.as_str()) {
        Some(o) => o,
        None => {
            return None;
        },
    };
    let c = strip_trailing_commas(object.as_str());
    let closed = close_truncated(c.as_str());
    let mut v: Vec<String> = Vec::new();
    v.push(object);
    v.push(c);
    v.push(closed);
    assert(v@.map_values(|x: String| x@) =~= json_candidates_spec(raw@)->0);
    Some(v)
}

/// Reads a model's reply as a JSON object: the object the first candidate
/// (see [`json_candidates`]) that parses as an object parses to.
pub fn extract_json(raw: &str) -> (r: Result<serde_json::Value, String>)
    ensures
        r is Ok <==> (json_candidates_spec(raw@) is Some && exists|k: int|
            0 <= k < 3 && json_object_text(#[trigger] json_candidates_spec(raw@)->0[k])),
        r is Ok ==> (json_candidates_spec(raw@) is Some && 0 <= first_object_index(
            json_candidates_spec(raw@)->0,
            0,
        ) && Some(r->Ok_0) == json_object(
            json_candidates_spec(raw@)->0[first_object_index(json_candidates_spec(raw@)->0, 0)],
        )),
        r is Err ==> r->Err_0@ == "Model did not return JSON"@,
{
    let cands = match json_candidates(raw) {
        Some(v) => v,
        None => {
            return Err("Model did not return JSON".to_owned());
        },
    };
    let ghost spec_c = json_candidates_spec(raw@)->0;
    assert(cands@.map_values(|x: String| x@).len() == 3);
    let mut i: usize = 0;
    while i < 3
        invariant
            i <= 3,
            cands@.len() == 3,
            json_candidates_spec(raw@) is Some,
            spec_c == json_candidates_spec(raw@)->0,
            cands@.map_values(|x: String| x@) == spec_c,
            forall|k: int| 0 <= k < i ==> !json_object_text(#[trigger] spec_c[k]),
            first_object_index(spec_c, 0) == first_object_index(spec_c, i as int),
        decreases 3 - i,
    {
        assert(cands@.map_values(|x: String| x@)[i as int] == cands@[i as int]@);
        match parse_object(cands[i].as_str()) {
            Some(v) => {
                assert(first_object_index(spec_c, i as int) == i);
                return Ok(v);
            },
            None => {},
        }
        assert(first_object_index(spec_c, i as int) == first_object_index(spec_c, i + 1));
        i += 1;
    }
    Err("Model did not return JSON".to_owned())
}


/// Whether serde_json finds the key in the value (an object holding it).
pub uninterp spec fn json_has_key(v: serde_json::Value, key: Seq<char>) -> bool;

/// serde_json `Value::get(key)`: `Some` exactly when the value is an object
/// with that key. The result depends on the value and key alone.
#[verifier::external_body]
fn has_key(v: &serde_json::Value, key: &str) -> (b: bool)
    ensures
        b == json_has_key(*v, key@),
{
    v.get(key).is_some()
}

/// The critic pass chooses no titles: a reply with a `picks` key is
/// refused.
pub fn check_critic(v: &serde_json::Value) -> (r: Result<(), String>)
    ensures
        r is Ok <==> !json_has_key(*v, "picks"@),
        r is Err ==> r->Err_0@ == "Call 1 must not emit picks"@,
{
    if has_key(v, "picks") {
        Err("Call 1 must not emit picks".to_owned())
    } else {
        Ok(())
    }
}

} // verus!
