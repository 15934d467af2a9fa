//! The language models Taste can call through OpenRouter: their ids, the
//! picker catalog, the stored preferences and the classification of
//! provider errors.
use vstd::prelude::*;
use crate::text::{
    append_chars, append_str, ascii_lower, chars_of, contains, contains_str, eq_str, find_from,
    is_whitespace,
    lower_ascii, string_of, trim, trim_chars, unicode_white_space,
};

verus! {

pub const MODEL_DEEPSEEK: &'static str = "deepseek/deepseek-v4-pro-0813";
pub const MODEL_QWEN_MAX: &'static str = "qwen/qwen3.8-2.4t-a95b";
pub const MODEL_QWEN_BALANCED: &'static str = "qwen/qwen3.8-27b";
pub const MODEL_GEMINI: &'static str = "google/gemini-3.7-flash";

/// One entry of the model picker.
#[derive(Clone, Debug)]
pub struct TasteModelInfo {
    pub id: String,
    pub label: String,
    pub blurb: String,
    pub context: String,
    pub cost: String,
}

/// What the settings screen shows about the stored OpenRouter key.
#[derive(Clone, Debug)]
pub struct TasteKeyStatus {
    pub stored: bool,
    pub valid: Option<bool>,
    pub last_error: Option<String>,
    pub model: String,
    pub web: bool,
    pub models: Vec<TasteModelInfo>,
}

/// The recommended model.
pub fn default_model() -> (m: String)
    ensures
        m@ == MODEL_DEEPSEEK@,
{
    MODEL_DEEPSEEK.to_owned()
}

// ---------------------------------------------------------------------------
// Normalising picker values
// ---------------------------------------------------------------------------

pub open spec fn dash_char(c: char) -> char {
    if c == ' ' || c == '_' {
        '-'
    } else {
        c
    }
}

/// Spaces and underscores replaced by dashes.
pub open spec fn dashify(s: Seq<char>) -> Seq<char> {
    s.map_values(|c: char| dash_char(c))
}

/// A picker value trimmed, lower-cased (ASCII) and dashed.
pub open spec fn compact_model(raw: Seq<char>) -> Seq<char> {
    dashify(ascii_lower(trim(raw)))
}

/// The model id a picker value stands for. Values of retired models map to
/// the recommended model.
pub open spec fn normalize_model_spec(raw: Seq<char>) -> Seq<char> {
    let c = compact_model(raw);
    if contains(c, "deepseek"@) {
        MODEL_DEEPSEEK@
    } else if contains(c, "gemini-3.7"@) || c == "gemini"@ {
        MODEL_GEMINI@
    } else if contains(c, "qwen3.8-2.4t"@) {
        MODEL_QWEN_MAX@
    } else if contains(c, "qwen3.8-27b"@) {
        MODEL_QWEN_BALANCED@
    } else {
        MODEL_DEEPSEEK@
    }
}

/// The ids the picker offers.
pub open spec fn is_model_id(m: Seq<char>) -> bool {
    m == MODEL_DEEPSEEK@ || m == MODEL_QWEN_MAX@ || m == MODEL_QWEN_BALANCED@ || m
        == MODEL_GEMINI@
}

fn dash_chars(v: &Vec<char>) -> (r: Vec<char>)
    ensures
        r@ == dashify(v@),
{
    let mut r: Vec<char> = Vec::new();
    let mut i: usize = 0;
    while i < v.len()
        invariant
            i <= v.len(),
            r@ == dashify(v@.take(i as int)),
        decreases v.len() - i,
    {
        let c = v[i];
        let d = if c == ' ' || c == '_' {
            '-'
        } else {
            c
        };
        r.push(d);
        i += 1;
        assert(dashify(v@.take(i as int)) =~= dashify(v@.take((i - 1) as int)).push(d));
    }
    assert(v@.take(v.len() as int) =~= v@);
    r
}

/// The model id a picker value (current or legacy) stands for.
pub fn normalize_model(raw: &str) -> (m: String)
    ensures
        m@ == normalize_model_spec(raw@),
{
    let t = chars_of(raw);
    let t = trim_chars(&t);
    let l = lower_ascii(&t);
    let c = dash_chars(&l);
    if contains_str(&c, "deepseek") {
        MODEL_DEEPSEEK.to_owned()
    } else if contains_str(&c, "gemini-3.7") || eq_str(&c, "gemini") {
        MODEL_GEMINI.to_owned()
    } else if contains_str(&c, "qwen3.8-2.4t") {
        MODEL_QWEN_MAX.to_owned()
    } else if contains_str(&c, "qwen3.8-27b") {
        MODEL_QWEN_BALANCED.to_owned()
    } else {
        MODEL_DEEPSEEK.to_owned()
    }
}

fn is_deepseek(model: &str) -> (b: bool)
    ensures
        b == (model@ == MODEL_DEEPSEEK@),
{
    let m = chars_of(model);
    eq_str(&m, MODEL_DEEPSEEK)
}

/// The OpenRouter id to send for a model: the model itself when the picker
/// offers it, else the recommended model.
pub fn openrouter_model_id(model: &str) -> (id: &'static str)
    ensures
        id@ == if is_model_id(model@) {
            model@
        } else {
            MODEL_DEEPSEEK@
        },
{
    let m = chars_of(model);
    if eq_str(&m, MODEL_DEEPSEEK) {
        MODEL_DEEPSEEK
    } else if eq_str(&m, MODEL_QWEN_MAX) {
        MODEL_QWEN_MAX
    } else if eq_str(&m, MODEL_QWEN_BALANCED) {
        MODEL_QWEN_BALANCED
    } else if eq_str(&m, MODEL_GEMINI) {
        MODEL_GEMINI
    } else {
        MODEL_DEEPSEEK
    }
}

pub open spec fn model_label_spec(model: Seq<char>) -> Seq<char> {
    if model == MODEL_QWEN_MAX@ {
        "Qwen3.8 2.4T A95B"@
    } else if model == MODEL_QWEN_BALANCED@ {
        "Qwen3.8 27B"@
    } else if model == MODEL_GEMINI@ {
        "Gemini 3.7 Flash"@
    } else {
        "DeepSeek V4 Pro 0813"@
    }
}

/// The display name of a model; unknown ids read as the recommended model.
pub fn model_label(model: &str) -> (l: &'static str)
    ensures
        l@ == model_label_spec(model@),
{
    let m = chars_of(model);
    if eq_str(&m, MODEL_QWEN_MAX) {
        "Qwen3.8 2.4T A95B"
    } else if eq_str(&m, MODEL_QWEN_BALANCED) {
        "Qwen3.8 27B"
    } else if eq_str(&m, MODEL_GEMINI) {
        "Gemini 3.7 Flash"
    } else {
        "DeepSeek V4 Pro 0813"
    }
}

/// The model to retry with after a failure: Gemini after DeepSeek, DeepSeek
/// after anything else.
pub fn fallback_model(model: &str) -> (f: &'static str)
    ensures
        f@ == if model@ == MODEL_DEEPSEEK@ {
            MODEL_GEMINI@
        } else {
            MODEL_DEEPSEEK@
        },
{
    if is_deepseek(model) {
        MODEL_GEMINI
    } else {
        MODEL_DEEPSEEK
    }
}

// ---------------------------------------------------------------------------
// The picker catalog
// ---------------------------------------------------------------------------

pub open spec fn info_view(m: TasteModelInfo) -> (Seq<char>, Seq<char>, Seq<char>, Seq<char>, Seq<
    char,
>) {
    (m.id@, m.label@, m.blurb@, m.context@, m.cost@)
}

/// The picker entries, in display order.
pub open spec fn catalog_spec() -> Seq<(Seq<char>, Seq<char>, Seq<char>, Seq<char>, Seq<char>)> {
    seq![
        (
            MODEL_DEEPSEEK@,
            "DeepSeek V4 Pro 0813"@,
            "Best fit for nuanced taste synthesis and long scored shortlists."@,
            "1M"@,
            "premium"@,
        ),
        (
            MODEL_QWEN_MAX@,
            "Qwen3.8 2.4T A95B"@,
            "Maximum-depth alternative for a large, careful editorial pass."@,
            "1M"@,
            "highest"@,
        ),
        (
            MODEL_GEMINI@,
            "Gemini 3.7 Flash"@,
            "Fast, lower-cost fallback with plenty of context for the full pass."@,
            "1M"@,
            "low"@,
        ),
        (
            MODEL_QWEN_BALANCED@,
            "Qwen3.8 27B"@,
            "Balanced open-weight option when you want speed without a tiny model."@,
            "1M"@,
            "mid"@,
        ),
    ]
}

fn info(id: &str, label: &str, blurb: &str, context: &str, cost: &str) -> (m: TasteModelInfo)
    ensures
        info_view(m) == (id@, label@, blurb@, context@, cost@),
{
    TasteModelInfo {
        id: id.to_owned(),
        label: label.to_owned(),
        blurb: blurb.to_owned(),
        context: context.to_owned(),
        cost: cost.to_owned(),
    }
}

/// The models the picker offers.
pub fn model_catalog() -> (models: Vec<TasteModelInfo>)
    ensures
        models@.map_values(|m: TasteModelInfo| info_view(m)) == catalog_spec(),
{
    let mut models: Vec<TasteModelInfo> = Vec::new();
    models.push(
        info(
            MODEL_DEEPSEEK,
            "DeepSeek V4 Pro 0813",
            "Best fit for nuanced taste synthesis and long scored shortlists.",
            "1M",
            "premium",
        ),
    );
    models.push(
        info(
            MODEL_QWEN_MAX,
            "Qwen3.8 2.4T A95B",
            "Maximum-depth alternative for a large, careful editorial pass.",
            "1M",
            "highest",
        ),
    );
    models.push(
        info(
            MODEL_GEMINI,
            "Gemini 3.7 Flash",
            "Fast, lower-cost fallback with plenty of context for the full pass.",
            "1M",
            "low",
        ),
    );
    models.push(
        info(
            MODEL_QWEN_BALANCED,
            "Qwen3.8 27B",
            "Balanced open-weight option when you want speed without a tiny model.",
            "1M",
            "mid",
        ),
    );
    assert(models@.map_values(|m: TasteModelInfo| info_view(m)) =~= catalog_spec());
    models
}


// ---------------------------------------------------------------------------
// Stored preferences and key status
// ---------------------------------------------------------------------------

pub open spec fn opt_str(o: Option<&str>) -> Option<Seq<char>> {
    match o {
        Some(s) => Some(s@),
        None => None,
    }
}

/// The model a stored preference selects; the recommended model when none is stored.
pub open spec fn stored_model_spec(meta: Option<Seq<char>>) -> Seq<char> {
    match meta {
        Some(m) => normalize_model_spec(m),
        None => MODEL_DEEPSEEK@,
    }
}

/// Web search stays on unless the stored preference reads `0` or `false`.
pub open spec fn stored_web_spec(meta: Option<Seq<char>>) -> bool {
    match meta {
        Some(m) => !(m == "0"@ || m == "false"@),
        None => true,
    }
}

/// The model selected by the stored preference `meta` (as read from the
/// settings table).
pub fn stored_model(meta: Option<&str>) -> (m: String)
    ensures
        m@ == stored_model_spec(opt_str(meta)),
{
    match meta {
        Some(raw) => normalize_model(raw),
        None => default_model(),
    }
}

/// The id stored, and reported back, when the user picks `model`.
pub fn set_model(model: &str) -> (id: String)
    ensures
        id@ == normalize_model_spec(model@),
{
    normalize_model(model)
}

/// Whether web search is enabled, given the stored preference `meta`.
pub fn stored_web(meta: Option<&str>) -> (b: bool)
    ensures
        b == stored_web_spec(opt_str(meta)),
{
    match meta {
        Some(raw) => {
            let m = chars_of(raw);
            !(eq_str(&m, "0") || eq_str(&m, "false"))
        },
        None => true,
    }
}

/// The settings value stored for the web-search switch.
pub fn set_web(enabled: bool) -> (v: &'static str)
    ensures
        v@ == if enabled {
            "1"@
        } else {
            "0"@
        },
        stored_web_spec(Some(v@)) == enabled,
{
    proof {
        reveal_strlit("1");
        reveal_strlit("0");
        reveal_strlit("false");
        assert("1"@[0] != "0"@[0]);
        assert("1"@.len() != "false"@.len());
    }
    if enabled {
        "1"
    } else {
        "0"
    }
}

/// The status before anything is known of a key.
pub open spec fn is_empty_status(s: TasteKeyStatus) -> bool {
    &&& !s.stored
    &&& s.valid is None
    &&& s.last_error is None
    &&& s.model@ == MODEL_DEEPSEEK@
    &&& s.web
    &&& s.models@.len() == 0
}

/// No key, no verdict, the recommended model, web search on.
pub fn empty_status() -> (s: TasteKeyStatus)
    ensures
        is_empty_status(s),
{
    TasteKeyStatus {
        stored: false,
        valid: None,
        last_error: None,
        model: default_model(),
        web: true,
        models: Vec::new(),
    }
}

/// `out` is `status` with the stored preferences and the catalog filled in.
pub open spec fn prefs_applied(
    out: TasteKeyStatus,
    status: TasteKeyStatus,
    model_meta: Option<Seq<char>>,
    web_meta: Option<Seq<char>>,
) -> bool {
    &&& out.stored == status.stored
    &&& out.valid == status.valid
    &&& out.last_error == status.last_error
    &&& out.model@ == stored_model_spec(model_meta)
    &&& out.web == stored_web_spec(web_meta)
    &&& out.models@.map_values(|m: TasteModelInfo| info_view(m)) == catalog_spec()
}

/// Fills in the stored model, the web switch and the model catalog.
pub fn with_prefs(status: TasteKeyStatus, model_meta: Option<&str>, web_meta: Option<&str>) -> (out:
    TasteKeyStatus)
    ensures
        prefs_applied(out, status, opt_str(model_meta), opt_str(web_meta)),
{
    let mut out = status;
    out.model = stored_model(model_meta);
    out.web = stored_web(web_meta);
    out.models = model_catalog();
    out
}

/// The status shown without asking OpenRouter: a stored key counts as valid.
pub fn stored_status(key_stored: bool, model_meta: Option<&str>, web_meta: Option<&str>) -> (s:
    TasteKeyStatus)
    ensures
        s.stored == key_stored,
        s.valid == if key_stored {
            Some(true)
        } else {
            None::<bool>
        },
        s.last_error is None,
        s.model@ == stored_model_spec(opt_str(model_meta)),
        s.web == stored_web_spec(opt_str(web_meta)),
        s.models@.map_values(|m: TasteModelInfo| info_view(m)) == catalog_spec(),
{
    let mut status = empty_status();
    if key_stored {
        status.stored = true;
        status.valid = Some(true);
    }
    with_prefs(status, model_meta, web_meta)
}

/// The message shown for a key OpenRouter refused.
pub open spec fn rejected_key_message() -> Seq<char> {
    "OpenRouter rejected this key. Create a pay-as-you-go key at openrouter.ai/keys."@
}

/// What a probe of the key endpoint reports, given the error text of the
/// request (`None` when it succeeded). A 401 or 403 marks the key invalid;
/// any other failure leaves its validity unknown.
pub open spec fn probe_status_spec(s: TasteKeyStatus, call_error: Option<Seq<char>>) -> bool {
    &&& !s.stored
    &&& s.model@ == MODEL_DEEPSEEK@
    &&& s.web
    &&& s.models@.len() == 0
    &&& match call_error {
        None => s.valid == Some(true) && s.last_error is None,
        Some(text) => {
            let invalid = contains(text, "401"@) || contains(text, "403"@);
            &&& s.valid == if invalid {
                Some(false)
            } else {
                None::<bool>
            }
            &&& s.last_error is Some
            &&& s.last_error->0@ == if invalid {
                rejected_key_message()
            } else {
                "Could not reach OpenRouter: "@ + text
            }
        },
    }
}

pub open spec fn opt_string(o: Option<String>) -> Option<Seq<char>> {
    match o {
        Some(s) => Some(s@),
        None => None,
    }
}

/// The status of a key after probing OpenRouter's key endpoint, given the
/// error text of the request (`None` when it succeeded).
pub fn probe_status(call_error: Option<String>) -> (s: TasteKeyStatus)
    ensures
        probe_status_spec(s, opt_string(call_error)),
{
    match call_error {
        None => {
            let mut s = empty_status();
            s.valid = Some(true);
            s
        },
        Some(text) => {
            let t = chars_of(text.as_str());
            let invalid = contains_str(&t, "401") || contains_str(&t, "403");
            let msg = if invalid {
                "OpenRouter rejected this key. Create a pay-as-you-go key at openrouter.ai/keys.".to_owned()
            } else {
                let mut m = chars_of("Could not reach OpenRouter: ");
                append_chars(&mut m, &t);
                string_of(&m)
            };
            let mut s = empty_status();
            s.valid = if invalid {
                Some(false)
            } else {
                None
            };
            s.last_error = Some(msg);
            s
        },
    }
}

/// The key status: `probe` is the probe's result for the stored key, or
/// `None` when no key is stored.
pub fn key_status(probe: Option<TasteKeyStatus>, model_meta: Option<&str>, web_meta: Option<&str>) -> (s:
    TasteKeyStatus)
    ensures
        match probe {
            None => {
                let e = TasteKeyStatus {
                    stored: false,
                    valid: None,
                    last_error: None,
                    model: s.model,
                    web: s.web,
                    models: s.models,
                };
                prefs_applied(s, e, opt_str(model_meta), opt_str(web_meta))
            },
            Some(p) => {
                let q = TasteKeyStatus { stored: true, ..p };
                prefs_applied(s, q, opt_str(model_meta), opt_str(web_meta))
            },
        },
{
    match probe {
        None => with_prefs(empty_status(), model_meta, web_meta),
        Some(p) => {
            let mut q = p;
            q.stored = true;
            with_prefs(q, model_meta, web_meta)
        },
    }
}

/// The key to store: the pasted text trimmed, or an error when nothing but
/// white space was pasted.
pub fn api_key_to_store(key: &str) -> (r: Result<String, String>)
    ensures
        r is Ok <==> trim(key@).len() > 0,
        r is Ok ==> r->Ok_0@ == trim(key@),
        r is Err ==> r->Err_0@ == "Paste an OpenRouter key first."@,
{
    let t = chars_of(key);
    let t = trim_chars(&t);
    if t.len() == 0 {
        Err("Paste an OpenRouter key first.".to_owned())
    } else {
        Ok(string_of(&t))
    }
}

/// After probing a pasted key: a key OpenRouter refused is reported as the
/// probe saw it and not stored; otherwise the key is to be stored (the
/// second component) and the status shows it stored, with the preferences.
pub fn store_api_key(probe: TasteKeyStatus, model_meta: Option<&str>, web_meta: Option<&str>) -> (r:
    (TasteKeyStatus, bool))
    ensures
        r.1 == (probe.valid != Some(false)),
        !r.1 ==> r.0 == probe,
        r.1 ==> prefs_applied(
            r.0,
            TasteKeyStatus { stored: true, ..probe },
            opt_str(model_meta),
            opt_str(web_meta),
        ),
{
    if probe.valid == Some(false) {
        return (probe, false);
    }
    let mut q = probe;
    q.stored = true;
    (with_prefs(q, model_meta, web_meta), true)
}

/// The key read from the system keyring: `read` is the stored password or
/// the keyring's error text. A blank password and a missing entry both mean
/// no key; other errors are passed on.
pub fn api_key_from_store(read: Result<String, String>) -> (r: Result<Option<String>, String>)
    ensures
        match read {
            Ok(k) => r is Ok && (if trim(k@).len() == 0 {
                r->Ok_0 is None
            } else {
                r->Ok_0 is Some && r->Ok_0->0@ == trim(k@)
            }),
            Err(e) => if contains(e@, "No matching entry"@) {
                r is Ok && r->Ok_0 is None
            } else {
                r is Err && r->Err_0@ == e@
            },
        },
{
    match read {
        Ok(k) => {
            let t = chars_of(k.as_str());
            let t = trim_chars(&t);
            if t.len() == 0 {
                Ok(None)
            } else {
                Ok(Some(string_of(&t)))
            }
        },
        Err(e) => {
            let v = chars_of(e.as_str());
            if contains_str(&v, "No matching entry") {
                Ok(None)
            } else {
                Err(e)
            }
        },
    }
}

// ---------------------------------------------------------------------------
// Provider errors
// ---------------------------------------------------------------------------

pub open spec fn timeout_spec(err: Seq<char>) -> bool {
    let l = ascii_lower(err);
    contains(l, "10060"@) || contains(l, "timed out"@) || contains(l, "timeout"@) || contains(
        l,
        "time out"@,
    )
}

pub open spec fn guardrail_spec(err: Seq<char>) -> bool {
    let l = ascii_lower(err);
    contains(l, "no endpoints"@) || contains(l, "guardrail"@) || contains(l, "data policy"@)
}

pub open spec fn tools_unsupported_spec(err: Seq<char>) -> bool {
    let l = ascii_lower(err);
    contains(l, "does not support"@) || contains(l, "tool use"@) || contains(l, "tools are not"@)
        || contains(l, "unknown tool"@)
}

pub open spec fn should_fallback_spec(err: Seq<char>) -> bool {
    let l = ascii_lower(err);
    timeout_spec(err) || guardrail_spec(err) || contains(l, "context length"@) || contains(
        l,
        "too many tokens"@,
    ) || contains(l, "input is too long"@) || contains(l, "502"@) || contains(l, "503"@)
        || contains(l, "524"@) || contains(l, "connection reset"@) || contains(
        l,
        "failed to connect"@,
    ) || contains(l, "provider returned error"@)
}

fn lowered(err: &str) -> (l: Vec<char>)
    ensures
        l@ == ascii_lower(err@),
{
    let v = chars_of(err);
    lower_ascii(&v)
}

/// A request that timed out.
pub fn is_timeout_error(err: &str) -> (b: bool)
    ensures
        b == timeout_spec(err@),
{
    let l = lowered(err);
    contains_str(&l, "10060") || contains_str(&l, "timed out") || contains_str(&l, "timeout")
        || contains_str(&l, "time out")
}

/// A refusal by OpenRouter's privacy or guardrail settings.
pub fn is_guardrail(err: &str) -> (b: bool)
    ensures
        b == guardrail_spec(err@),
{
    let l = lowered(err);
    contains_str(&l, "no endpoints") || contains_str(&l, "guardrail") || contains_str(
        &l,
        "data policy",
    )
}

/// A model that cannot use tools (web search).
pub fn tools_unsupported(err: &str) -> (b: bool)
    ensures
        b == tools_unsupported_spec(err@),
{
    let l = lowered(err);
    contains_str(&l, "does not support") || contains_str(&l, "tool use") || contains_str(
        &l,
        "tools are not",
    ) || contains_str(&l, "unknown tool")
}

/// Errors after which another model is tried: timeouts, guardrails, context
/// limits and transient provider failures.
pub fn should_fallback(err: &str) -> (b: bool)
    ensures
        b == should_fallback_spec(err@),
{
    let t = is_timeout_error(err);
    let g = is_guardrail(err);
    let l = lowered(err);
    t || g || contains_str(&l, "context length") || contains_str(&l, "too many tokens")
        || contains_str(&l, "input is too long") || contains_str(&l, "502") || contains_str(
        &l,
        "503",
    ) || contains_str(&l, "524") || contains_str(&l, "connection reset") || contains_str(
        &l,
        "failed to connect",
    ) || contains_str(&l, "provider returned error")
}

/// The message shown for a failed model call.
pub open spec fn friendly_err_spec(err: Seq<char>, model: Seq<char>) -> Seq<char> {
    if guardrail_spec(err) {
        model_label_spec(model)
            + " has no OpenRouter endpoint that matches your privacy settings. Taste retries without web search, then with another model from your list. To allow more models, open openrouter.ai/settings/privacy"@
    } else if timeout_spec(err) {
        model_label_spec(model)
            + " did not finish in time. Taste will retry with another model from your list."@
    } else {
        err
    }
}

/// A user-facing message for a failed model call.
pub fn friendly_err(err: &str, model: &str) -> (m: String)
    ensures
        m@ == friendly_err_spec(err@, model@),
{
    if is_guardrail(err) {
        let mut v = chars_of(model_label(model));
        append_str(
            &mut v,
            " has no OpenRouter endpoint that matches your privacy settings. Taste retries without web search, then with another model from your list. To allow more models, open openrouter.ai/settings/privacy",
        );
        return string_of(&v);
    }
    if is_timeout_error(err) {
        let mut v = chars_of(model_label(model));
        append_str(
            &mut v,
            " did not finish in time. Taste will retry with another model from your list.",
        );
        return string_of(&v);
    }
    err.to_owned()
}


// ---------------------------------------------------------------------------
// Log clipping and provider error messages
// ---------------------------------------------------------------------------

/// `s`'s words (`split_whitespace`) joined by single spaces, together with
/// whether white space followed the last word.
pub open spec fn flatten_ws(s: Seq<char>) -> (Seq<char>, bool)
    decreases s.len(),
{
    if s.len() == 0 {
        (Seq::empty(), false)
    } else {
        let (o, gap) = flatten_ws(s.drop_last());
        let c = s.last();
        if unicode_white_space(c) {
            (o, true)
        } else if gap && o.len() > 0 {
            (o.push(' ').push(c), false)
        } else {
            (o.push(c), false)
        }
    }
}

/// A text flattened to single spaces and cut to `max` characters, with an
/// ellipsis when it was cut.
pub open spec fn clip_log_spec(text: Seq<char>, max: nat) -> Seq<char> {
    let flat = flatten_ws(text).0;
    if flat.len() <= max {
        flat
    } else {
        flat.take(max as int).push('\u{2026}')
    }
}

/// Flattens white space and clips a text for logs and error messages.
pub fn clip_log(text: &str, max: usize) -> (r: String)
    ensures
        r@ == clip_log_spec(text@, max as nat),
{
    let v = chars_of(text);
    let mut out: Vec<char> = Vec::new();
    let mut gap = false;
    let mut i: usize = 0;
    while i < v.len()
        invariant
            i <= v.len(),
            (out@, gap) == flatten_ws(v@.take(i as int)),
        decreases v.len() - i,
    {
        let c = v[i];
        assert(v@.take((i + 1) as int).drop_last() =~= v@.take(i as int));
        if is_whitespace(c) {
            gap = true;
        } else {
            if gap && out.len() > 0 {
                out.push(' ');
            }
            out.push(c);
            gap = false;
        }
        i += 1;
    }
    assert(v@.take(v.len() as int) =~= v@);
    if out.len() <= max {
        string_of(&out)
    } else {
        let mut cut: Vec<char> = Vec::new();
        let mut k: usize = 0;
        while k < max
            invariant
                k <= max < out.len(),
                cut@ == out@.take(k as int),
            decreases max - k,
        {
            cut.push(out[k]);
            k += 1;
            assert(cut@ =~= out@.take(k as int));
        }
        cut.push('\u{2026}');
        string_of(&cut)
    }
}

/// The fields of an OpenRouter error body: `error.message`, `error.code`
/// (as text), `error.metadata.provider_name` (or `provider`) and
/// `error.metadata.raw`.
#[derive(Clone, Debug)]
pub struct OpenRouterErrorFields {
    pub message: Option<String>,
    pub code: Option<String>,
    pub provider: Option<String>,
    pub raw: Option<String>,
}

/// The pieces of an error message, in order.
pub open spec fn openrouter_err_parts(
    http_status: Option<u16>,
    body: Seq<char>,
    fields: Option<OpenRouterErrorFields>,
) -> Seq<Seq<char>> {
    let f = match fields {
        Some(f) => f,
        None => OpenRouterErrorFields { message: None, code: None, provider: None, raw: None },
    };
    let p0: Seq<Seq<char>> = match http_status {
        Some(st) => seq!["HTTP "@ + crate::text::dec_int(st as int)],
        None => Seq::empty(),
    };
    let p1 = match f.code {
        Some(c) => p0.push("code "@ + c@),
        None => p0,
    };
    let p2 = match f.provider {
        Some(p) => p1.push(p@),
        None => p1,
    };
    let msg = match f.message {
        Some(m) => if trim(m@).len() > 0 {
            trim(m@)
        } else {
            "OpenRouter returned an error"@
        },
        None => "OpenRouter returned an error"@,
    };
    let p3 = p2.push(msg);
    match f.raw {
        Some(r) => if clip_log_spec(r@, 400).len() > 0 {
            p3.push("raw: "@ + clip_log_spec(r@, 400))
        } else {
            p3
        },
        None => if fields is None && clip_log_spec(body, 400).len() > 0 {
            p3.push(clip_log_spec(body, 400))
        } else {
            p3
        },
    }
}

/// The message for a failed OpenRouter call: HTTP status, error code,
/// provider, message and the provider's raw text, joined by ` · `.
pub open spec fn openrouter_err_spec(
    http_status: Option<u16>,
    body: Seq<char>,
    fields: Option<OpenRouterErrorFields>,
) -> Seq<char> {
    let parts = openrouter_err_parts(http_status, body, fields);
    if parts.len() == 1 && http_status is None && trim(body).len() == 0 {
        "OpenRouter returned an error status"@
    } else {
        crate::explain::join(parts, " \u{b7} "@)
    }
}

pub(crate) fn join_parts(parts: &Vec<Vec<char>>, sep: &str) -> (r: Vec<char>)
    ensures
        r@ == crate::explain::join(parts@.map_values(|p: Vec<char>| p@), sep@),
{
    let ghost views = parts@.map_values(|p: Vec<char>| p@);
    let mut out: Vec<char> = Vec::new();
    let mut i: usize = 0;
    while i < parts.len()
        invariant
            i <= parts.len(),
            views == parts@.map_values(|p: Vec<char>| p@),
            out@ == crate::explain::join(views.take(i as int), sep@),
        decreases parts.len() - i,
    {
        assert(views.take((i + 1) as int).drop_last() =~= views.take(i as int));
        assert(views.take((i + 1) as int).last() == parts@[i as int]@);
        if i > 0 {
            append_str(&mut out, sep);
        }
        append_chars(&mut out, &parts[i]);
        i += 1;
    }
    assert(views.take(parts.len() as int) =~= views);
    out
}

/// The error text for a failed OpenRouter call, given the HTTP status, the
/// response body and the fields read from it (`None` when the body is not
/// JSON).
pub fn openrouter_err_text(
    http_status: Option<u16>,
    body: &str,
    fields: Option<OpenRouterErrorFields>,
) -> (r: String)
    ensures
        r@ == openrouter_err_spec(http_status, body@, fields),
{
    let parsed = fields.is_some();
    let f = match fields {
        Some(f) => f,
        None => OpenRouterErrorFields { message: None, code: None, provider: None, raw: None },
    };
    let mut parts: Vec<Vec<char>> = Vec::new();
    match http_status {
        Some(st) => {
            let mut p = chars_of("HTTP ");
            let d = crate::text::dec_u64(st as u64);
            append_chars(&mut p, &d);
            parts.push(p);
        },
        None => {},
    }
    match &f.code {
        Some(c) => {
            let mut p = chars_of("code ");
            append_str(&mut p, c.as_str());
            parts.push(p);
        },
        None => {},
    }
    match &f.provider {
        Some(p) => {
            parts.push(chars_of(p.as_str()));
        },
        None => {},
    }
    let msg = match &f.message {
        Some(m) => {
            let t = crate::text::trimmed(m.as_str());
            if t.len() > 0 {
                t
            } else {
                chars_of("OpenRouter returned an error")
            }
        },
        None => chars_of("OpenRouter returned an error"),
    };
    parts.push(msg);
    match &f.raw {
        Some(r) => {
            let clipped = clip_log(r.as_str(), 400);
            let cv = chars_of(clipped.as_str());
            if cv.len() > 0 {
                let mut p = chars_of("raw: ");
                append_chars(&mut p, &cv);
                parts.push(p);
            }
        },
        None => {
            if !parsed {
                let clipped = clip_log(body, 400);
                let cv = chars_of(clipped.as_str());
                if cv.len() > 0 {
                    parts.push(cv);
                }
            }
        },
    }
    assert(parts@.map_values(|p: Vec<char>| p@) =~= openrouter_err_parts(http_status, body@, fields));
    if parts.len() == 1 && http_status.is_none() {
        let bt = crate::text::trimmed(body);
        if bt.len() == 0 {
            return "OpenRouter returned an error status".to_owned();
        }
    }
    let out = join_parts(&parts, " \u{b7} ");
    string_of(&out)
}

} // verus!

verus! {

// ---------------------------------------------------------------------------
// Laws of normalisation
// ---------------------------------------------------------------------------

proof fn lemma_absent_char(s: Seq<char>, t: Seq<char>, k: int, i: int)
    requires
        0 <= k < t.len(),
        forall|j: int| 0 <= j < s.len() ==> s[j] != t[k],
    ensures
        find_from(s, t, i) == -1,
    decreases s.len() + 1 - i,
{
    if i < 0 || i + t.len() > s.len() {
    } else {
        assert(s.subrange(i, i + t.len())[k] == s[i + k]);
        lemma_absent_char(s, t, k, i + 1);
    }
}

proof fn lemma_present(s: Seq<char>, t: Seq<char>, i: int, k: int)
    requires
        0 <= i <= k,
        k + t.len() <= s.len(),
        s.subrange(k, k + t.len()) == t,
    ensures
        find_from(s, t, i) >= 0,
    decreases k - i,
{
    if s.subrange(i, i + t.len()) != t {
        lemma_present(s, t, i + 1, k);
    }
}

proof fn lemma_fixed_deepseek()
    ensures
        normalize_model_spec(MODEL_DEEPSEEK@) == MODEL_DEEPSEEK@,
{
    let s = MODEL_DEEPSEEK@;
    reveal_strlit("deepseek/deepseek-v4-pro-0813");
    assert(trim(s) == s);
    assert(ascii_lower(s) =~= s);
    assert(dashify(s) =~= s);
    reveal_strlit("deepseek");
    assert(s.subrange(0, 8) =~= "deepseek"@);
}

proof fn lemma_fixed_gemini()
    ensures
        normalize_model_spec(MODEL_GEMINI@) == MODEL_GEMINI@,
{
    let s = MODEL_GEMINI@;
    reveal_strlit("google/gemini-3.7-flash");
    assert(trim(s) == s);
    assert(ascii_lower(s) =~= s);
    assert(dashify(s) =~= s);
    reveal_strlit("deepseek");
    lemma_absent_char(s, "deepseek"@, 0, 0);
    reveal_strlit("gemini-3.7");
    assert(s.subrange(7, 17) =~= "gemini-3.7"@);
    lemma_present(s, "gemini-3.7"@, 0, 7);
    assert(compact_model(s) == s);
    assert(!contains(s, "deepseek"@));
}

proof fn lemma_fixed_qwen_max()
    ensures
        normalize_model_spec(MODEL_QWEN_MAX@) == MODEL_QWEN_MAX@,
{
    let s = MODEL_QWEN_MAX@;
    reveal_strlit("qwen/qwen3.8-2.4t-a95b");
    assert(trim(s) == s);
    assert(ascii_lower(s) =~= s);
    assert(dashify(s) =~= s);
    reveal_strlit("deepseek");
    lemma_absent_char(s, "deepseek"@, 0, 0);
    reveal_strlit("gemini-3.7");
    lemma_absent_char(s, "gemini-3.7"@, 0, 0);
    reveal_strlit("gemini");
    reveal_strlit("qwen3.8-2.4t");
    assert(s.subrange(5, 17) =~= "qwen3.8-2.4t"@);
    lemma_present(s, "qwen3.8-2.4t"@, 0, 5);
}

proof fn lemma_fixed_qwen_balanced()
    ensures
        normalize_model_spec(MODEL_QWEN_BALANCED@) == MODEL_QWEN_BALANCED@,
{
    let s = MODEL_QWEN_BALANCED@;
    reveal_strlit("qwen/qwen3.8-27b");
    assert(trim(s) == s);
    assert(ascii_lower(s) =~= s);
    assert(dashify(s) =~= s);
    reveal_strlit("deepseek");
    lemma_absent_char(s, "deepseek"@, 0, 0);
    reveal_strlit("gemini-3.7");
    lemma_absent_char(s, "gemini-3.7"@, 0, 0);
    reveal_strlit("gemini");
    reveal_strlit("qwen3.8-2.4t");
    lemma_absent_char(s, "qwen3.8-2.4t"@, 11, 0);
    reveal_strlit("qwen3.8-27b");
    assert(s.subrange(5, 16) =~= "qwen3.8-27b"@);
    lemma_present(s, "qwen3.8-27b"@, 0, 5);
}

/// Every id the picker offers normalises to itself.
pub proof fn lemma_model_ids_are_fixed(m: Seq<char>)
    requires
        is_model_id(m),
    ensures
        normalize_model_spec(m) == m,
{
    lemma_fixed_deepseek();
    lemma_fixed_gemini();
    lemma_fixed_qwen_max();
    lemma_fixed_qwen_balanced();
}

/// Normalising any picker value gives an offered id, and normalising that id
/// again changes nothing.
pub proof fn lemma_normalize_model_idempotent(raw: Seq<char>)
    ensures
        is_model_id(normalize_model_spec(raw)),
        normalize_model_spec(normalize_model_spec(raw)) == normalize_model_spec(raw),
{
    lemma_model_ids_are_fixed(normalize_model_spec(raw));
}

/// The picker offers four models with distinct ids, the default among
/// them; each id normalises to itself and each has a 1M context.
pub proof fn lemma_catalog_is_well_formed()
    ensures
        catalog_spec().len() == 4,
        forall|i: int, j: int| 0 <= i < j < 4 ==> catalog_spec()[i].0 != catalog_spec()[j].0,
        exists|i: int| 0 <= i < 4 && catalog_spec()[i].0 == MODEL_DEEPSEEK@,
        forall|i: int|
            0 <= i < 4 ==> normalize_model_spec(#[trigger] catalog_spec()[i].0) == catalog_spec()[i].0
                && catalog_spec()[i].3 == "1M"@,
{
    reveal_strlit("deepseek/deepseek-v4-pro-0813");
    reveal_strlit("qwen/qwen3.8-2.4t-a95b");
    reveal_strlit("qwen/qwen3.8-27b");
    reveal_strlit("google/gemini-3.7-flash");
    let c = catalog_spec();
    assert(c[0].0 == MODEL_DEEPSEEK@);
    assert(c[0].0.len() == 29 && c[1].0.len() == 22 && c[2].0.len() == 23 && c[3].0.len() == 16);
    assert forall|i: int| 0 <= i < 4 implies normalize_model_spec(#[trigger] c[i].0) == c[i].0 && c[i].3 == "1M"@ by {
        lemma_model_ids_are_fixed(c[i].0);
    }
}

// ---------------------------------------------------------------------------
// Reading an OpenRouter error body
// ---------------------------------------------------------------------------

/// What serde_json reads of an error body's `error` object: its message,
/// its code as an unsigned number, a signed number and text, the
/// metadata's provider name and provider, and the metadata's raw text.
pub uninterp spec fn json_error_body(body: Seq<char>) -> Option<
    (
        Option<Seq<char>>,
        Option<u64>,
        Option<i64>,
        Option<Seq<char>>,
        Option<Seq<char>>,
        Option<Seq<char>>,
        Option<Seq<char>>,
    ),
>;

/// The raw reads of an error body.
pub struct ErrorBody {
    pub message: Option<String>,
    pub code_u64: Option<u64>,
    pub code_i64: Option<i64>,
    pub code_text: Option<String>,
    pub provider_name: Option<String>,
    pub provider: Option<String>,
    pub raw: Option<String>,
}

pub open spec fn text_view(o: Option<String>) -> Option<Seq<char>> {
    match o {
        Some(t) => Some(t@),
        None => None,
    }
}

pub open spec fn error_body_view(b: ErrorBody) -> (
    Option<Seq<char>>,
    Option<u64>,
    Option<i64>,
    Option<Seq<char>>,
    Option<Seq<char>>,
    Option<Seq<char>>,
    Option<Seq<char>>,
) {
    (
        text_view(b.message),
        b.code_u64,
        b.code_i64,
        text_view(b.code_text),
        text_view(b.provider_name),
        text_view(b.provider),
        text_view(b.raw),
    )
}

/// serde_json `from_str::<Value>` on the body, then, under `error`, the
/// `Value::as_str` of `message`, the `as_u64`, `as_i64` and `as_str` of
/// `code`, and the `as_str` of `metadata.provider_name`,
/// `metadata.provider` and `metadata.raw` (indexing a missing key gives
/// `Null`, which reads as none). `None` exactly when the body does not
/// parse. The result depends on the body alone.
#[verifier::external_body]
fn read_error_body(body: &str) -> (r: Option<ErrorBody>)
    ensures
        match r {
            None => json_error_body(body@) is None,
            Some(b) => json_error_body(body@) == Some(error_body_view(b)),
        },
{
    let v: serde_json::Value = match serde_json::from_str(body) {
        Ok(v) => v,
        Err(_) => return None,
    };
    let e = &v["error"];
    Some(ErrorBody {
        message: e["message"].as_str().map(String::from),
        code_u64: e["code"].as_u64(),
        code_i64: e["code"].as_i64(),
        code_text: e["code"].as_str().map(String::from),
        provider_name: e["metadata"]["provider_name"].as_str().map(String::from),
        provider: e["metadata"]["provider"].as_str().map(String::from),
        raw: e["metadata"]["raw"].as_str().map(String::from),
    })
}

/// The fields of an error body: its message; its code written in decimal
/// when numeric, else as text; its provider name, else its provider; its
/// raw text.
pub open spec fn fields_from(
    b: (
        Option<Seq<char>>,
        Option<u64>,
        Option<i64>,
        Option<Seq<char>>,
        Option<Seq<char>>,
        Option<Seq<char>>,
        Option<Seq<char>>,
    ),
) -> (Option<Seq<char>>, Option<Seq<char>>, Option<Seq<char>>, Option<Seq<char>>) {
    let code = match b.1 {
        Some(c) => Some(crate::text::dec_int(c as int)),
        None => match b.2 {
            Some(c) => Some(crate::text::dec_int(c as int)),
            None => b.3,
        },
    };
    let provider = match b.4 {
        Some(p) => Some(p),
        None => b.5,
    };
    (b.0, code, provider, b.6)
}

pub open spec fn fields_view(f: OpenRouterErrorFields) -> (
    Option<Seq<char>>,
    Option<Seq<char>>,
    Option<Seq<char>>,
    Option<Seq<char>>,
) {
    (text_view(f.message), text_view(f.code), text_view(f.provider), text_view(f.raw))
}

/// The error fields of an OpenRouter response body; `None` when the body
/// is not JSON.
pub fn error_fields(body: &str) -> (r: Option<OpenRouterErrorFields>)
    ensures
        r is None <==> json_error_body(body@) is None,
        r is Some ==> fields_view(r->0) == fields_from(json_error_body(body@)->0),
{
    let b = match read_error_body(body) {
        Some(b) => b,
        None => {
            return None;
        },
    };
    let code = match b.code_u64 {
        Some(c) => Some(string_of(&crate::text::dec_u64(c))),
        None => match b.code_i64 {
            Some(c) => Some(string_of(&crate::text::dec_i64(c))),
            None => b.code_text,
        },
    };
    let provider = match b.provider_name {
        Some(p) => Some(p),
        None => b.provider,
    };
    proof {
        if let Some(c) = b.code_u64 {
            assert(crate::text::dec_nat(c as nat) == crate::text::dec_int(c as int));
        }
    }
    Some(OpenRouterErrorFields { message: b.message, code, provider, raw: b.raw })
}

/// The message for a failed OpenRouter call, from the HTTP status and the
/// response body (see [`openrouter_err_text`]).
pub fn format_openrouter_err(http_status: Option<u16>, body: &str) -> (s: String)
    ensures
        exists|f: Option<OpenRouterErrorFields>|
            (f is None <==> json_error_body(body@) is None) && (f is Some ==> fields_view(f->0)
                == fields_from(json_error_body(body@)->0)) && s@ == openrouter_err_spec(
                http_status,
                body@,
                f,
            ),
{
    let f = error_fields(body);
    openrouter_err_text(http_status, body, f)
}

} // verus!
