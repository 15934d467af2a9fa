//! The decisions of one taste analysis run, as a state machine: the caller
//! performs each action (reading the store, calling the model, scoring,
//! recording the run) and hands back what came of it; the machine decides
//! what happens next.
use vstd::prelude::*;
use crate::model::{
    fallback_model, model_label, model_label_spec, should_fallback, should_fallback_spec,
    MODEL_DEEPSEEK, MODEL_GEMINI,
};
use crate::pool::opt_text;
use crate::text::{append_str, chars_of, string_of};

verus! {

/// Ratings an analysis needs.
pub const MIN_RATINGS: usize = 8;

/// Discovery queries run per analysis.
pub const DISCOVERY_QUERIES: usize = 3;

/// Where an analysis stands.
#[derive(Clone, Copy, PartialEq, Eq, Structural, Debug)]
pub enum AnalysisStage {
    Idle,
    CheckingCache,
    ReadingKey,
    Scoring,
    Critiquing,
    Retrying,
    Discovering,
    Reasoning,
    Recording,
    Done,
    Failed,
}

/// An analysis in progress: the chosen and the used model, whether web
/// discovery is on and was used, the note for the report, and the
/// discovery queries to run and run so far.
#[derive(Debug)]
pub struct AnalysisState {
    pub stage: AnalysisStage,
    pub model: String,
    pub used_model: String,
    pub web: bool,
    pub force_refresh: bool,
    pub used_web: bool,
    pub note: Option<String>,
    pub queries: usize,
    pub asked: usize,
}

/// What came of the last action.
#[derive(Debug)]
pub enum AnalysisEvent {
    Begin { rated: usize, model: String, web: bool, force_refresh: bool },
    CacheChecked { usable: bool },
    KeyRead { present: bool },
    Shortlisted { size: usize, semantic_error: Option<String> },
    CriticAnswered { error: Option<String>, queries: usize },
    DiscoveryAnswered { used_web: bool },
    ReasonerAnswered { error: Option<String> },
    RunLogged { error: Option<String> },
}

/// What the caller does next.
#[derive(Debug)]
pub enum AnalysisAction {
    CheckCache,
    ReadKey,
    UseSnapshot,
    Score,
    AskCritic { model: String },
    Discover { model: String, query: usize },
    AskReasoner { model: String },
    Record,
    Finish,
    Fail { message: String },
    Wait,
}

/// The state as plain values.
pub struct StateView {
    pub stage: AnalysisStage,
    pub model: Seq<char>,
    pub used_model: Seq<char>,
    pub web: bool,
    pub force_refresh: bool,
    pub used_web: bool,
    pub note: Option<Seq<char>>,
    pub queries: nat,
    pub asked: nat,
}

pub enum EventView {
    Begin(nat, Seq<char>, bool, bool),
    CacheChecked(bool),
    KeyRead(bool),
    Shortlisted(nat, Option<Seq<char>>),
    CriticAnswered(Option<Seq<char>>, nat),
    DiscoveryAnswered(bool),
    ReasonerAnswered(Option<Seq<char>>),
    RunLogged(Option<Seq<char>>),
}

pub enum ActionView {
    CheckCache,
    ReadKey,
    UseSnapshot,
    Score,
    AskCritic(Seq<char>),
    Discover(Seq<char>, nat),
    AskReasoner(Seq<char>),
    Record,
    Finish,
    Fail(Seq<char>),
    Wait,
}

impl AnalysisState {
    pub open spec fn view(&self) -> StateView {
        StateView {
            stage: self.stage,
            model: self.model@,
            used_model: self.used_model@,
            web: self.web,
            force_refresh: self.force_refresh,
            used_web: self.used_web,
            note: opt_text(self.note),
            queries: self.queries as nat,
            asked: self.asked as nat,
        }
    }
}

impl AnalysisEvent {
    pub open spec fn view(&self) -> EventView {
        match self {
            AnalysisEvent::Begin { rated, model, web, force_refresh } => EventView::Begin(
                *rated as nat,
                model@,
                *web,
                *force_refresh,
            ),
            AnalysisEvent::CacheChecked { usable } => EventView::CacheChecked(*usable),
            AnalysisEvent::KeyRead { present } => EventView::KeyRead(*present),
            AnalysisEvent::Shortlisted { size, semantic_error } => EventView::Shortlisted(
                *size as nat,
                opt_text(*semantic_error),
            ),
            AnalysisEvent::CriticAnswered { error, queries } => EventView::CriticAnswered(
                opt_text(*error),
                *queries as nat,
            ),
            AnalysisEvent::DiscoveryAnswered { used_web } => EventView::DiscoveryAnswered(*used_web),
            AnalysisEvent::ReasonerAnswered { error } => EventView::ReasonerAnswered(opt_text(*error)),
            AnalysisEvent::RunLogged { error } => EventView::RunLogged(opt_text(*error)),
        }
    }
}

impl AnalysisAction {
    pub open spec fn view(&self) -> ActionView {
        match self {
            AnalysisAction::CheckCache => ActionView::CheckCache,
            AnalysisAction::ReadKey => ActionView::ReadKey,
            AnalysisAction::UseSnapshot => ActionView::UseSnapshot,
            AnalysisAction::Score => ActionView::Score,
            AnalysisAction::AskCritic { model } => ActionView::AskCritic(model@),
            AnalysisAction::Discover { model, query } => ActionView::Discover(model@, *query as nat),
            AnalysisAction::AskReasoner { model } => ActionView::AskReasoner(model@),
            AnalysisAction::Record => ActionView::Record,
            AnalysisAction::Finish => ActionView::Finish,
            AnalysisAction::Fail { message } => ActionView::Fail(message@),
            AnalysisAction::Wait => ActionView::Wait,
        }
    }
}

/// The state a run starts from.
pub fn idle_analysis() -> (s: AnalysisState)
    ensures
        s.stage == AnalysisStage::Idle,
        s.model@ == Seq::<char>::empty(),
        s.used_model@ == Seq::<char>::empty(),
        !s.web && !s.force_refresh && !s.used_web,
        s.note is None,
        s.queries == 0 && s.asked == 0,
        analysis_wf(s@),
{
    AnalysisState {
        stage: AnalysisStage::Idle,
        model: String::new(),
        used_model: String::new(),
        web: false,
        force_refresh: false,
        used_web: false,
        note: None,
        queries: 0,
        asked: 0,
    }
}

pub open spec fn too_few_ratings_msg() -> Seq<char> {
    "Rate at least 8 films first so the agent has edges to work with."@
}

pub open spec fn no_key_msg() -> Seq<char> {
    "Add an OpenRouter key in Settings. DeepSeek V4 Pro 0813 is the recommended default."@
}

pub open spec fn no_shortlist_msg() -> Seq<char> {
    "Could not build a candidate shortlist. Finish matching posters, then try again."@
}

/// The model a stalled critic pass is retried with.
pub open spec fn fallback_spec(model: Seq<char>) -> Seq<char> {
    if model == MODEL_DEEPSEEK@ {
        MODEL_GEMINI@
    } else {
        MODEL_DEEPSEEK@
    }
}

pub open spec fn fell_back_note(model: Seq<char>) -> Seq<char> {
    "Fell back to "@ + model_label_spec(fallback_spec(model)) + " after "@ + model_label_spec(model)
        + " stalled on the critic pass."@
}

pub open spec fn reasoner_failed_msg(model: Seq<char>, err: Seq<char>) -> Seq<char> {
    "taste profile · "@ + model_label_spec(model) + ": "@ + err
}

pub open spec fn run_log_note(prev: Option<Seq<char>>, err: Seq<char>) -> Seq<char> {
    match prev {
        Some(p) => p + " Run log failed: "@ + err,
        None => "Run log failed: "@ + err,
    }
}

pub open spec fn min_nat(a: nat, b: nat) -> nat {
    if a <= b {
        a
    } else {
        b
    }
}

/// After the critic pass: the discovery queries when web discovery is on
/// (at most three), else straight to the taste profile.
pub open spec fn after_critic(s: StateView, queries: nat) -> (StateView, ActionView) {
    let q = min_nat(queries, DISCOVERY_QUERIES as nat);
    if s.web && q > 0 {
        (
            StateView { stage: AnalysisStage::Discovering, queries: q, asked: 0, ..s },
            ActionView::Discover(s.used_model, 0),
        )
    } else {
        (StateView { stage: AnalysisStage::Reasoning, ..s }, ActionView::AskReasoner(s.used_model))
    }
}

/// The next state and action for a state and an event; an event that does
/// not belong to the stage changes nothing.
pub open spec fn step_spec(s: StateView, e: EventView) -> (StateView, ActionView) {
    match (s.stage, e) {
        (AnalysisStage::Idle, EventView::Begin(rated, model, web, force_refresh)) => {
            let t = StateView { model, used_model: model, web, force_refresh, ..s };
            if rated < MIN_RATINGS {
                (StateView { stage: AnalysisStage::Failed, ..t }, ActionView::Fail(too_few_ratings_msg()))
            } else if !force_refresh {
                (StateView { stage: AnalysisStage::CheckingCache, ..t }, ActionView::CheckCache)
            } else {
                (StateView { stage: AnalysisStage::ReadingKey, ..t }, ActionView::ReadKey)
            }
        },
        (AnalysisStage::CheckingCache, EventView::CacheChecked(usable)) => if usable {
            (StateView { stage: AnalysisStage::Done, ..s }, ActionView::UseSnapshot)
        } else {
            (StateView { stage: AnalysisStage::ReadingKey, ..s }, ActionView::ReadKey)
        },
        (AnalysisStage::ReadingKey, EventView::KeyRead(present)) => if present {
            (StateView { stage: AnalysisStage::Scoring, ..s }, ActionView::Score)
        } else {
            (StateView { stage: AnalysisStage::Failed, ..s }, ActionView::Fail(no_key_msg()))
        },
        (AnalysisStage::Scoring, EventView::Shortlisted(size, semantic_error)) => if size == 0 {
            (StateView { stage: AnalysisStage::Failed, ..s }, ActionView::Fail(no_shortlist_msg()))
        } else {
            let note = match semantic_error {
                Some(err) => Some("Semantic fit was partially unavailable: "@ + err),
                None => None,
            };
            (StateView { stage: AnalysisStage::Critiquing, note, ..s }, ActionView::AskCritic(s.model))
        },
        (AnalysisStage::Critiquing, EventView::CriticAnswered(error, queries)) => match error {
            None => after_critic(s, queries),
            Some(err) => if should_fallback_spec(err) {
                let next = fallback_spec(s.model);
                (
                    StateView {
                        stage: AnalysisStage::Retrying,
                        used_model: next,
                        note: Some(fell_back_note(s.model)),
                        ..s
                    },
                    ActionView::AskCritic(next),
                )
            } else {
                after_critic(s, 0)
            },
        },
        (AnalysisStage::Retrying, EventView::CriticAnswered(error, queries)) => match error {
            None => after_critic(s, queries),
            Some(_) => after_critic(s, 0),
        },
        (AnalysisStage::Discovering, EventView::DiscoveryAnswered(used_web)) => {
            let t = StateView { used_web: s.used_web || used_web, asked: s.asked + 1, ..s };
            if t.asked < t.queries {
                (t, ActionView::Discover(s.used_model, t.asked))
            } else {
                (StateView { stage: AnalysisStage::Reasoning, ..t }, ActionView::AskReasoner(s.used_model))
            }
        },
        (AnalysisStage::Reasoning, EventView::ReasonerAnswered(error)) => match error {
            None => (StateView { stage: AnalysisStage::Recording, ..s }, ActionView::Record),
            Some(err) => (
                StateView { stage: AnalysisStage::Failed, ..s },
                ActionView::Fail(reasoner_failed_msg(s.used_model, err)),
            ),
        },
        (AnalysisStage::Recording, EventView::RunLogged(error)) => match error {
            None => (StateView { stage: AnalysisStage::Done, ..s }, ActionView::Finish),
            Some(err) => (
                StateView { stage: AnalysisStage::Done, note: Some(run_log_note(s.note, err)), ..s },
                ActionView::Finish,
            ),
        },
        _ => (s, ActionView::Wait),
    }
}

fn cat(a: &str, b: &str) -> (s: String)
    ensures
        s@ == a@ + b@,
{
    let mut v = chars_of(a);
    append_str(&mut v, b);
    string_of(&v)
}

fn after_critic_exec(s: AnalysisState, queries: usize) -> (r: (AnalysisState, AnalysisAction))
    ensures
        (r.0@, r.1@) == after_critic(s@, queries as nat),
{
    let q = if queries < DISCOVERY_QUERIES {
        queries
    } else {
        DISCOVERY_QUERIES
    };
    let m = s.used_model.clone();
    if s.web && q > 0 {
        (AnalysisState { stage: AnalysisStage::Discovering, queries: q, asked: 0, ..s }, AnalysisAction::Discover {
            model: m,
            query: 0,
        })
    } else {
        (AnalysisState { stage: AnalysisStage::Reasoning, ..s }, AnalysisAction::AskReasoner { model: m })
    }
}

/// A state a run can reach: no more discovery queries asked than planned,
/// at most three planned, and one still to ask while discovering.
pub open spec fn analysis_wf(s: StateView) -> bool {
    &&& s.asked <= s.queries <= DISCOVERY_QUERIES
    &&& s.stage == AnalysisStage::Discovering ==> s.asked < s.queries
}

/// Every step keeps a reachable state reachable.
pub proof fn lemma_step_keeps_wf(s: StateView, e: EventView)
    requires
        analysis_wf(s),
    ensures
        analysis_wf(step_spec(s, e).0),
{
}

/// One step of an analysis: the next state and the action to perform.
pub fn analysis_step(s: AnalysisState, e: AnalysisEvent) -> (r: (AnalysisState, AnalysisAction))
    requires
        analysis_wf(s@),
    ensures
        (r.0@, r.1@) == step_spec(s@, e@),
        analysis_wf(r.0@),
{
    match (s.stage, e) {
        (AnalysisStage::Idle, AnalysisEvent::Begin { rated, model, web, force_refresh }) => {
            let t = AnalysisState { used_model: model.clone(), model, web, force_refresh, ..s };
            if rated < MIN_RATINGS {
                let msg = String::from_str("Rate at least 8 films first so the agent has edges to work with.");
                proof {
                    reveal_strlit("Rate at least 8 films first so the agent has edges to work with.");
                }
                (AnalysisState { stage: AnalysisStage::Failed, ..t }, AnalysisAction::Fail { message: msg })
            } else if !force_refresh {
                (AnalysisState { stage: AnalysisStage::CheckingCache, ..t }, AnalysisAction::CheckCache)
            } else {
                (AnalysisState { stage: AnalysisStage::ReadingKey, ..t }, AnalysisAction::ReadKey)
            }
        },
        (AnalysisStage::CheckingCache, AnalysisEvent::CacheChecked { usable }) => if usable {
            (AnalysisState { stage: AnalysisStage::Done, ..s }, AnalysisAction::UseSnapshot)
        } else {
            (AnalysisState { stage: AnalysisStage::ReadingKey, ..s }, AnalysisAction::ReadKey)
        },
        (AnalysisStage::ReadingKey, AnalysisEvent::KeyRead { present }) => if present {
            (AnalysisState { stage: AnalysisStage::Scoring, ..s }, AnalysisAction::Score)
        } else {
            let msg = String::from_str(
                "Add an OpenRouter key in Settings. DeepSeek V4 Pro 0813 is the recommended default.",
            );
            (AnalysisState { stage: AnalysisStage::Failed, ..s }, AnalysisAction::Fail { message: msg })
        },
        (AnalysisStage::Scoring, AnalysisEvent::Shortlisted { size, semantic_error }) => if size == 0 {
            let msg = String::from_str(
                "Could not build a candidate shortlist. Finish matching posters, then try again.",
            );
            (AnalysisState { stage: AnalysisStage::Failed, ..s }, AnalysisAction::Fail { message: msg })
        } else {
            let note = match semantic_error {
                Some(err) => Some(cat("Semantic fit was partially unavailable: ", err.as_str())),
                None => None,
            };
            let m = s.model.clone();
            (AnalysisState { stage: AnalysisStage::Critiquing, note, ..s }, AnalysisAction::AskCritic {
                model: m,
            })
        },
        (AnalysisStage::Critiquing, AnalysisEvent::CriticAnswered { error, queries }) => match error {
            None => after_critic_exec(s, queries),
            Some(err) => if should_fallback(err.as_str()) {
                let next = fallback_model(s.model.as_str());
                let a = cat("Fell back to ", model_label(next));
                let b = cat(a.as_str(), " after ");
                let c = cat(b.as_str(), model_label(s.model.as_str()));
                let note = cat(c.as_str(), " stalled on the critic pass.");
                (
                    AnalysisState {
                        stage: AnalysisStage::Retrying,
                        used_model: String::from_str(next),
                        note: Some(note),
                        ..s
                    },
                    AnalysisAction::AskCritic { model: String::from_str(next) },
                )
            } else {
                after_critic_exec(s, 0)
            },
        },
        (AnalysisStage::Retrying, AnalysisEvent::CriticAnswered { error, queries }) => match error {
            None => after_critic_exec(s, queries),
            Some(_) => after_critic_exec(s, 0),
        },
        (AnalysisStage::Discovering, AnalysisEvent::DiscoveryAnswered { used_web }) => {
            let m = s.used_model.clone();
            let t = AnalysisState { used_web: s.used_web || used_web, asked: s.asked + 1, ..s };
            if t.asked < t.queries {
                let q = t.asked;
                (t, AnalysisAction::Discover { model: m, query: q })
            } else {
                (AnalysisState { stage: AnalysisStage::Reasoning, ..t }, AnalysisAction::AskReasoner {
                    model: m,
                })
            }
        },
        (AnalysisStage::Reasoning, AnalysisEvent::ReasonerAnswered { error }) => match error {
            None => (AnalysisState { stage: AnalysisStage::Recording, ..s }, AnalysisAction::Record),
            Some(err) => {
                let a = cat("taste profile · ", model_label(s.used_model.as_str()));
                let b = cat(a.as_str(), ": ");
                let msg = cat(b.as_str(), err.as_str());
                (AnalysisState { stage: AnalysisStage::Failed, ..s }, AnalysisAction::Fail { message: msg })
            },
        },
        (AnalysisStage::Recording, AnalysisEvent::RunLogged { error }) => match error {
            None => (AnalysisState { stage: AnalysisStage::Done, ..s }, AnalysisAction::Finish),
            Some(err) => {
                let note = match &s.note {
                    Some(prev) => {
                        let a = cat(prev.as_str(), " Run log failed: ");
                        cat(a.as_str(), err.as_str())
                    },
                    None => cat("Run log failed: ", err.as_str()),
                };
                (AnalysisState { stage: AnalysisStage::Done, note: Some(note), ..s }, AnalysisAction::Finish)
            },
        },
        (_, _) => (s, AnalysisAction::Wait),
    }
}

} // verus!
