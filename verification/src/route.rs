//! Model and reasoning routes for a task's difficulty, and how an observed route is judged.
//!
//! The tool never switches Codex's model itself: a planned route stays `Degraded` until the
//! hook reports which model and reasoning level were actually in use, and only a report that
//! matches both makes it `Applied`.

use vstd::prelude::*;

use crate::text::{eq_lit, keyword_key, keyword_key_of};

verus! {

pub const ROUTE_SCHEMA_VERSION: u8 = 1;

#[derive(Debug, Clone, Copy, PartialEq, Eq, Structural)]
pub enum TaskDifficulty {
    Low,
    Medium,
    High,
    Unknown,
}

#[derive(Debug, Clone, Copy, PartialEq, Eq, Structural)]
pub enum ModelFamily {
    Luna,
    Terra,
    Sol,
}

#[derive(Debug, Clone, Copy, PartialEq, Eq, Structural)]
pub enum RouteStatus {
    Applied,
    Degraded,
    Failed,
}

#[derive(Debug, Clone, Copy, PartialEq, Eq, Structural)]
pub enum ReasoningLevel {
    Max,
    High,
    Medium,
}

/// What the hook observed of the route in use.
#[derive(Debug, Clone, Copy, PartialEq, Eq, Structural)]
pub struct RouteEvidence {
    pub model: Option<ModelFamily>,
    pub reasoning: Option<ReasoningLevel>,
}

/// The difficulty of a rounded score level: 0, 1 and 2 are low, medium and high.
pub open spec fn spec_difficulty_of_level(level: i64) -> TaskDifficulty {
    if level == 0 {
        TaskDifficulty::Low
    } else if level == 1 {
        TaskDifficulty::Medium
    } else if level == 2 {
        TaskDifficulty::High
    } else {
        TaskDifficulty::Unknown
    }
}

/// Maps the rounded score of the difficulty question to a difficulty.
pub fn difficulty_of_level(level: i64) -> (res: TaskDifficulty)
    ensures
        res == spec_difficulty_of_level(level),
{
    if level == 0 {
        TaskDifficulty::Low
    } else if level == 1 {
        TaskDifficulty::Medium
    } else if level == 2 {
        TaskDifficulty::High
    } else {
        TaskDifficulty::Unknown
    }
}

/// The requested model, its reasoning level and the escalation chain for a difficulty.
pub open spec fn spec_route(d: TaskDifficulty) -> (ModelFamily, ReasoningLevel, Seq<ModelFamily>) {
    match d {
        TaskDifficulty::Low => (
            ModelFamily::Luna,
            ReasoningLevel::Max,
            seq![ModelFamily::Luna, ModelFamily::Terra, ModelFamily::Sol],
        ),
        TaskDifficulty::Medium => (
            ModelFamily::Terra,
            ReasoningLevel::High,
            seq![ModelFamily::Terra, ModelFamily::Sol],
        ),
        TaskDifficulty::High => (ModelFamily::Sol, ReasoningLevel::Medium, seq![ModelFamily::Sol]),
        TaskDifficulty::Unknown => (ModelFamily::Luna, ReasoningLevel::Max, seq![]),
    }
}

/// How strong a model is: Luna, then Terra, then Sol.
pub open spec fn model_strength(m: ModelFamily) -> int {
    match m {
        ModelFamily::Luna => 0,
        ModelFamily::Terra => 1,
        ModelFamily::Sol => 2,
    }
}

/// How much reasoning a level asks for: medium, then high, then max.
pub open spec fn reasoning_effort(r: ReasoningLevel) -> int {
    match r {
        ReasoningLevel::Medium => 0,
        ReasoningLevel::High => 1,
        ReasoningLevel::Max => 2,
    }
}

/// How hard a known difficulty is: low, then medium, then high.
pub open spec fn difficulty_rank(d: TaskDifficulty) -> int {
    match d {
        TaskDifficulty::Low => 0,
        TaskDifficulty::Medium => 1,
        TaskDifficulty::High => 2,
        TaskDifficulty::Unknown => -1,
    }
}

/// Routing escalates: for a known difficulty, the escalation chain starts at the requested
/// model and climbs one model at a time up to Sol, the strongest, so it holds every model
/// at least as strong as the requested one, in order. A harder difficulty requests a
/// stronger model with less reasoning. An unknown difficulty has no chain.
pub proof fn lemma_route_escalates(d: TaskDifficulty, e: TaskDifficulty)
    ensures
        d != TaskDifficulty::Unknown ==> {
            let (m, _, chain) = spec_route(d);
            &&& chain.len() == 3 - model_strength(m)
            &&& chain[0] == m
            &&& chain.last() == ModelFamily::Sol
            &&& forall|j: int| 0 <= j < chain.len() ==> model_strength(#[trigger] chain[j]) == model_strength(m) + j
        },
        d == TaskDifficulty::Unknown ==> spec_route(d).2.len() == 0,
        d != TaskDifficulty::Unknown && e != TaskDifficulty::Unknown && difficulty_rank(d) < difficulty_rank(e) ==> (
            model_strength(spec_route(d).0) < model_strength(spec_route(e).0)
            && reasoning_effort(spec_route(d).1) > reasoning_effort(spec_route(e).1)),
{
}

pub fn route_for(difficulty: TaskDifficulty) -> (res: (ModelFamily, ReasoningLevel, Vec<ModelFamily>))
    ensures
        res.0 == spec_route(difficulty).0,
        res.1 == spec_route(difficulty).1,
        res.2@ == spec_route(difficulty).2,
{
    match difficulty {
        TaskDifficulty::Low => {
            let v = vec![ModelFamily::Luna, ModelFamily::Terra, ModelFamily::Sol];
            assert(v@ =~= spec_route(difficulty).2);
            (ModelFamily::Luna, ReasoningLevel::Max, v)
        },
        TaskDifficulty::Medium => {
            let v = vec![ModelFamily::Terra, ModelFamily::Sol];
            assert(v@ =~= spec_route(difficulty).2);
            (ModelFamily::Terra, ReasoningLevel::High, v)
        },
        TaskDifficulty::High => {
            let v = vec![ModelFamily::Sol];
            assert(v@ =~= spec_route(difficulty).2);
            (ModelFamily::Sol, ReasoningLevel::Medium, v)
        },
        TaskDifficulty::Unknown => {
            let v: Vec<ModelFamily> = Vec::new();
            assert(v@ =~= spec_route(difficulty).2);
            (ModelFamily::Luna, ReasoningLevel::Max, v)
        },
    }
}

/// Model names are matched after trimming and ASCII lowercasing.
pub open spec fn spec_parse_model(value: Seq<char>) -> Option<ModelFamily> {
    let k = keyword_key(value);
    if k == "luna"@ || k == "gpt-5.6-luna"@ {
        Some(ModelFamily::Luna)
    } else if k == "terra"@ || k == "gpt-5.6-terra"@ {
        Some(ModelFamily::Terra)
    } else if k == "sol"@ || k == "gpt-5.6-sol"@ {
        Some(ModelFamily::Sol)
    } else {
        None
    }
}

pub open spec fn spec_parse_reasoning(value: Seq<char>) -> Option<ReasoningLevel> {
    let k = keyword_key(value);
    if k == "max"@ {
        Some(ReasoningLevel::Max)
    } else if k == "high"@ {
        Some(ReasoningLevel::High)
    } else if k == "medium"@ || k == "med"@ {
        Some(ReasoningLevel::Medium)
    } else {
        None
    }
}

pub fn parse_model(value: &str) -> (res: Option<ModelFamily>)
    ensures
        res == spec_parse_model(value@),
{
    let k = keyword_key_of(value);
    if eq_lit(&k, "luna") || eq_lit(&k, "gpt-5.6-luna") {
        Some(ModelFamily::Luna)
    } else if eq_lit(&k, "terra") || eq_lit(&k, "gpt-5.6-terra") {
        Some(ModelFamily::Terra)
    } else if eq_lit(&k, "sol") || eq_lit(&k, "gpt-5.6-sol") {
        Some(ModelFamily::Sol)
    } else {
        None
    }
}

pub fn parse_reasoning(value: &str) -> (res: Option<ReasoningLevel>)
    ensures
        res == spec_parse_reasoning(value@),
{
    let k = keyword_key_of(value);
    if eq_lit(&k, "max") {
        Some(ReasoningLevel::Max)
    } else if eq_lit(&k, "high") {
        Some(ReasoningLevel::High)
    } else if eq_lit(&k, "medium") || eq_lit(&k, "med") {
        Some(ReasoningLevel::Medium)
    } else {
        None
    }
}

pub open spec fn opt_model(value: Option<Seq<char>>) -> Option<ModelFamily> {
    match value {
        Some(v) => spec_parse_model(v),
        None => None,
    }
}

pub open spec fn opt_reasoning(value: Option<Seq<char>>) -> Option<ReasoningLevel> {
    match value {
        Some(v) => spec_parse_reasoning(v),
        None => None,
    }
}

pub open spec fn opt_str_view(value: Option<&str>) -> Option<Seq<char>> {
    match value {
        Some(v) => Some(v@),
        None => None,
    }
}

/// The route evidence in a hook payload: present when the model or the reasoning level is
/// recognised.
pub fn route_evidence_from_payload(model: Option<&str>, reasoning: Option<&str>) -> (res: Option<
    RouteEvidence,
>)
    ensures
        ({
            let m = opt_model(opt_str_view(model));
            let r = opt_reasoning(opt_str_view(reasoning));
            res == if m is Some || r is Some {
                Some(RouteEvidence { model: m, reasoning: r })
            } else {
                None
            }
        }),
{
    let m = match model {
        Some(v) => parse_model(v),
        None => None,
    };
    let r = match reasoning {
        Some(v) => parse_reasoning(v),
        None => None,
    };
    if m.is_some() || r.is_some() {
        Some(RouteEvidence { model: m, reasoning: r })
    } else {
        None
    }
}

/// A planned route and its observed state. (The decision's score and confidence, which are
/// floating-point, travel beside it.)
#[derive(Debug, Clone, PartialEq, Eq)]
pub struct RoutePlan {
    pub schema_version: u8,
    pub difficulty: TaskDifficulty,
    pub model: Option<ModelFamily>,
    pub reasoning: Option<ReasoningLevel>,
    pub fallback_chain: Vec<ModelFamily>,
    pub status: RouteStatus,
    pub applied_model: Option<ModelFamily>,
    pub applied_reasoning: Option<ReasoningLevel>,
    pub reason: String,
}

/// A route that could not be planned: no difficulty, model, reasoning or fallback, failed
/// for `reason`.
pub open spec fn is_failed_route(r: RoutePlan, reason: Seq<char>) -> bool {
    &&& r.schema_version == ROUTE_SCHEMA_VERSION
    &&& r.difficulty == TaskDifficulty::Unknown
    &&& r.model is None
    &&& r.reasoning is None
    &&& r.fallback_chain@.len() == 0
    &&& r.status == RouteStatus::Failed
    &&& r.applied_model is None
    &&& r.applied_reasoning is None
    &&& r.reason@ == reason
}

impl RoutePlan {
    /// A route that could not be planned.
    pub fn failed(reason: &str) -> (res: RoutePlan)
        ensures
            is_failed_route(res, reason@),
    {
        RoutePlan {
            schema_version: ROUTE_SCHEMA_VERSION,
            difficulty: TaskDifficulty::Unknown,
            model: None,
            reasoning: None,
            fallback_chain: Vec::new(),
            status: RouteStatus::Failed,
            applied_model: None,
            applied_reasoning: None,
            reason: reason.to_owned(),
        }
    }

    /// The route for a difficulty. A hook cannot switch the model, so an accepted decision
    /// gives a `Degraded` route; any other decision gives a `Failed` one with its reason.
    pub fn planned(difficulty: TaskDifficulty, accepted: bool, reason: &str) -> (res: RoutePlan)
        ensures
            res.schema_version == ROUTE_SCHEMA_VERSION,
            res.difficulty == difficulty,
            res.model == Some(spec_route(difficulty).0),
            res.reasoning == Some(spec_route(difficulty).1),
            res.fallback_chain@ == spec_route(difficulty).2,
            res.status == (if accepted {
                RouteStatus::Degraded
            } else {
                RouteStatus::Failed
            }),
            res.applied_model is None,
            res.applied_reasoning is None,
            res.reason@ == (if accepted {
                "hook_cannot_apply_model_route"@
            } else {
                reason@
            }),
    {
        let (model, reasoning, chain) = route_for(difficulty);
        let (status, why) = if accepted {
            (RouteStatus::Degraded, "hook_cannot_apply_model_route".to_owned())
        } else {
            (RouteStatus::Failed, reason.to_owned())
        };
        RoutePlan {
            schema_version: ROUTE_SCHEMA_VERSION,
            difficulty,
            model: Some(model),
            reasoning: Some(reasoning),
            fallback_chain: chain,
            status,
            applied_model: None,
            applied_reasoning: None,
            reason: why,
        }
    }

    /// Judges the route against what the hook observed: `Applied` exactly when both the
    /// model and the reasoning level match the plan, `Failed` otherwise; without evidence the
    /// route is unchanged.
    pub fn with_application(self, evidence: Option<RouteEvidence>) -> (res: RoutePlan)
        ensures
            evidence is None ==> res == self,
            evidence matches Some(e) ==> {
                &&& res.applied_model == e.model
                &&& res.applied_reasoning == e.reasoning
                &&& res.schema_version == self.schema_version
                &&& res.difficulty == self.difficulty
                &&& res.model == self.model
                &&& res.reasoning == self.reasoning
                &&& res.fallback_chain@ == self.fallback_chain@
                &&& (e.model == self.model && e.reasoning == self.reasoning) ==> (res.status
                    == RouteStatus::Applied && res.reason@ == "route_applied_with_hook_evidence"@)
                &&& !(e.model == self.model && e.reasoning == self.reasoning) ==> (res.status
                    == RouteStatus::Failed && res.reason@ == "route_application_mismatch"@)
            },
    {
        match evidence {
            None => self,
            Some(e) => {
                let mut out = self;
                out.applied_model = e.model;
                out.applied_reasoning = e.reasoning;
                if e.model == out.model && e.reasoning == out.reasoning {
                    out.status = RouteStatus::Applied;
                    out.reason = "route_applied_with_hook_evidence".to_owned();
                } else {
                    out.status = RouteStatus::Failed;
                    out.reason = "route_application_mismatch".to_owned();
                }
                out
            },
        }
    }
}

} // verus!
