//! Suggestion telemetry: the integer statistics over recorded suggestion events.

use vstd::prelude::*;

use crate::types::CandidateDecision;

verus! {

/// What the statistics read of a suggestion event.
#[derive(Debug, Clone, Copy, PartialEq, Eq, Structural)]
pub struct TelemetryFacts {
    pub decision: CandidateDecision,
    pub jev_response_ms: u64,
    pub total_ms: u64,
    pub input_tokens: Option<u64>,
    pub output_tokens: Option<u64>,
}

/// The integer statistics of suggestion events, accumulated one event at a time: how
/// many selected (including explicit choices), none (including no candidates) and errors;
/// the response times (only non-zero ones), the total times, the reported token counts,
/// and how many events reported usage. (Rates and averages are derived by the caller.)
#[derive(Debug, Clone)]
pub struct TelemetryCounts {
    pub events: usize,
    pub selected: usize,
    pub none: usize,
    pub errors: usize,
    pub response_times: Vec<u64>,
    pub total_times: Vec<u64>,
    pub input_tokens: Vec<u64>,
    pub output_tokens: Vec<u64>,
    pub usage_events: usize,
}

pub open spec fn push_some(v: Seq<u64>, x: Option<u64>) -> Seq<u64> {
    match x {
        Some(t) => v.push(t),
        None => v,
    }
}

impl TelemetryCounts {
    pub fn new() -> (res: TelemetryCounts)
        ensures
            res.events == 0 && res.selected == 0 && res.none == 0 && res.errors == 0 && res.usage_events == 0,
            res.response_times@.len() == 0 && res.total_times@.len() == 0,
            res.input_tokens@.len() == 0 && res.output_tokens@.len() == 0,
    {
        TelemetryCounts {
            events: 0,
            selected: 0,
            none: 0,
            errors: 0,
            response_times: Vec::new(),
            total_times: Vec::new(),
            input_tokens: Vec::new(),
            output_tokens: Vec::new(),
            usage_events: 0,
        }
    }

    pub open spec fn bounded(&self) -> bool {
        &&& self.events < usize::MAX
        &&& self.selected <= self.events && self.none <= self.events && self.errors <= self.events
        &&& self.usage_events <= self.events
    }

    /// Whether one more event can be counted without overflowing.
    pub fn has_room(&self) -> (res: bool)
        ensures
            res == self.bounded(),
    {
        self.events < usize::MAX && self.selected <= self.events && self.none <= self.events
            && self.errors <= self.events && self.usage_events <= self.events
    }

    pub fn add(&mut self, e: &TelemetryFacts)
        requires
            old(self).bounded(),
        ensures
            final(self).events == old(self).events + 1,
            final(self).selected == old(self).selected + if e.decision == CandidateDecision::Selected
                || e.decision == CandidateDecision::Explicit { 1int } else { 0 },
            final(self).none == old(self).none + if e.decision == CandidateDecision::NoMatch
                || e.decision == CandidateDecision::NoCandidates { 1int } else { 0 },
            final(self).errors == old(self).errors + if e.decision == CandidateDecision::Error { 1int } else { 0 },
            final(self).response_times@ == (if e.jev_response_ms > 0 {
                old(self).response_times@.push(e.jev_response_ms)
            } else {
                old(self).response_times@
            }),
            final(self).total_times@ == old(self).total_times@.push(e.total_ms),
            final(self).input_tokens@ == push_some(old(self).input_tokens@, e.input_tokens),
            final(self).output_tokens@ == push_some(old(self).output_tokens@, e.output_tokens),
            final(self).usage_events == old(self).usage_events + if e.input_tokens is Some || e.output_tokens is Some { 1int } else { 0 },
    {
        self.events = self.events + 1;
        match e.decision {
            CandidateDecision::Selected | CandidateDecision::Explicit => self.selected = self.selected + 1,
            CandidateDecision::NoMatch | CandidateDecision::NoCandidates => self.none = self.none + 1,
            CandidateDecision::Error => self.errors = self.errors + 1,
        }
        if e.jev_response_ms > 0 {
            self.response_times.push(e.jev_response_ms);
        }
        self.total_times.push(e.total_ms);
        match e.input_tokens {
            Some(t) => self.input_tokens.push(t),
            None => {},
        }
        match e.output_tokens {
            Some(t) => self.output_tokens.push(t),
            None => {},
        }
        if e.input_tokens.is_some() || e.output_tokens.is_some() {
            self.usage_events = self.usage_events + 1;
        }
    }
}

} // verus!
