//! The values a host exchanges with the engine: process references, events,
//! manifests, requests and verdicts.
use vstd::prelude::*;

use crate::json::{JsonMap, JsonV, JsonValue};

verus! {

/// Names one version of one process of one domain.
#[derive(Clone, Debug, PartialEq, Eq, Hash)]
pub struct ProcessRef {
    pub domain: String,
    pub process: String,
    pub version: String,
}

pub struct ProcessRefV {
    pub domain: Seq<char>,
    pub process: Seq<char>,
    pub version: Seq<char>,
}

impl View for ProcessRef {
    type V = ProcessRefV;

    open spec fn view(&self) -> ProcessRefV {
        ProcessRefV { domain: self.domain@, process: self.process@, version: self.version@ }
    }
}

impl ProcessRef {
    pub fn new(domain: &str, process: &str, version: &str) -> (r: ProcessRef)
        ensures
            r@ == (ProcessRefV { domain: domain@, process: process@, version: version@ }),
    {
        ProcessRef {
            domain: domain.to_owned(),
            process: process.to_owned(),
            version: version.to_owned(),
        }
    }

    pub fn copy(&self) -> (r: ProcessRef)
        ensures
            r@ == self@,
    {
        ProcessRef {
            domain: self.domain.clone(),
            process: self.process.clone(),
            version: self.version.clone(),
        }
    }
}

/// What kind of history event a record describes.
#[derive(Clone, Copy, Debug, PartialEq, Eq)]
pub enum VpeEventKind {
    StateTransition,
    Migration,
}

/// One event of a process instance's history.
#[derive(Debug)]
pub struct VpeEvent {
    pub event_id: String,
    pub parent_event_id: Option<String>,
    pub trace_id: String,
    pub timestamp: i64,
    pub event_kind: VpeEventKind,
    pub action: String,
    pub state_before: String,
    pub state_after: String,
    pub metadata: JsonValue,
}

/// The slice of history a turn is evaluated against: the latest relevant
/// event (the anchor) and the events a guard may read.
#[derive(Debug)]
pub struct ChronicleView {
    pub anchor: VpeEvent,
    pub events: Vec<VpeEvent>,
}

impl ChronicleView {
    pub fn anchor(&self) -> (r: &VpeEvent)
        ensures
            *r == self.anchor,
    {
        &self.anchor
    }

    pub fn events(&self) -> (r: &[VpeEvent])
        ensures
            r@ == self.events@,
    {
        self.events.as_slice()
    }
}

/// A piece of history a state needs.
#[derive(Clone, Debug, PartialEq, Eq, Hash)]
pub enum HistoryRequirement {
    LastTransition,
    LastEventOfAction(String),
    EventsInWindow { action: String, duration_seconds: u64 },
}

pub enum HistoryRequirementV {
    LastTransition,
    LastEventOfAction(Seq<char>),
    EventsInWindow { action: Seq<char>, duration_seconds: u64 },
}

impl View for HistoryRequirement {
    type V = HistoryRequirementV;

    open spec fn view(&self) -> HistoryRequirementV {
        match self {
            HistoryRequirement::LastTransition => HistoryRequirementV::LastTransition,
            HistoryRequirement::LastEventOfAction(a) => HistoryRequirementV::LastEventOfAction(a@),
            HistoryRequirement::EventsInWindow { action, duration_seconds } =>
                HistoryRequirementV::EventsInWindow {
                action: action@,
                duration_seconds: *duration_seconds,
            },
        }
    }
}

impl HistoryRequirement {
    pub fn copy(&self) -> (r: HistoryRequirement)
        ensures
            r@ == self@,
    {
        match self {
            HistoryRequirement::LastTransition => HistoryRequirement::LastTransition,
            HistoryRequirement::LastEventOfAction(a) => HistoryRequirement::LastEventOfAction(
                a.clone(),
            ),
            HistoryRequirement::EventsInWindow { action, duration_seconds } =>
                HistoryRequirement::EventsInWindow {
                action: action.clone(),
                duration_seconds: *duration_seconds,
            },
        }
    }

    /// Whether two requirements ask for the same history.
    pub fn same_as(&self, other: &HistoryRequirement) -> (r: bool)
        ensures
            r == (self@ == other@),
    {
        match (self, other) {
            (HistoryRequirement::LastTransition, HistoryRequirement::LastTransition) => true,
            (HistoryRequirement::LastEventOfAction(a), HistoryRequirement::LastEventOfAction(b)) =>
                *a == *b,
            (
                HistoryRequirement::EventsInWindow { action: a, duration_seconds: x },
                HistoryRequirement::EventsInWindow { action: b, duration_seconds: y },
            ) => *a == *b && *x == *y,
            _ => false,
        }
    }
}

/// A context field a state needs.
#[derive(Clone, Debug, PartialEq, Eq, Hash)]
pub enum ContextRequirement {
    Field(String),
    SystemField(String),
}

pub enum ContextRequirementV {
    Field(Seq<char>),
    SystemField(Seq<char>),
}

impl View for ContextRequirement {
    type V = ContextRequirementV;

    open spec fn view(&self) -> ContextRequirementV {
        match self {
            ContextRequirement::Field(f) => ContextRequirementV::Field(f@),
            ContextRequirement::SystemField(f) => ContextRequirementV::SystemField(f@),
        }
    }
}

/// The context key a requirement names.
pub open spec fn requirement_key(r: ContextRequirementV) -> Seq<char> {
    match r {
        ContextRequirementV::Field(f) => f,
        ContextRequirementV::SystemField(f) => f,
    }
}

impl ContextRequirement {
    pub fn copy(&self) -> (r: ContextRequirement)
        ensures
            r@ == self@,
    {
        match self {
            ContextRequirement::Field(f) => ContextRequirement::Field(f.clone()),
            ContextRequirement::SystemField(f) => ContextRequirement::SystemField(f.clone()),
        }
    }

    /// Whether two requirements name the same field in the same way.
    pub fn same_as(&self, other: &ContextRequirement) -> (r: bool)
        ensures
            r == (self@ == other@),
    {
        match (self, other) {
            (ContextRequirement::Field(a), ContextRequirement::Field(b)) => *a == *b,
            (ContextRequirement::SystemField(a), ContextRequirement::SystemField(b)) => *a == *b,
            _ => false,
        }
    }

    /// The context key the requirement names.
    pub fn key(&self) -> (r: &String)
        ensures
            r@ == requirement_key(self@),
    {
        match self {
            ContextRequirement::Field(f) => f,
            ContextRequirement::SystemField(f) => f,
        }
    }
}

/// What one guard reads.
#[derive(Clone, Debug, Default, PartialEq, Eq)]
pub struct GuardRequirements {
    pub history: Vec<HistoryRequirement>,
    pub context: Vec<ContextRequirement>,
}

pub struct GuardRequirementsV {
    pub history: Seq<HistoryRequirementV>,
    pub context: Seq<ContextRequirementV>,
}

impl View for GuardRequirements {
    type V = GuardRequirementsV;

    open spec fn view(&self) -> GuardRequirementsV {
        GuardRequirementsV {
            history: self.history@.map_values(|h: HistoryRequirement| h@),
            context: self.context@.map_values(|c: ContextRequirement| c@),
        }
    }
}

/// What the host must load before a turn from a state: the history and the
/// context fields the state's guards read.
#[derive(Clone, Debug, Default)]
pub struct StateManifest {
    pub history_requirements: Vec<HistoryRequirement>,
    pub context_requirements: Vec<ContextRequirement>,
}

pub struct StateManifestV {
    pub history_requirements: Seq<HistoryRequirementV>,
    pub context_requirements: Seq<ContextRequirementV>,
}

impl View for StateManifest {
    type V = StateManifestV;

    open spec fn view(&self) -> StateManifestV {
        StateManifestV {
            history_requirements: self.history_requirements@.map_values(
                |h: HistoryRequirement| h@,
            ),
            context_requirements: self.context_requirements@.map_values(
                |c: ContextRequirement| c@,
            ),
        }
    }
}

/// The data a host hands the engine: namespaced keys (`rec.*`, `ext.*`,
/// `sys.*`) and their values.
pub type ContextMap = JsonMap;

/// One decision turn asked of the engine.
#[derive(Debug)]
pub struct VpeRequest {
    pub process: ProcessRef,
    pub trace_id: String,
    pub now: i64,
    pub current_state: String,
    pub action: String,
    pub context: ContextMap,
    pub chronicle: ChronicleView,
}

/// Effect intent: work the host is to carry out.
#[derive(Debug)]
pub struct VpeEffect {
    pub effect_type: String,
    pub target: Option<String>,
    pub action: Option<String>,
    pub params: JsonMap,
}

pub struct VpeEffectV {
    pub effect_type: Seq<char>,
    pub target: Option<Seq<char>>,
    pub action: Option<Seq<char>>,
    pub params: Seq<(Seq<char>, JsonV)>,
}

pub open spec fn opt_string_view(s: Option<String>) -> Option<Seq<char>> {
    match s {
        Some(x) => Some(x@),
        None => None,
    }
}

pub fn copy_opt_string(s: &Option<String>) -> (r: Option<String>)
    ensures
        opt_string_view(r) == opt_string_view(*s),
{
    match s {
        Some(x) => Some(x.clone()),
        None => None,
    }
}

impl View for VpeEffect {
    type V = VpeEffectV;

    open spec fn view(&self) -> VpeEffectV {
        VpeEffectV {
            effect_type: self.effect_type@,
            target: opt_string_view(self.target),
            action: opt_string_view(self.action),
            params: self.params@,
        }
    }
}

impl VpeEffect {
    pub fn copy(&self) -> (r: VpeEffect)
        ensures
            r@ == self@,
    {
        VpeEffect {
            effect_type: self.effect_type.clone(),
            target: copy_opt_string(&self.target),
            action: copy_opt_string(&self.action),
            params: self.params.deep_copy_entries(),
        }
    }
}

/// An event the verdict asks the host to record.
#[derive(Debug)]
pub struct PlannedEvent {
    pub event_kind: VpeEventKind,
    pub action: String,
    pub state_before: String,
    pub state_after: String,
    pub metadata: JsonValue,
}

pub struct PlannedEventV {
    pub event_kind: VpeEventKind,
    pub action: Seq<char>,
    pub state_before: Seq<char>,
    pub state_after: Seq<char>,
    pub metadata: JsonV,
}

impl View for PlannedEvent {
    type V = PlannedEventV;

    open spec fn view(&self) -> PlannedEventV {
        PlannedEventV {
            event_kind: self.event_kind,
            action: self.action@,
            state_before: self.state_before@,
            state_after: self.state_after@,
            metadata: self.metadata@,
        }
    }
}

/// The result of one decision turn.
#[derive(Debug)]
pub struct VpeVerdict {
    pub process: ProcessRef,
    pub trace_id: String,
    pub previous_state: String,
    pub next_state: String,
    pub state_patch: ContextMap,
    pub effects: Vec<VpeEffect>,
    pub emitted_events: Vec<PlannedEvent>,
}

pub struct VpeVerdictV {
    pub process: ProcessRefV,
    pub trace_id: Seq<char>,
    pub previous_state: Seq<char>,
    pub next_state: Seq<char>,
    pub state_patch: Seq<(Seq<char>, JsonV)>,
    pub effects: Seq<VpeEffectV>,
    pub emitted_events: Seq<PlannedEventV>,
}

impl View for VpeVerdict {
    type V = VpeVerdictV;

    open spec fn view(&self) -> VpeVerdictV {
        VpeVerdictV {
            process: self.process@,
            trace_id: self.trace_id@,
            previous_state: self.previous_state@,
            next_state: self.next_state@,
            state_patch: self.state_patch@,
            effects: self.effects@.map_values(|e: VpeEffect| e@),
            emitted_events: self.emitted_events@.map_values(|e: PlannedEvent| e@),
        }
    }
}

} // verus!
