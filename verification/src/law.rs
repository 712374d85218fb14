//! Process laws as authored: states, transitions, guards and effects.
use vstd::prelude::*;

use crate::json::{JsonMap, JsonValue};

verus! {

/// A process law.
#[derive(Debug)]
pub struct LawSource {
    pub domain: String,
    pub schema_version: String,
    pub process: String,
    pub version: String,
    pub initial_state: String,
    pub states: Vec<StateSource>,
    pub migration_rules: Vec<MigrationRuleSource>,
}

/// A state of a law.  A transient state is one the process is meant to
/// leave again on its own.
#[derive(Debug)]
pub struct StateSource {
    pub name: String,
    pub is_transient: bool,
    pub transitions: Vec<TransitionSource>,
}

/// A transition: taken on `action` towards the state `to`, when its guards
/// pass.  Higher priorities are tried first.
#[derive(Debug)]
pub struct TransitionSource {
    pub action: String,
    pub to: String,
    pub priority: u32,
    pub guards: Vec<GuardSource>,
    pub effects: Vec<EffectSource>,
    pub comment: Option<String>,
}

/// A guard as authored: its type and its parameters.
#[derive(Debug)]
pub struct GuardSource {
    pub guard_type: String,
    pub params: JsonMap,
}

/// Whether the host tracks the outcome of an effect.
#[derive(Clone, Copy, Debug, PartialEq, Eq, Structural)]
pub enum EffectMode {
    HostTracked,
    Untracked,
}

/// An effect as authored.
#[derive(Debug)]
pub struct EffectSource {
    pub effect_type: String,
    pub target: Option<String>,
    pub action: Option<String>,
    pub params: Option<JsonValue>,
    pub mode: Option<EffectMode>,
}

/// Where an instance in state `from_state` lands in a new version of a law.
#[derive(Clone, Debug)]
pub struct MigrationRuleSource {
    pub from_state: String,
    pub to_state: String,
}

/// Whether an effect is tracked; an effect without a mode is untracked.
pub open spec fn is_tracked(e: EffectSource) -> bool {
    e.mode == Some(EffectMode::HostTracked)
}

/// Whether a transition carries a tracked effect.
pub open spec fn has_tracked_effect(t: TransitionSource) -> bool {
    exists|i: int| 0 <= i < t.effects@.len() && is_tracked(#[trigger] t.effects@[i])
}

impl TransitionSource {
    pub fn carries_tracked_effect(&self) -> (r: bool)
        ensures
            r == has_tracked_effect(*self),
    {
        let mut i: usize = 0;
        while i < self.effects.len()
            invariant
                i <= self.effects.len(),
                forall|j: int| 0 <= j < i ==> !is_tracked(#[trigger] self.effects@[j]),
            decreases self.effects.len() - i,
        {
            let tracked_mode = match self.effects[i].mode {
                Some(EffectMode::HostTracked) => true,
                _ => false,
            };
            if tracked_mode {
                return true;
            }
            i = i + 1;
        }
        false
    }
}

} // verus!
