//! Compiling a validated law into a process graph: states become nodes,
//! transitions become edges with resolved targets, built guards and effect
//! intents, tried in order of priority.
use vstd::prelude::*;

use crate::digest::{compute_digest, hex_lower, sha256_spec};
use crate::error::{CompileError, CompileErrorV, VpeError, VpeErrorV};
use crate::graph::{has_state, lemma_state_named, names_of, state_pairs};
use crate::json::{
    copy_map, key_index, lemma_key_index_absent, lemma_key_index_bounds, lemma_key_index_found,
    lookup, str_eq, JsonMap, JsonV, JsonValue,
};
use crate::law::{EffectSource, GuardSource, LawSource, StateSource, TransitionSource};
use crate::manifest::{build_manifests, manifests_of, ManifestMap};
use crate::registry::{build_result, builtin_factory, Guard, GuardFactory, GuardRegistry, GuardV};
use crate::schema::DomainSchema;
use crate::text::{first_some, lemma_first_some_stable};
use crate::types::{
    copy_opt_string, opt_string_view, ProcessRef, ProcessRefV, StateManifest, StateManifestV,
    VpeEffect, VpeEffectV,
};
use crate::validate::{
    guard_errors, guard_source_error, registry_guard_error, state_error, transition_error,
    transition_errors, later_state_errors, law_header_error, law_is_valid,
    law_valid_law_is_well_formed, law_warnings, validate_law, validation_error,
};

verus! {

/// The index of the first state named `n`, or the number of states.
pub open spec fn state_position(states: Seq<StateSource>, n: Seq<char>) -> int {
    key_index(state_pairs(states), n)
}

fn position_of(states: &Vec<StateSource>, name: &str) -> (r: Option<usize>)
    ensures
        match r {
            Some(i) => i == state_position(states@, name@) && i < states@.len() && has_state(
                states@,
                name@,
            ),
            None => !has_state(states@, name@),
        },
{
    let ghost p = state_pairs(states@);
    proof {
        lemma_state_named(states@, name@);
        lemma_key_index_bounds(p, name@);
    }
    let mut i: usize = 0;
    while i < states.len()
        invariant
            i <= states.len(),
            p == state_pairs(states@),
            forall|j: int| 0 <= j < i ==> #[trigger] p[j].0 != name@,
        decreases states.len() - i,
    {
        assert(p[i as int].0 == states@[i as int].name@);
        if str_eq(states[i].name.as_str(), name) {
            proof {
                lemma_key_index_found(p, name@, i as int);
                assert(states@[i as int].name@ == name@);
            }
            return Some(i);
        }
        i = i + 1;
    }
    proof {
        lemma_key_index_absent(p, name@);
        if has_state(states@, name@) {
            let j = choose|j: int| 0 <= j < states@.len() && (#[trigger] states@[j]).name@ == name@;
            assert(p[j].0 == name@);
        }
    }
    None
}

/// A transition as the runtime takes it: its action, the index of its
/// target node, its priority, its guards and its effect intents.
#[derive(Debug)]
pub struct Edge {
    pub action: String,
    pub target_idx: usize,
    pub priority: u32,
    pub guards: Vec<Guard>,
    pub effects: Vec<VpeEffect>,
}

pub struct EdgeV {
    pub action: Seq<char>,
    pub target_idx: int,
    pub priority: u32,
    pub guards: Seq<GuardV>,
    pub effects: Seq<VpeEffectV>,
}

impl View for Edge {
    type V = EdgeV;

    open spec fn view(&self) -> EdgeV {
        EdgeV {
            action: self.action@,
            target_idx: self.target_idx as int,
            priority: self.priority,
            guards: self.guards@.map_values(|g: Guard| g@),
            effects: self.effects@.map_values(|e: VpeEffect| e@),
        }
    }
}

/// A state as the runtime takes it: its name and its edges, highest
/// priority first.
#[derive(Debug)]
pub struct Node {
    pub name: String,
    pub transitions: Vec<Edge>,
}

pub struct NodeV {
    pub name: Seq<char>,
    pub transitions: Seq<EdgeV>,
}

impl View for Node {
    type V = NodeV;

    open spec fn view(&self) -> NodeV {
        NodeV { name: self.name@, transitions: self.transitions@.map_values(|e: Edge| e@) }
    }
}

/// A compiled process: the graph the runtime evaluates turns against.
#[derive(Debug)]
pub struct CompiledProcess {
    process_ref: ProcessRef,
    digest: String,
    manifests: ManifestMap,
    initial_state_idx: usize,
    nodes: Vec<Node>,
}

pub struct CompiledProcessV {
    pub process_ref: ProcessRefV,
    pub digest: Seq<char>,
    pub manifests: Seq<(Seq<char>, StateManifestV)>,
    pub initial_state_idx: int,
    pub nodes: Seq<NodeV>,
}

impl View for CompiledProcess {
    type V = CompiledProcessV;

    closed spec fn view(&self) -> CompiledProcessV {
        CompiledProcessV {
            process_ref: self.process_ref@,
            digest: self.digest@,
            manifests: self.manifests@,
            initial_state_idx: self.initial_state_idx as int,
            nodes: self.nodes@.map_values(|n: Node| n@),
        }
    }
}

/// The nodes of a process, keyed by name.
pub open spec fn node_pairs(nodes: Seq<NodeV>) -> Seq<(Seq<char>, NodeV)> {
    nodes.map_values(|n: NodeV| (n.name, n))
}

/// The index of the first node named `name`, or the number of nodes.
pub open spec fn node_index(nodes: Seq<NodeV>, name: Seq<char>) -> int {
    key_index(node_pairs(nodes), name)
}

/// Every edge leads to a node of the process.
pub open spec fn process_well_formed(p: CompiledProcessV) -> bool {
    forall|i: int, k: int|
        0 <= i < p.nodes.len() && 0 <= k < p.nodes[i].transitions.len() ==> 0 <= (
        #[trigger] p.nodes[i].transitions[k]).target_idx < p.nodes.len()
}

impl CompiledProcess {
    pub fn new(
        process_ref: ProcessRef,
        digest: String,
        manifests: ManifestMap,
        initial_state_idx: usize,
        nodes: Vec<Node>,
    ) -> (r: CompiledProcess)
        ensures
            r@ == (CompiledProcessV {
                process_ref: process_ref@,
                digest: digest@,
                manifests: manifests@,
                initial_state_idx: initial_state_idx as int,
                nodes: nodes@.map_values(|n: Node| n@),
            }),
    {
        CompiledProcess { process_ref, digest, manifests, initial_state_idx, nodes }
    }

    pub fn process_ref(&self) -> (r: &ProcessRef)
        ensures
            r@ == self@.process_ref,
    {
        &self.process_ref
    }

    pub fn digest(&self) -> (r: &str)
        ensures
            r@ == self@.digest,
    {
        self.digest.as_str()
    }

    /// The manifest of the state named `state`.
    pub fn manifest(&self, state: &str) -> (r: Option<&StateManifest>)
        ensures
            match r {
                Some(m) => lookup(self@.manifests, state@) == Some(m@),
                None => lookup(self@.manifests, state@) is None,
            },
    {
        self.manifests.get(state)
    }

    pub fn initial_state_idx(&self) -> (r: usize)
        ensures
            r == self@.initial_state_idx,
    {
        self.initial_state_idx
    }

    /// The index of the first node named `name`.
    pub fn state_index(&self, name: &str) -> (r: Option<usize>)
        ensures
            match r {
                Some(i) => i == node_index(self@.nodes, name@) && i < self@.nodes.len(),
                None => node_index(self@.nodes, name@) == self@.nodes.len(),
            },
    {
        let ghost p = node_pairs(self@.nodes);
        assert(self@.nodes == self.nodes@.map_values(|n: Node| n@));
        let mut i: usize = 0;
        while i < self.nodes.len()
            invariant
                i <= self.nodes@.len(),
                p == node_pairs(self@.nodes),
                p.len() == self.nodes@.len(),
                self@.nodes == self.nodes@.map_values(|n: Node| n@),
                forall|j: int| 0 <= j < i ==> #[trigger] p[j].0 != name@,
            decreases self.nodes@.len() - i,
        {
            assert(p[i as int].0 == self.nodes@[i as int].name@);
            if str_eq(self.nodes[i].name.as_str(), name) {
                proof {
                    lemma_key_index_found(p, name@, i as int);
                }
                return Some(i);
            }
            i = i + 1;
        }
        proof {
            lemma_key_index_absent(p, name@);
        }
        None
    }

    /// Whether every edge leads to a node of the process.
    pub fn is_well_formed(&self) -> (r: bool)
        ensures
            r == process_well_formed(self@),
    {
        let n = self.nodes.len();
        let ghost nv = self@.nodes;
        assert(nv == self.nodes@.map_values(|n: Node| n@));
        assert(nv.len() == self.nodes@.len());
        let mut i: usize = 0;
        while i < n
            invariant
                i <= n == self.nodes@.len() == nv.len(),
                nv == self.nodes@.map_values(|n: Node| n@),
                nv == self@.nodes,
                forall|a: int, k: int|
                    0 <= a < i && 0 <= k < nv[a].transitions.len() ==> 0 <= (
                    #[trigger] nv[a].transitions[k]).target_idx < n,
            decreases n - i,
        {
            let node = &self.nodes[i];
            assert(nv[i as int] == node@);
            let mut k: usize = 0;
            while k < node.transitions.len()
                invariant
                    k <= node.transitions@.len(),
                    i < n == self.nodes@.len() == nv.len(),
                    nv[i as int] == node@,
                    nv == self@.nodes,
                    forall|kk: int| 0 <= kk < k ==> 0 <= (#[trigger] nv[i as int].transitions[kk]).target_idx < n,
                decreases node.transitions@.len() - k,
            {
                assert(nv[i as int].transitions[k as int] == node.transitions@[k as int]@);
                if node.transitions[k].target_idx >= n {
                    assert(!(0 <= (self@.nodes[i as int].transitions[k as int]).target_idx < self@.nodes.len()));
                    return false;
                }
                k = k + 1;
            }
            i = i + 1;
        }
        true
    }

    pub fn nodes(&self) -> (r: &[Node])
        ensures
            r@.map_values(|n: Node| n@) == self@.nodes,
    {
        self.nodes.as_slice()
    }
}

/// The parameters of an effect intent: those of the effect when they form
/// an object, else none.
pub open spec fn effect_params(p: Option<JsonValue>) -> Seq<(Seq<char>, JsonV)> {
    match p {
        Some(v) => match v@ {
            JsonV::Object(m) => m,
            _ => Seq::empty(),
        },
        None => Seq::empty(),
    }
}

pub open spec fn compiled_effect(e: EffectSource) -> VpeEffectV {
    VpeEffectV {
        effect_type: e.effect_type@,
        target: opt_string_view(e.target),
        action: opt_string_view(e.action),
        params: effect_params(e.params),
    }
}

/// The effect intent of an authored effect.
pub fn compile_effect(effect: &EffectSource) -> (r: VpeEffect)
    ensures
        r@ == compiled_effect(*effect),
{
    let params = match &effect.params {
        Some(JsonValue::Object(map)) => copy_map(map),
        _ => JsonMap::new(),
    };
    VpeEffect {
        effect_type: effect.effect_type.clone(),
        target: copy_opt_string(&effect.target),
        action: copy_opt_string(&effect.action),
        params,
    }
}

/// The guard the registry builds for a guard source.
pub open spec fn built_guard(reg: Seq<(Seq<char>, GuardFactory)>, g: GuardSource) -> GuardV {
    match lookup(reg, g.guard_type@) {
        Some(f) => match build_result(f, g.params@) {
            Ok(v) => v,
            Err(_) => GuardV::Default,
        },
        None => GuardV::Default,
    }
}

/// Why a guard cannot be built: its type is not registered, or its factory
/// refuses its parameters.
pub open spec fn guard_build_error(reg: Seq<(Seq<char>, GuardFactory)>, g: GuardSource) -> Option<
    VpeErrorV,
> {
    match lookup(reg, g.guard_type@) {
        None => Some(VpeErrorV::Compile(CompileErrorV::UnknownGuardType(g.guard_type@))),
        Some(f) => match build_result(f, g.params@) {
            Err(m) => Some(VpeErrorV::Unsupported(m)),
            Ok(_) => None,
        },
    }
}

pub open spec fn guard_build_errors(reg: Seq<(Seq<char>, GuardFactory)>, gs: Seq<GuardSource>) -> spec_fn(
    int,
) -> Option<VpeErrorV> {
    |k: int| guard_build_error(reg, gs[k])
}

/// Why a transition cannot be compiled: an unknown target, or the first
/// guard that cannot be built.
pub open spec fn transition_build_error(
    reg: Seq<(Seq<char>, GuardFactory)>,
    states: Seq<StateSource>,
    t: TransitionSource,
) -> Option<VpeErrorV> {
    if !has_state(states, t.to@) {
        Some(VpeErrorV::Compile(CompileErrorV::UnknownTargetState(t.to@)))
    } else {
        first_some(guard_build_errors(reg, t.guards@), t.guards@.len())
    }
}

pub open spec fn transition_build_errors(
    reg: Seq<(Seq<char>, GuardFactory)>,
    states: Seq<StateSource>,
    s: StateSource,
) -> spec_fn(int) -> Option<VpeErrorV> {
    |k: int| transition_build_error(reg, states, s.transitions@[k])
}

pub open spec fn state_build_error(
    reg: Seq<(Seq<char>, GuardFactory)>,
    states: Seq<StateSource>,
    s: StateSource,
) -> Option<VpeErrorV> {
    first_some(transition_build_errors(reg, states, s), s.transitions@.len())
}

pub open spec fn state_build_errors(reg: Seq<(Seq<char>, GuardFactory)>, states: Seq<StateSource>) -> spec_fn(
    int,
) -> Option<VpeErrorV> {
    |i: int| state_build_error(reg, states, states[i])
}

/// Why a law cannot be compiled: an unknown initial state, or the first
/// transition, in law order, that cannot be compiled.
pub open spec fn law_build_error(reg: Seq<(Seq<char>, GuardFactory)>, law: LawSource) -> Option<
    VpeErrorV,
> {
    if !has_state(law.states@, law.initial_state@) {
        Some(VpeErrorV::Compile(CompileErrorV::InitialStateNotFound(law.initial_state@)))
    } else {
        first_some(state_build_errors(reg, law.states@), law.states@.len())
    }
}

/// The edge a transition compiles to.
pub open spec fn compiled_edge(
    reg: Seq<(Seq<char>, GuardFactory)>,
    states: Seq<StateSource>,
    t: TransitionSource,
) -> EdgeV {
    EdgeV {
        action: t.action@,
        target_idx: state_position(states, t.to@),
        priority: t.priority,
        guards: t.guards@.map_values(|g: GuardSource| built_guard(reg, g)),
        effects: t.effects@.map_values(|e: EffectSource| compiled_effect(e)),
    }
}

pub open spec fn compiled_edges(
    reg: Seq<(Seq<char>, GuardFactory)>,
    states: Seq<StateSource>,
    s: StateSource,
) -> Seq<EdgeV> {
    s.transitions@.map_values(|t: TransitionSource| compiled_edge(reg, states, t))
}

/// `r` is `s` reordered by `perm` (`r[k]` is `s[perm[k]]`), highest priority
/// first, and edges of one priority in their order in `s`.
pub open spec fn stable_priority_order(s: Seq<EdgeV>, r: Seq<EdgeV>, perm: Seq<int>) -> bool {
    &&& r.len() == s.len()
    &&& perm.len() == s.len()
    &&& forall|k: int| 0 <= k < r.len() ==> 0 <= #[trigger] perm[k] < s.len() && r[k] == s[perm[k]]
    &&& forall|k: int, l: int| 0 <= k < l < r.len() ==> #[trigger] perm[k] != #[trigger] perm[l]
    &&& forall|k: int, l: int|
        0 <= k < l < r.len() ==> (#[trigger] r[k]).priority > (#[trigger] r[l]).priority || (
        r[k].priority == r[l].priority && perm[k] < perm[l])
}

/// `r` is `s` sorted by descending priority, keeping the order of equal
/// priorities.
pub open spec fn is_priority_sort(s: Seq<EdgeV>, r: Seq<EdgeV>) -> bool {
    exists|perm: Seq<int>| stable_priority_order(s, r, perm)
}

/// The node a state compiles to.
pub open spec fn compiled_node(
    reg: Seq<(Seq<char>, GuardFactory)>,
    states: Seq<StateSource>,
    s: StateSource,
    n: NodeV,
) -> bool {
    n.name == s.name@ && is_priority_sort(compiled_edges(reg, states, s), n.transitions)
}

pub open spec fn law_ref(law: LawSource) -> ProcessRefV {
    ProcessRefV { domain: law.domain@, process: law.process@, version: law.version@ }
}

/// The process a law compiles to, given its document.
pub open spec fn compiled_process(
    reg: Seq<(Seq<char>, GuardFactory)>,
    law: LawSource,
    document: Seq<u8>,
    p: CompiledProcessV,
) -> bool {
    &&& p.process_ref == law_ref(law)
    &&& p.digest == hex_lower(sha256_spec(document))
    &&& p.manifests == manifests_of(law.states@)
    &&& p.initial_state_idx == state_position(law.states@, law.initial_state@)
    &&& p.nodes.len() == law.states@.len()
    &&& forall|i: int|
        0 <= i < law.states@.len() ==> compiled_node(reg, law.states@, law.states@[i], #[trigger] p.nodes[i])
}

/// `e` is what validating an invalid law reports.
pub open spec fn validation_failure(
    schema: DomainSchema,
    law: LawSource,
    reg: Seq<(Seq<char>, GuardFactory)>,
    e: VpeErrorV,
) -> bool {
    !law_is_valid(schema, law, reg) && match e {
        VpeErrorV::Compile(x) => validation_error(schema, law, reg, x),
        _ => false,
    }
}

/// What validation reports: the process and the law's warnings.
#[derive(Clone, Debug)]
pub struct ValidationReport {
    pub process: ProcessRef,
    pub warnings: Vec<String>,
}

/// What registering a compiled law reports: the process, its digest, its
/// state manifests and the law's warnings.
#[derive(Clone, Debug)]
pub struct RegistrationReport {
    pub process: ProcessRef,
    pub digest: String,
    pub manifests: ManifestMap,
    pub warnings: Vec<String>,
}

/// A compiled process and its registration report.
#[derive(Debug)]
pub struct CompilationResult {
    pub process: CompiledProcess,
    pub report: RegistrationReport,
}

/// Compiles laws with the guard types of one registry.
pub struct VpeCompiler {
    registry: GuardRegistry,
}

fn insert_edge(out: &mut Vec<Edge>, e: Edge) -> (p: usize)
    ensures
        p <= old(out)@.len(),
        final(out)@ == old(out)@.insert(p as int, e),
        forall|j: int| 0 <= j < p ==> (#[trigger] old(out)@[j]).priority >= e.priority,
        p < old(out)@.len() ==> old(out)@[p as int].priority < e.priority,
{
    let mut p: usize = 0;
    while p < out.len() && out[p].priority >= e.priority
        invariant
            p <= out@.len(),
            out@ == old(out)@,
            forall|j: int| 0 <= j < p ==> (#[trigger] out@[j]).priority >= e.priority,
        decreases out@.len() - p,
    {
        p = p + 1;
    }
    out.insert(p, e);
    p
}

impl VpeCompiler {
    /// The guard types the compiler knows.
    pub closed spec fn registry_view(&self) -> Seq<(Seq<char>, GuardFactory)> {
        self.registry@
    }

    pub fn with_registry(registry: GuardRegistry) -> (r: VpeCompiler)
        ensures
            r.registry_view() == registry@,
    {
        VpeCompiler { registry }
    }

    /// Validates a law against its schema and the compiler's registry.
    pub fn validate(&self, schema: &DomainSchema, law: &LawSource) -> (r: Result<
        ValidationReport,
        VpeError,
    >)
        ensures
            match r {
                Ok(report) => law_is_valid(*schema, *law, self.registry_view()) && report.process@
                    == law_ref(*law) && names_of(report.warnings@) == law_warnings(*law),
                Err(e) => validation_failure(*schema, *law, self.registry_view(), e@),
            },
    {
        match validate_law(schema, law, &self.registry) {
            Ok(warnings) => {
                let process = ProcessRef::new(
                    law.domain.as_str(),
                    law.process.as_str(),
                    law.version.as_str(),
                );
                Ok(ValidationReport { process, warnings })
            },
            Err(e) => Err(VpeError::Compile(e)),
        }
    }

    fn compile_transition(&self, law: &LawSource, t: &TransitionSource) -> (r: Result<Edge, VpeError>)
        ensures
            match r {
                Ok(e) => transition_build_error(self.registry_view(), law.states@, *t) is None && e@
                    == compiled_edge(self.registry_view(), law.states@, *t),
                Err(e) => transition_build_error(self.registry_view(), law.states@, *t) == Some(e@),
            },
    {
        let ghost reg = self.registry_view();
        let target_idx = match position_of(&law.states, t.to.as_str()) {
            Some(i) => i,
            None => {
                return Err(VpeError::Compile(CompileError::UnknownTargetState(t.to.clone())));
            },
        };
        let ghost f = guard_build_errors(reg, t.guards@);
        let mut guards: Vec<Guard> = Vec::new();
        let mut k: usize = 0;
        while k < t.guards.len()
            invariant
                k <= t.guards.len(),
                reg == self.registry_view(),
                f == guard_build_errors(reg, t.guards@),
                first_some(f, k as nat) is None,
                has_state(law.states@, t.to@),
                guards@.len() == k,
                forall|j: int| 0 <= j < k ==> (#[trigger] guards@[j])@ == built_guard(reg, t.guards@[j]),
            decreases t.guards.len() - k,
        {
            let g = &t.guards[k];
            let factory = match self.registry.get(g.guard_type.as_str()) {
                Some(f) => f,
                None => {
                    proof {
                        lemma_first_some_stable(f, (k + 1) as nat, t.guards@.len());
                    }
                    return Err(
                        VpeError::Compile(CompileError::UnknownGuardType(g.guard_type.clone())),
                    );
                },
            };
            match factory.build(&g.params) {
                Ok(guard) => {
                    guards.push(guard);
                },
                Err(e) => {
                    proof {
                        lemma_first_some_stable(f, (k + 1) as nat, t.guards@.len());
                    }
                    return Err(e);
                },
            }
            k = k + 1;
        }
        let mut effects: Vec<VpeEffect> = Vec::new();
        let mut k: usize = 0;
        while k < t.effects.len()
            invariant
                k <= t.effects.len(),
                effects@.len() == k,
                forall|j: int| 0 <= j < k ==> (#[trigger] effects@[j])@ == compiled_effect(t.effects@[j]),
            decreases t.effects.len() - k,
        {
            effects.push(compile_effect(&t.effects[k]));
            k = k + 1;
        }
        let edge = Edge {
            action: t.action.clone(),
            target_idx,
            priority: t.priority,
            guards,
            effects,
        };
        assert(edge@.guards =~= t.guards@.map_values(|g: GuardSource| built_guard(reg, g)));
        assert(edge@.effects =~= t.effects@.map_values(|e: EffectSource| compiled_effect(e)));
        Ok(edge)
    }

    fn compile_state(&self, law: &LawSource, state: &StateSource) -> (r: Result<Node, VpeError>)
        ensures
            match r {
                Ok(n) => state_build_error(self.registry_view(), law.states@, *state) is None
                    && compiled_node(self.registry_view(), law.states@, *state, n@),
                Err(e) => state_build_error(self.registry_view(), law.states@, *state) == Some(e@),
            },
    {
        let ghost reg = self.registry_view();
        let ghost sv = compiled_edges(reg, law.states@, *state);
        let ghost f = transition_build_errors(reg, law.states@, *state);
        let mut out: Vec<Edge> = Vec::new();
        let ghost mut perm: Seq<int> = Seq::empty();
        let mut k: usize = 0;
        while k < state.transitions.len()
            invariant
                k <= state.transitions.len(),
                reg == self.registry_view(),
                sv == compiled_edges(reg, law.states@, *state),
                sv.len() == state.transitions@.len(),
                f == transition_build_errors(reg, law.states@, *state),
                first_some(f, k as nat) is None,
                out@.len() == k,
                perm.len() == k,
                forall|a: int|
                    0 <= a < k ==> 0 <= #[trigger] perm[a] < k && out@[a]@ == sv[perm[a]],
                forall|a: int, b: int| 0 <= a < b < k ==> #[trigger] perm[a] != #[trigger] perm[b],
                forall|a: int, b: int|
                    0 <= a < b < k ==> (#[trigger] out@[a]).priority > (#[trigger] out@[b]).priority
                        || (out@[a].priority == out@[b].priority && perm[a] < perm[b]),
            decreases state.transitions.len() - k,
        {
            let edge = match self.compile_transition(law, &state.transitions[k]) {
                Ok(e) => e,
                Err(e) => {
                    proof {
                        lemma_first_some_stable(f, (k + 1) as nat, state.transitions@.len());
                    }
                    return Err(e);
                },
            };
            let ghost ev = edge@;
            let ghost o = out@;
            let ghost pr = edge.priority;
            assert(ev == sv[k as int]);
            let p = insert_edge(&mut out, edge);
            proof {
                let np = perm.insert(p as int, k as int);
                let n = out@;
                assert(n == o.insert(p as int, n[p as int]));
                assert(n[p as int]@ == ev);
                assert forall|j: int| p <= j < o.len() implies (#[trigger] o[j]).priority < pr by {
                    if j > p {
                        assert(o[p as int].priority > o[j].priority || o[p as int].priority == o[j].priority);
                    }
                }
                assert forall|a: int| 0 <= a < k + 1 implies 0 <= #[trigger] np[a] < k + 1 && n[a]@ == sv[np[a]] by {
                    if a < p {
                        assert(np[a] == perm[a]);
                        assert(n[a] == o[a]);
                    } else if a > p {
                        assert(np[a] == perm[a - 1]);
                        assert(n[a] == o[a - 1]);
                    }
                }
                assert forall|a: int, b: int| 0 <= a < b < k + 1 implies #[trigger] np[a] != #[trigger] np[b] by {
                    if a != p && b != p {
                        let a0 = if a < p { a } else { a - 1 };
                        let b0 = if b < p { b } else { b - 1 };
                        assert(np[a] == perm[a0]);
                        assert(np[b] == perm[b0]);
                    } else if a == p {
                        assert(np[b] == perm[b - 1]);
                    } else {
                        assert(np[a] == perm[a]);
                    }
                }
                assert forall|a: int, b: int| 0 <= a < b < k + 1 implies (#[trigger] n[a]).priority > (
                #[trigger] n[b]).priority || (n[a].priority == n[b].priority && np[a] < np[b]) by {
                    if a != p && b != p {
                        let a0 = if a < p { a } else { a - 1 };
                        let b0 = if b < p { b } else { b - 1 };
                        assert(n[a] == o[a0] && np[a] == perm[a0]);
                        assert(n[b] == o[b0] && np[b] == perm[b0]);
                    } else if a == p {
                        assert(n[b] == o[b - 1]);
                    } else {
                        assert(n[a] == o[a] && np[a] == perm[a]);
                    }
                }
                perm = np;
            }
            k = k + 1;
        }
        let node = Node { name: state.name.clone(), transitions: out };
        proof {
            assert(stable_priority_order(sv, node@.transitions, perm));
        }
        Ok(node)
    }

    /// Compiles a law: validates it, then builds its manifests, its digest
    /// (from `document`, the law as the host serialised it), and one node
    /// per state with its edges sorted by descending priority.
    pub fn compile(&self, schema: &DomainSchema, law: &LawSource, document: &[u8]) -> (r: Result<
        CompilationResult,
        VpeError,
    >)
        ensures
            match r {
                Ok(res) => {
                    &&& law_is_valid(*schema, *law, self.registry_view())
                    &&& law_build_error(self.registry_view(), *law) is None
                    &&& compiled_process(self.registry_view(), *law, document@, res.process@)
                    &&& res.report.process@ == law_ref(*law)
                    &&& res.report.digest@ == res.process@.digest
                    &&& res.report.manifests@ == manifests_of(law.states@)
                    &&& names_of(res.report.warnings@) == law_warnings(*law)
                },
                Err(e) => validation_failure(*schema, *law, self.registry_view(), e@) || (law_is_valid(
                    *schema,
                    *law,
                    self.registry_view(),
                ) && law_build_error(self.registry_view(), *law) == Some(e@)),
            },
    {
        let ghost reg = self.registry_view();
        let validation = match self.validate(schema, law) {
            Ok(v) => v,
            Err(e) => {
                return Err(e);
            },
        };
        let process_ref = ProcessRef::new(
            law.domain.as_str(),
            law.process.as_str(),
            law.version.as_str(),
        );
        let manifests = build_manifests(law);
        let digest = compute_digest(document);
        let initial_state_idx = match position_of(&law.states, law.initial_state.as_str()) {
            Some(i) => i,
            None => {
                return Err(
                    VpeError::Compile(CompileError::InitialStateNotFound(law.initial_state.clone())),
                );
            },
        };
        let ghost f = state_build_errors(reg, law.states@);
        let mut nodes: Vec<Node> = Vec::new();
        let mut i: usize = 0;
        while i < law.states.len()
            invariant
                i <= law.states.len(),
                reg == self.registry_view(),
                f == state_build_errors(reg, law.states@),
                first_some(f, i as nat) is None,
                law_is_valid(*schema, *law, reg),
                has_state(law.states@, law.initial_state@),
                nodes@.len() == i,
                forall|j: int|
                    0 <= j < i ==> compiled_node(reg, law.states@, law.states@[j], (#[trigger] nodes@[j])@),
            decreases law.states.len() - i,
        {
            match self.compile_state(law, &law.states[i]) {
                Ok(n) => {
                    nodes.push(n);
                },
                Err(e) => {
                    proof {
                        lemma_first_some_stable(f, (i + 1) as nat, law.states@.len());
                    }
                    return Err(e);
                },
            }
            i = i + 1;
        }
        let process = CompiledProcess::new(
            process_ref.copy(),
            digest.clone(),
            manifests.copy(),
            initial_state_idx,
            nodes,
        );
        proof {
            assert forall|j: int| 0 <= j < law.states@.len() implies compiled_node(
                reg,
                law.states@,
                law.states@[j],
                #[trigger] process@.nodes[j],
            ) by {
                assert(process@.nodes[j] == nodes@[j]@);
            }
        }
        let report = RegistrationReport {
            process: process_ref,
            digest,
            manifests,
            warnings: validation.warnings,
        };
        Ok(CompilationResult { process, report })
    }
}

/// Edges sorted by priority come highest priority first.
pub proof fn law_priority_sort_descending(s: Seq<EdgeV>, r: Seq<EdgeV>)
    requires
        is_priority_sort(s, r),
    ensures
        forall|k: int, l: int| 0 <= k < l < r.len() ==> (#[trigger] r[k]).priority >= (#[trigger] r[l]).priority,
{
    let perm = choose|perm: Seq<int>| stable_priority_order(s, r, perm);
    assert forall|k: int, l: int| 0 <= k < l < r.len() implies (#[trigger] r[k]).priority >= (
    #[trigger] r[l]).priority by {
        assert(r[k].priority > r[l].priority || r[k].priority == r[l].priority);
    }
}

/// Some position of `perm` holds `i`.
pub open spec fn appears(perm: Seq<int>, i: int) -> bool {
    exists|k: int| 0 <= k < perm.len() && perm[k] == i
}

/// `r[k]` is `s[perm[k]]`, every edge of `s` occurs in `r`, and edges of
/// one priority keep their order.
pub open spec fn keeps_every_edge(s: Seq<EdgeV>, r: Seq<EdgeV>, perm: Seq<int>) -> bool {
    &&& perm.len() == s.len()
    &&& forall|k: int| 0 <= k < r.len() ==> 0 <= #[trigger] perm[k] < s.len() && r[k] == s[perm[k]]
    &&& forall|i: int| 0 <= i < s.len() ==> #[trigger] appears(perm, i)
    &&& forall|k: int, l: int|
        0 <= k < l < r.len() && (#[trigger] r[k]).priority == (#[trigger] r[l]).priority ==> perm[k]
            < perm[l]
}

proof fn lemma_perm_onto(s: Seq<EdgeV>, r: Seq<EdgeV>, perm: Seq<int>)
    requires
        stable_priority_order(s, r, perm),
    ensures
        forall|i: int| 0 <= i < s.len() ==> #[trigger] appears(perm, i),
{
    let n = s.len() as int;
    assert(perm.no_duplicates()) by {
        assert forall|a: int, b: int| 0 <= a < perm.len() && 0 <= b < perm.len() && a != b implies perm[a] != perm[b] by {
            if a < b {
                assert(perm[a] != perm[b]);
            } else {
                assert(perm[b] != perm[a]);
            }
        }
    }
    perm.unique_seq_to_set();
    vstd::set_lib::lemma_int_range(0, n);
    vstd::seq_lib::seq_to_set_is_finite(perm);
    assert(perm.to_set().subset_of(vstd::set_lib::set_int_range(0, n))) by {
        assert forall|x: int| perm.to_set().contains(x) implies vstd::set_lib::set_int_range(0, n).contains(x) by {
            let k = choose|k: int| 0 <= k < perm.len() && perm[k] == x;
            assert(0 <= perm[k] < n);
        }
    }
    vstd::set_lib::lemma_subset_equality(perm.to_set(), vstd::set_lib::set_int_range(0, n));
    assert forall|i: int| 0 <= i < s.len() implies #[trigger] appears(perm, i) by {
        assert(vstd::set_lib::set_int_range(0, n).contains(i));
        assert(perm.to_set().contains(i));
    }
}

proof fn lemma_sort_unique_at(
    s: Seq<EdgeV>,
    r1: Seq<EdgeV>,
    p1: Seq<int>,
    r2: Seq<EdgeV>,
    p2: Seq<int>,
    k: int,
)
    requires
        stable_priority_order(s, r1, p1),
        stable_priority_order(s, r2, p2),
        forall|i: int| 0 <= i < s.len() ==> #[trigger] appears(p1, i),
        forall|i: int| 0 <= i < s.len() ==> #[trigger] appears(p2, i),
        0 <= k < s.len(),
        forall|j: int| 0 <= j < k ==> p1[j] == p2[j],
    ensures
        p1[k] == p2[k],
{
    let a = p1[k];
    let b = p2[k];
    if a != b {
        assert(appears(p2, a));
        let m = choose|m: int| 0 <= m < p2.len() && p2[m] == a;
        if m < k {
            assert(p1[m] == p2[m]);
            assert(p1[m] != p1[k]);
        }
        assert(appears(p1, b));
        let m1 = choose|m: int| 0 <= m < p1.len() && p1[m] == b;
        if m1 < k {
            assert(p1[m1] == p2[m1]);
            assert(p2[m1] != p2[k]);
        }
        assert(r2[k].priority > r2[m].priority || (r2[k].priority == r2[m].priority && p2[k] < p2[m]));
        assert(r1[k].priority > r1[m1].priority || (r1[k].priority == r1[m1].priority && p1[k] < p1[m1]));
        assert(r2[k] == s[b] && r2[m] == s[a]);
        assert(r1[k] == s[a] && r1[m1] == s[b]);
    }
}

proof fn lemma_sort_unique_prefix(
    s: Seq<EdgeV>,
    r1: Seq<EdgeV>,
    p1: Seq<int>,
    r2: Seq<EdgeV>,
    p2: Seq<int>,
    k: int,
)
    requires
        stable_priority_order(s, r1, p1),
        stable_priority_order(s, r2, p2),
        forall|i: int| 0 <= i < s.len() ==> #[trigger] appears(p1, i),
        forall|i: int| 0 <= i < s.len() ==> #[trigger] appears(p2, i),
        0 <= k <= s.len(),
    ensures
        forall|j: int| 0 <= j < k ==> p1[j] == p2[j],
    decreases k,
{
    if k > 0 {
        lemma_sort_unique_prefix(s, r1, p1, r2, p2, k - 1);
        lemma_sort_unique_at(s, r1, p1, r2, p2, k - 1);
    }
}

/// The priority sort of a sequence of edges is unique: the contract of
/// compilation fixes each node's edges.
pub proof fn law_priority_sort_unique(s: Seq<EdgeV>, r1: Seq<EdgeV>, r2: Seq<EdgeV>)
    requires
        is_priority_sort(s, r1),
        is_priority_sort(s, r2),
    ensures
        r1 == r2,
{
    let p1 = choose|perm: Seq<int>| stable_priority_order(s, r1, perm);
    let p2 = choose|perm: Seq<int>| stable_priority_order(s, r2, perm);
    lemma_perm_onto(s, r1, p1);
    lemma_perm_onto(s, r2, p2);
    lemma_sort_unique_prefix(s, r1, p1, r2, p2, s.len() as int);
    assert forall|j: int| 0 <= j < r1.len() implies r1[j] == r2[j] by {
        assert(r1[j] == s[p1[j]]);
        assert(r2[j] == s[p2[j]]);
    }
    assert(r1 =~= r2);
}

/// Sorting by priority keeps every edge exactly once and keeps edges of
/// one priority in their order.
pub proof fn law_priority_sort_is_stable_permutation(s: Seq<EdgeV>, r: Seq<EdgeV>)
    requires
        is_priority_sort(s, r),
    ensures
        r.len() == s.len(),
        exists|perm: Seq<int>| #[trigger] keeps_every_edge(s, r, perm),
{
    let perm = choose|perm: Seq<int>| stable_priority_order(s, r, perm);
    lemma_perm_onto(s, r, perm);
    assert forall|k: int, l: int|
        0 <= k < l < r.len() && (#[trigger] r[k]).priority == (#[trigger] r[l]).priority implies perm[k]
            < perm[l] by {}
    assert(keeps_every_edge(s, r, perm));
}

proof fn lemma_state_position(states: Seq<StateSource>, n: Seq<char>)
    requires
        has_state(states, n),
    ensures
        0 <= state_position(states, n) < states.len(),
{
    lemma_state_named(states, n);
    lemma_key_index_bounds(state_pairs(states), n);
}

/// A process compiled from a valid law is well formed: every edge leads to
/// one of its nodes.
pub proof fn law_compiled_process_well_formed(
    schema: DomainSchema,
    reg: Seq<(Seq<char>, GuardFactory)>,
    law: LawSource,
    document: Seq<u8>,
    p: CompiledProcessV,
)
    requires
        law_is_valid(schema, law, reg),
        compiled_process(reg, law, document, p),
    ensures
        process_well_formed(p),
        0 <= p.initial_state_idx < p.nodes.len(),
{
    law_valid_law_is_well_formed(schema, law, reg);
    let states = law.states@;
    lemma_state_position(states, law.initial_state@);
    assert forall|i: int, k: int|
        0 <= i < p.nodes.len() && 0 <= k < p.nodes[i].transitions.len() implies 0 <= (
        #[trigger] p.nodes[i].transitions[k]).target_idx < p.nodes.len() by {
        assert(compiled_node(reg, states, states[i], p.nodes[i]));
        let sv = compiled_edges(reg, states, states[i]);
        let perm = choose|perm: Seq<int>| stable_priority_order(sv, p.nodes[i].transitions, perm);
        let j = perm[k];
        assert(p.nodes[i].transitions[k] == sv[j]);
        let t = states[i].transitions@[j];
        assert(has_state(states, t.to@));
        lemma_state_position(states, t.to@);
    }
}

/// A registry that knows exactly the built-in guard types.
pub open spec fn is_builtin_registry(reg: Seq<(Seq<char>, GuardFactory)>) -> bool {
    forall|k: Seq<char>| #[trigger] lookup(reg, k) == builtin_factory(k)
}

proof fn lemma_valid_guard_builds(schema: DomainSchema, reg: Seq<(Seq<char>, GuardFactory)>, g: GuardSource)
    requires
        is_builtin_registry(reg),
        registry_guard_error(schema, reg, g) is None,
    ensures
        guard_build_error(reg, g) is None,
{
    assert(lookup(reg, g.guard_type@) == builtin_factory(g.guard_type@));
    assert(guard_source_error(schema, g) is None);
}

proof fn lemma_valid_transition_builds(
    schema: DomainSchema,
    reg: Seq<(Seq<char>, GuardFactory)>,
    states: Seq<StateSource>,
    t: TransitionSource,
)
    requires
        is_builtin_registry(reg),
        transition_error(schema, reg, states, t) is None,
    ensures
        transition_build_error(reg, states, t) is None,
{
    assert forall|k: int| 0 <= k < t.guards@.len() implies #[trigger] guard_build_errors(reg, t.guards@)(k) is None by {
        crate::text::lemma_first_some_none_prefix(guard_errors(schema, reg, t.guards@), t.guards@.len(), k);
        lemma_valid_guard_builds(schema, reg, t.guards@[k]);
    }
    crate::text::lemma_first_some_none(guard_build_errors(reg, t.guards@), t.guards@.len());
}

/// A law that passes validation against the built-in guard types compiles:
/// every guard it names builds from its parameters.
pub proof fn law_valid_law_compiles(schema: DomainSchema, reg: Seq<(Seq<char>, GuardFactory)>, law: LawSource)
    requires
        law_is_valid(schema, law, reg),
        is_builtin_registry(reg),
    ensures
        law_build_error(reg, law) is None,
{
    let states = law.states@;
    law_valid_law_is_well_formed(schema, law, reg);
    assert(law_header_error(schema, law) is None);
    assert forall|i: int| 0 <= i < states.len() implies #[trigger] state_build_errors(reg, states)(i) is None by {
        if i > 0 {
            crate::text::lemma_first_some_none_prefix(later_state_errors(schema, law, reg), states.len(), i);
        }
        assert(state_error(schema, reg, states, states[i]) is None);
        assert forall|k: int| 0 <= k < states[i].transitions@.len() implies #[trigger] transition_build_errors(
            reg,
            states,
            states[i],
        )(k) is None by {
            crate::text::lemma_first_some_none_prefix(
                transition_errors(schema, reg, states, states[i]),
                states[i].transitions@.len(),
                k,
            );
            lemma_valid_transition_builds(schema, reg, states, states[i].transitions@[k]);
        }
        crate::text::lemma_first_some_none(transition_build_errors(reg, states, states[i]), states[i].transitions@.len());
    }
    crate::text::lemma_first_some_none(state_build_errors(reg, states), states.len());
}

} // verus!
