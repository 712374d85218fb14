//! One decision turn: from a state, an action, a context and a history to
//! the next state, the effect intents and the events to record.
use vstd::prelude::*;

use crate::compile::{
    node_index, process_well_formed, CompiledProcess, CompiledProcessV, Edge, EdgeV,
};
use crate::error::{RuntimeError, RuntimeErrorV, VpeError, VpeErrorV};
use crate::json::{lemma_json_entries_view, lookup, str_eq, JsonMap, JsonV, JsonValue};
use crate::registry::{guard_outcome, Guard, GuardFactory, GuardV};
use crate::compile::compiled_process;
use crate::law::LawSource;
use crate::manifest::{
    guard_context_needs, law_manifest_covers_guards, law_manifests_by_name, manifests_of,
    state_manifest,
};
use crate::schema::DomainSchema;
use crate::validate::{law_is_valid, law_valid_law_is_well_formed};
use crate::text::{first_some, lemma_first_some_none_prefix, lemma_first_some_stable};
use crate::types::{
    requirement_key, ContextRequirement, ContextRequirementV, ContextMap, PlannedEvent,
    PlannedEventV, VpeEffect, VpeEffectV, VpeEvent, VpeEventKind, VpeRequest, VpeVerdict,
    VpeVerdictV,
};

verus! {

/// The deepest chain of `AUTO_TICK` transitions one turn may take.
pub const MAX_AUTO_DEPTH: usize = 32;

/// How a turn ends: a verdict, a runtime error, or an `i64` overflow in a
/// time guard.
pub enum TurnOutcome {
    Verdict { next_state: Seq<char>, effects: Seq<VpeEffectV>, events: Seq<PlannedEventV> },
    Failure(RuntimeErrorV),
    Overflow,
}

/// Whether the guards `gs[k..]` all pass, checked in order and stopping at
/// the first that fails; `None` on overflow.
pub open spec fn guards_pass(
    gs: Seq<GuardV>,
    ctx: Seq<(Seq<char>, JsonV)>,
    hist: Seq<VpeEvent>,
    k: int,
) -> Option<bool>
    decreases gs.len() - k,
{
    if k >= gs.len() || k < 0 {
        Some(true)
    } else {
        match guard_outcome(gs[k], ctx, hist) {
            None => None,
            Some(false) => Some(false),
            Some(true) => guards_pass(gs, ctx, hist, k + 1),
        }
    }
}

/// Which edge a turn takes.
pub enum EdgeChoice {
    Taken(int),
    NoneTaken,
    Overflow,
}

/// The first edge among `ts[k..]` for `action` whose guards all pass.
pub open spec fn choose_edge(
    ts: Seq<EdgeV>,
    action: Seq<char>,
    ctx: Seq<(Seq<char>, JsonV)>,
    hist: Seq<VpeEvent>,
    k: int,
) -> EdgeChoice
    decreases ts.len() - k,
{
    if k >= ts.len() || k < 0 {
        EdgeChoice::NoneTaken
    } else if ts[k].action != action {
        choose_edge(ts, action, ctx, hist, k + 1)
    } else {
        match guards_pass(ts[k].guards, ctx, hist, 0) {
            None => EdgeChoice::Overflow,
            Some(true) => EdgeChoice::Taken(k),
            Some(false) => choose_edge(ts, action, ctx, hist, k + 1),
        }
    }
}

/// Some edge of `ts` is for `action`.
pub open spec fn has_action(ts: Seq<EdgeV>, action: Seq<char>) -> bool {
    exists|k: int| 0 <= k < ts.len() && (#[trigger] ts[k]).action == action
}

pub open spec fn missing_fields(reqs: Seq<ContextRequirementV>, ctx: Seq<(Seq<char>, JsonV)>) -> spec_fn(
    int,
) -> Option<Seq<char>> {
    |i: int|
        if lookup(ctx, requirement_key(reqs[i])) is None {
            Some(requirement_key(reqs[i]))
        } else {
            None
        }
}

/// The first context field of `reqs` the context lacks.
pub open spec fn missing_field(reqs: Seq<ContextRequirementV>, ctx: Seq<(Seq<char>, JsonV)>) -> Option<
    Seq<char>,
> {
    first_some(missing_fields(reqs, ctx), reqs.len())
}

/// The event of a transition.
pub open spec fn transition_event(action: Seq<char>, from: Seq<char>, to: Seq<char>) -> PlannedEventV {
    PlannedEventV {
        event_kind: VpeEventKind::StateTransition,
        action,
        state_before: from,
        state_after: to,
        metadata: JsonV::Object(Seq::empty()),
    }
}

pub open spec fn auto_tick() -> Seq<char> {
    "AUTO_TICK"@
}

/// The rest of a turn from state `cur` on `action`, after `depth`
/// automatic steps that gathered `effects` and `events`.
pub open spec fn turn_from(
    p: CompiledProcessV,
    ctx: Seq<(Seq<char>, JsonV)>,
    hist: Seq<VpeEvent>,
    cur: Seq<char>,
    action: Seq<char>,
    depth: int,
    effects: Seq<VpeEffectV>,
    events: Seq<PlannedEventV>,
) -> TurnOutcome
    decreases 32 - depth,
{
    let i = node_index(p.nodes, cur);
    if i >= p.nodes.len() {
        TurnOutcome::Failure(RuntimeErrorV::UnknownState(cur))
    } else {
        let node = p.nodes[i];
        match lookup(p.manifests, node.name) {
            None => TurnOutcome::Failure(RuntimeErrorV::UnknownState(node.name)),
            Some(m) => match missing_field(m.context_requirements, ctx) {
                Some(f) => TurnOutcome::Failure(RuntimeErrorV::MissingContextField { field: f }),
                None => if !has_action(node.transitions, action) {
                    TurnOutcome::Failure(RuntimeErrorV::NoTransitionFound { state: cur, action })
                } else {
                    match choose_edge(node.transitions, action, ctx, hist, 0) {
                        EdgeChoice::Overflow => TurnOutcome::Overflow,
                        EdgeChoice::NoneTaken => if action == auto_tick() {
                            TurnOutcome::Verdict { next_state: cur, effects, events }
                        } else {
                            TurnOutcome::Failure(
                                RuntimeErrorV::NoTransitionFound { state: cur, action },
                            )
                        },
                        EdgeChoice::Taken(k) => {
                            let e = node.transitions[k];
                            let next = p.nodes[e.target_idx].name;
                            let effects2 = effects + e.effects;
                            let events2 = events.push(transition_event(action, cur, next));
                            let j = node_index(p.nodes, next);
                            if j >= p.nodes.len() {
                                TurnOutcome::Failure(RuntimeErrorV::UnknownState(next))
                            } else if !has_action(p.nodes[j].transitions, auto_tick()) {
                                TurnOutcome::Verdict {
                                    next_state: next,
                                    effects: effects2,
                                    events: events2,
                                }
                            } else if depth + 1 > 32 {
                                TurnOutcome::Failure(RuntimeErrorV::AutoTransitionLimitExceeded)
                            } else {
                                turn_from(p, ctx, hist, next, auto_tick(), depth + 1, effects2, events2)
                            }
                        },
                    }
                }
            },
        }
    }
}

/// A whole turn: the anchor must sit in the current state, then the turn
/// runs from it on the requested action.
pub open spec fn turn(p: CompiledProcessV, request: VpeRequest) -> TurnOutcome {
    if request.chronicle.anchor.state_after@ != request.current_state@ {
        TurnOutcome::Failure(
            RuntimeErrorV::Desync {
                expected: request.chronicle.anchor.state_after@,
                provided: request.current_state@,
            },
        )
    } else {
        turn_from(
            p,
            request.context@,
            request.chronicle.events@,
            request.current_state@,
            request.action@,
            0,
            Seq::empty(),
            Seq::empty(),
        )
    }
}

/// The verdict of a turn that ended in `next_state`.
pub open spec fn verdict_of(
    request: VpeRequest,
    next_state: Seq<char>,
    effects: Seq<VpeEffectV>,
    events: Seq<PlannedEventV>,
) -> VpeVerdictV {
    VpeVerdictV {
        process: request.process@,
        trace_id: request.trace_id@,
        previous_state: request.current_state@,
        next_state,
        state_patch: Seq::empty(),
        effects,
        emitted_events: events,
    }
}

/// What `evaluate` gives for a turn outcome.
pub open spec fn turn_result(
    request: VpeRequest,
    o: TurnOutcome,
    r: Option<Result<VpeVerdict, VpeError>>,
) -> bool {
    match o {
        TurnOutcome::Verdict { next_state, effects, events } => r matches Some(Ok(v)) && v@
            == verdict_of(request, next_state, effects, events),
        TurnOutcome::Failure(e) => r matches Some(Err(x)) && x@ == VpeErrorV::Runtime(e),
        TurnOutcome::Overflow => r is None,
    }
}

fn guards_pass_exec(guards: &Vec<Guard>, context: &ContextMap, history: &[VpeEvent]) -> (r: Option<
    bool,
>)
    ensures
        r == guards_pass(guards@.map_values(|g: Guard| g@), context@, history@, 0),
{
    let ghost gs = guards@.map_values(|g: Guard| g@);
    let mut k: usize = 0;
    while k < guards.len()
        invariant
            k <= guards@.len(),
            gs == guards@.map_values(|g: Guard| g@),
            guards_pass(gs, context@, history@, 0) == guards_pass(gs, context@, history@, k as int),
        decreases guards@.len() - k,
    {
        assert(gs[k as int] == guards@[k as int]@);
        match guards[k].outcome(context, history) {
            None => {
                return None;
            },
            Some(false) => {
                return Some(false);
            },
            Some(true) => {},
        }
        k = k + 1;
    }
    Some(true)
}

/// The edges' views.
pub open spec fn edges_view(ts: Seq<Edge>) -> Seq<EdgeV> {
    ts.map_values(|e: Edge| e@)
}

fn has_action_exec(ts: &Vec<Edge>, action: &str) -> (r: bool)
    ensures
        r == has_action(edges_view(ts@), action@),
{
    let mut k: usize = 0;
    while k < ts.len()
        invariant
            k <= ts@.len(),
            forall|j: int| 0 <= j < k ==> (#[trigger] edges_view(ts@)[j]).action != action@,
        decreases ts@.len() - k,
    {
        assert(edges_view(ts@)[k as int] == ts@[k as int]@);
        if str_eq(ts[k].action.as_str(), action) {
            return true;
        }
        k = k + 1;
    }
    false
}

/// The edge a turn takes: `None` on overflow, `Some(None)` when no edge for
/// the action passes.
fn choose_edge_exec(ts: &Vec<Edge>, action: &str, context: &ContextMap, history: &[VpeEvent]) -> (r: Option<
    Option<usize>,
>)
    ensures
        r is None <==> choose_edge(edges_view(ts@), action@, context@, history@, 0) is Overflow,
        r == Some(None::<usize>) <==> choose_edge(edges_view(ts@), action@, context@, history@, 0) is NoneTaken,
        forall|k: usize| r == Some(Some(k)) ==> choose_edge(edges_view(ts@), action@, context@, history@, 0)
            == EdgeChoice::Taken(k as int) && k < ts@.len(),
{
    let ghost es = edges_view(ts@);
    let mut k: usize = 0;
    while k < ts.len()
        invariant
            k <= ts@.len(),
            es == edges_view(ts@),
            choose_edge(es, action@, context@, history@, 0) == choose_edge(
                es,
                action@,
                context@,
                history@,
                k as int,
            ),
        decreases ts@.len() - k,
    {
        assert(es[k as int] == ts@[k as int]@);
        if str_eq(ts[k].action.as_str(), action) {
            match guards_pass_exec(&ts[k].guards, context, history) {
                None => {
                    return None;
                },
                Some(true) => {
                    return Some(Some(k));
                },
                Some(false) => {},
            }
        }
        k = k + 1;
    }
    Some(None)
}

fn first_missing_field(reqs: &Vec<ContextRequirement>, context: &ContextMap) -> (r: Option<String>)
    ensures
        match r {
            Some(f) => missing_field(reqs@.map_values(|c: ContextRequirement| c@), context@) == Some(f@),
            None => missing_field(reqs@.map_values(|c: ContextRequirement| c@), context@) is None,
        },
{
    let ghost rs = reqs@.map_values(|c: ContextRequirement| c@);
    let ghost f = missing_fields(rs, context@);
    let mut i: usize = 0;
    while i < reqs.len()
        invariant
            i <= reqs@.len(),
            rs == reqs@.map_values(|c: ContextRequirement| c@),
            f == missing_fields(rs, context@),
            first_some(f, i as nat) is None,
        decreases reqs@.len() - i,
    {
        assert(rs[i as int] == reqs@[i as int]@);
        let key = reqs[i].key();
        if !context.contains_key(key.as_str()) {
            proof {
                lemma_first_some_stable(f, (i + 1) as nat, reqs@.len());
            }
            return Some(key.clone());
        }
        i = i + 1;
    }
    None
}

fn runtime_error(e: RuntimeError) -> (r: VpeError)
    ensures
        r@ == VpeErrorV::Runtime(e@),
{
    VpeError::Runtime(e)
}

/// Evaluates one turn, or gives `None` where a time guard's `i64`
/// arithmetic overflows.
pub fn evaluate_turn(process: &CompiledProcess, request: &VpeRequest) -> (r: Option<
    Result<VpeVerdict, VpeError>,
>)
    requires
        process_well_formed(process@),
    ensures
        turn_result(*request, turn(process@, *request), r),
{
    let ghost p = process@;
    let ghost ctx = request.context@;
    let ghost hist = request.chronicle.events@;
    if !str_eq(request.chronicle.anchor.state_after.as_str(), request.current_state.as_str()) {
        return Some(
            Err(
                runtime_error(
                    RuntimeError::Desync {
                        expected: request.chronicle.anchor.state_after.clone(),
                        provided: request.current_state.clone(),
                    },
                ),
            ),
        );
    }
    let nodes = process.nodes();
    let ghost nv = p.nodes;
    assert(nodes@.map_values(|n: crate::compile::Node| n@) == nv);
    let history = request.chronicle.events.as_slice();
    let mut current_state = request.current_state.clone();
    let mut current_action = request.action.clone();
    let mut depth: usize = 0;
    let mut effects: Vec<VpeEffect> = Vec::new();
    let mut events: Vec<PlannedEvent> = Vec::new();
    proof {
        assert(effects@.map_values(|e: VpeEffect| e@) =~= Seq::<VpeEffectV>::empty());
        assert(events@.map_values(|e: PlannedEvent| e@) =~= Seq::<PlannedEventV>::empty());
    }
    loop
        invariant
            p == process@,
            process_well_formed(p),
            ctx == request.context@,
            hist == request.chronicle.events@,
            history@ == hist,
            nv == p.nodes,
            nodes@.map_values(|n: crate::compile::Node| n@) == nv,
            depth <= 32,
            turn(p, *request) == turn_from(
                p,
                ctx,
                hist,
                current_state@,
                current_action@,
                depth as int,
                effects@.map_values(|e: VpeEffect| e@),
                events@.map_values(|e: PlannedEvent| e@),
            ),
        decreases 32 - depth,
    {
        let ghost ev = effects@.map_values(|e: VpeEffect| e@);
        let ghost pv = events@.map_values(|e: PlannedEvent| e@);
        let ghost cur0 = current_state@;
        let ghost act0 = current_action@;
        let ghost depth0 = depth as int;
        let idx = match process.state_index(current_state.as_str()) {
            Some(i) => i,
            None => {
                return Some(Err(runtime_error(RuntimeError::UnknownState(current_state))));
            },
        };
        let node = &nodes[idx];
        assert(nv[idx as int] == node@);
        let manifest = match process.manifest(node.name.as_str()) {
            Some(m) => m,
            None => {
                return Some(Err(runtime_error(RuntimeError::UnknownState(node.name.clone()))));
            },
        };
        match first_missing_field(&manifest.context_requirements, &request.context) {
            Some(field) => {
                return Some(Err(runtime_error(RuntimeError::MissingContextField { field })));
            },
            None => {},
        }
        if !has_action_exec(&node.transitions, current_action.as_str()) {
            return Some(
                Err(
                    runtime_error(
                        RuntimeError::NoTransitionFound {
                            state: current_state,
                            action: current_action,
                        },
                    ),
                ),
            );
        }
        let k = match choose_edge_exec(
            &node.transitions,
            current_action.as_str(),
            &request.context,
            history,
        ) {
            None => {
                return None;
            },
            Some(None) => {
                if str_eq(current_action.as_str(), "AUTO_TICK") {
                    return Some(
                        Ok(
                            VpeVerdict {
                                process: request.process.copy(),
                                trace_id: request.trace_id.clone(),
                                previous_state: request.current_state.clone(),
                                next_state: current_state,
                                state_patch: JsonMap::new(),
                                effects,
                                emitted_events: events,
                            },
                        ),
                    );
                }
                return Some(
                    Err(
                        runtime_error(
                            RuntimeError::NoTransitionFound {
                                state: current_state,
                                action: current_action,
                            },
                        ),
                    ),
                );
            },
            Some(Some(k)) => k,
        };
        let edge = &node.transitions[k];
        proof {
            assert(node_index(p.nodes, cur0) == idx);
            assert(lookup(p.manifests, node@.name) == Some(manifest@));
            assert(missing_field(manifest@.context_requirements, ctx) is None);
            assert(node@.transitions == edges_view(node.transitions@));
            assert(has_action(node@.transitions, act0));
            assert(choose_edge(node@.transitions, act0, ctx, hist, 0) == EdgeChoice::Taken(k as int));
        }
        assert(edges_view(node.transitions@)[k as int] == edge@);
        assert(node@.transitions[k as int] == edge@);
        assert(0 <= edge@.target_idx < nv.len());
        let next_state = nodes[edge.target_idx].name.clone();
        assert(nv[edge.target_idx as int] == nodes@[edge.target_idx as int]@);
        let mut j: usize = 0;
        while j < edge.effects.len()
            invariant
                j <= edge.effects@.len(),
                effects@.map_values(|e: VpeEffect| e@) == ev + edge@.effects.take(j as int),
            decreases edge.effects@.len() - j,
        {
            let ghost before = effects@.map_values(|e: VpeEffect| e@);
            effects.push(edge.effects[j].copy());
            assert(edge@.effects[j as int] == edge.effects@[j as int]@);
            assert(edge@.effects.take(j as int + 1) =~= edge@.effects.take(j as int).push(
                edge@.effects[j as int],
            ));
            assert(effects@.map_values(|e: VpeEffect| e@) =~= before.push(edge.effects@[j as int]@));
            j = j + 1;
        }
        proof {
            assert(edge@.effects.take(edge@.effects.len() as int) =~= edge@.effects);
        }
        let metadata = JsonValue::Object(JsonMap::new());
        proof {
            lemma_json_entries_view(Seq::<(String, JsonValue)>::empty());
            assert(metadata@ == JsonV::Object(Seq::empty()));
        }
        events.push(
            PlannedEvent {
                event_kind: VpeEventKind::StateTransition,
                action: current_action.clone(),
                state_before: current_state.clone(),
                state_after: next_state.clone(),
                metadata,
            },
        );
        assert(events@.map_values(|e: PlannedEvent| e@) =~= pv.push(
            transition_event(current_action@, current_state@, next_state@),
        ));
        current_state = next_state;
        let next_idx = match process.state_index(current_state.as_str()) {
            Some(i) => i,
            None => {
                return Some(Err(runtime_error(RuntimeError::UnknownState(current_state))));
            },
        };
        let next_node = &nodes[next_idx];
        assert(nv[next_idx as int] == next_node@);
        assert(next_node@.transitions == edges_view(next_node.transitions@));
        if !has_action_exec(&next_node.transitions, "AUTO_TICK") {
            return Some(
                Ok(
                    VpeVerdict {
                        process: request.process.copy(),
                        trace_id: request.trace_id.clone(),
                        previous_state: request.current_state.clone(),
                        next_state: current_state,
                        state_patch: JsonMap::new(),
                        effects,
                        emitted_events: events,
                    },
                ),
            );
        }
        depth = depth + 1;
        if depth > MAX_AUTO_DEPTH {
            return Some(Err(runtime_error(RuntimeError::AutoTransitionLimitExceeded)));
        }
        current_action = String::from_str("AUTO_TICK");
    }
}

/// Evaluates one turn against a compiled process.
pub fn evaluate(process: &CompiledProcess, request: &VpeRequest) -> (r: Result<VpeVerdict, VpeError>)
    requires
        process_well_formed(process@),
        !(turn(process@, *request) is Overflow),
    ensures
        turn_result(*request, turn(process@, *request), Some(r)),
{
    match evaluate_turn(process, request) {
        Some(r) => r,
        None => {
            assert(false);
            Err(runtime_error(RuntimeError::AnchorMissing))
        },
    }
}

proof fn lemma_choose_edge(
    ts: Seq<EdgeV>,
    action: Seq<char>,
    ctx: Seq<(Seq<char>, JsonV)>,
    hist: Seq<VpeEvent>,
    k: int,
)
    requires
        0 <= k <= ts.len(),
    ensures
        choose_edge(ts, action, ctx, hist, k) matches EdgeChoice::Taken(t) ==> {
            &&& k <= t < ts.len()
            &&& ts[t].action == action
            &&& guards_pass(ts[t].guards, ctx, hist, 0) == Some(true)
            &&& forall|j: int|
                k <= j < t && (#[trigger] ts[j]).action == action ==> guards_pass(
                    ts[j].guards,
                    ctx,
                    hist,
                    0,
                ) == Some(false)
        },
        choose_edge(ts, action, ctx, hist, k) is NoneTaken ==> forall|j: int|
            k <= j < ts.len() && (#[trigger] ts[j]).action == action ==> guards_pass(
                ts[j].guards,
                ctx,
                hist,
                0,
            ) == Some(false),
    decreases ts.len() - k,
{
    if k < ts.len() {
        lemma_choose_edge(ts, action, ctx, hist, k + 1);
    }
}

/// The edge a turn takes is the first edge for the action, in the node's
/// order (highest priority first), whose guards all pass; every earlier edge
/// for the action has a failing guard.  When no edge is taken, every edge
/// for the action has a failing guard.
pub proof fn law_first_passing_edge(
    ts: Seq<EdgeV>,
    action: Seq<char>,
    ctx: Seq<(Seq<char>, JsonV)>,
    hist: Seq<VpeEvent>,
)
    ensures
        choose_edge(ts, action, ctx, hist, 0) matches EdgeChoice::Taken(t) ==> {
            &&& 0 <= t < ts.len()
            &&& ts[t].action == action
            &&& guards_pass(ts[t].guards, ctx, hist, 0) == Some(true)
            &&& forall|j: int|
                0 <= j < t && (#[trigger] ts[j]).action == action ==> guards_pass(
                    ts[j].guards,
                    ctx,
                    hist,
                    0,
                ) == Some(false)
        },
        choose_edge(ts, action, ctx, hist, 0) is NoneTaken ==> forall|j: int|
            0 <= j < ts.len() && (#[trigger] ts[j]).action == action ==> guards_pass(
                ts[j].guards,
                ctx,
                hist,
                0,
            ) == Some(false),
{
    lemma_choose_edge(ts, action, ctx, hist, 0);
}

proof fn lemma_guards_pass_from(
    gs: Seq<GuardV>,
    ctx: Seq<(Seq<char>, JsonV)>,
    hist: Seq<VpeEvent>,
    k: int,
)
    requires
        0 <= k <= gs.len(),
    ensures
        (guards_pass(gs, ctx, hist, k) == Some(true)) <==> (forall|i: int|
            k <= i < gs.len() ==> guard_outcome(#[trigger] gs[i], ctx, hist) == Some(true)),
        (guards_pass(gs, ctx, hist, k) == Some(false)) <==> (exists|i: int|
            k <= i < gs.len() && guard_outcome(#[trigger] gs[i], ctx, hist) == Some(false) && forall|j: int|
                k <= j < i ==> guard_outcome(#[trigger] gs[j], ctx, hist) == Some(true)),
    decreases gs.len() - k,
{
    if k < gs.len() {
        lemma_guards_pass_from(gs, ctx, hist, k + 1);
        if guard_outcome(gs[k], ctx, hist) == Some(false) {
            assert(forall|j: int| k <= j < k ==> guard_outcome(#[trigger] gs[j], ctx, hist) == Some(true));
        }
        if guard_outcome(gs[k], ctx, hist) == Some(true) {
            if guards_pass(gs, ctx, hist, k + 1) == Some(false) {
                let i = choose|i: int|
                    k + 1 <= i < gs.len() && guard_outcome(#[trigger] gs[i], ctx, hist) == Some(false)
                        && forall|j: int| k + 1 <= j < i ==> guard_outcome(#[trigger] gs[j], ctx, hist) == Some(true);
                assert forall|j: int| k <= j < i implies guard_outcome(#[trigger] gs[j], ctx, hist) == Some(true) by {
                    if j > k {
                    }
                }
            }
            if exists|i: int|
                k <= i < gs.len() && guard_outcome(#[trigger] gs[i], ctx, hist) == Some(false) && forall|j: int|
                    k <= j < i ==> guard_outcome(#[trigger] gs[j], ctx, hist) == Some(true) {
                let i = choose|i: int|
                    k <= i < gs.len() && guard_outcome(#[trigger] gs[i], ctx, hist) == Some(false) && forall|j: int|
                        k <= j < i ==> guard_outcome(#[trigger] gs[j], ctx, hist) == Some(true);
                assert(i != k);
                assert forall|j: int| k + 1 <= j < i implies guard_outcome(#[trigger] gs[j], ctx, hist) == Some(true) by {}
            }
        } else {
            assert(!(forall|i: int|
                k <= i < gs.len() ==> guard_outcome(#[trigger] gs[i], ctx, hist) == Some(true))) by {
                assert(guard_outcome(gs[k], ctx, hist) != Some(true));
            }
            if guard_outcome(gs[k], ctx, hist) is None {
                if exists|i: int|
                    k <= i < gs.len() && guard_outcome(#[trigger] gs[i], ctx, hist) == Some(false) && forall|j: int|
                        k <= j < i ==> guard_outcome(#[trigger] gs[j], ctx, hist) == Some(true) {
                    let i = choose|i: int|
                        k <= i < gs.len() && guard_outcome(#[trigger] gs[i], ctx, hist) == Some(false) && forall|j: int|
                            k <= j < i ==> guard_outcome(#[trigger] gs[j], ctx, hist) == Some(true);
                    assert(guard_outcome(gs[k], ctx, hist) == Some(true) || i == k);
                }
            }
        }
    }
}

/// A guard list passes exactly when every guard in it passes.  It fails
/// exactly when some guard fails and every guard before it passes: the
/// guards are checked in order, and a guard whose check overflows stops
/// the check with no answer.
pub proof fn law_guards_pass_all(gs: Seq<GuardV>, ctx: Seq<(Seq<char>, JsonV)>, hist: Seq<VpeEvent>)
    ensures
        (guards_pass(gs, ctx, hist, 0) == Some(true)) <==> (forall|i: int|
            0 <= i < gs.len() ==> guard_outcome(#[trigger] gs[i], ctx, hist) == Some(true)),
        (guards_pass(gs, ctx, hist, 0) == Some(false)) <==> (exists|i: int|
            0 <= i < gs.len() && guard_outcome(#[trigger] gs[i], ctx, hist) == Some(false) && forall|j: int|
                0 <= j < i ==> guard_outcome(#[trigger] gs[j], ctx, hist) == Some(true)),
{
    lemma_guards_pass_from(gs, ctx, hist, 0);
}

/// Every guard of the edge a turn takes passes on the request's context
/// and history, and every earlier edge for the action has a guard that
/// fails.
pub proof fn law_taken_edge_guards_pass(
    ts: Seq<EdgeV>,
    action: Seq<char>,
    ctx: Seq<(Seq<char>, JsonV)>,
    hist: Seq<VpeEvent>,
)
    ensures
        choose_edge(ts, action, ctx, hist, 0) matches EdgeChoice::Taken(t) ==> {
            &&& 0 <= t < ts.len()
            &&& ts[t].action == action
            &&& forall|i: int|
                0 <= i < ts[t].guards.len() ==> guard_outcome(#[trigger] ts[t].guards[i], ctx, hist)
                    == Some(true)
            &&& forall|j: int|
                0 <= j < t && (#[trigger] ts[j]).action == action ==> exists|i: int|
                    0 <= i < ts[j].guards.len() && guard_outcome(#[trigger] ts[j].guards[i], ctx, hist)
                        == Some(false)
        },
{
    lemma_choose_edge(ts, action, ctx, hist, 0);
    if let EdgeChoice::Taken(t) = choose_edge(ts, action, ctx, hist, 0) {
        law_guards_pass_all(ts[t].guards, ctx, hist);
        assert forall|j: int| 0 <= j < t && (#[trigger] ts[j]).action == action implies exists|i: int|
            0 <= i < ts[j].guards.len() && guard_outcome(#[trigger] ts[j].guards[i], ctx, hist) == Some(false) by {
            law_guards_pass_all(ts[j].guards, ctx, hist);
        }
    }
}

/// The events from `start` on lead from `from` to `to`, each starting
/// where the one before ended.
pub open spec fn chain_from(events: Seq<PlannedEventV>, start: int, from: Seq<char>, to: Seq<char>) -> bool {
    if start >= events.len() {
        from == to
    } else {
        &&& events[start].state_before == from
        &&& events.last().state_after == to
        &&& forall|i: int| start <= i < events.len() - 1 ==> #[trigger] links(events, i)
    }
}

/// The event at `i + 1` starts where the event at `i` ended.
pub open spec fn links(events: Seq<PlannedEventV>, i: int) -> bool {
    events[i].state_after == events[i + 1].state_before
}

/// The events lead from `from` to `to`, each starting where the one before
/// ended.
pub open spec fn event_chain(events: Seq<PlannedEventV>, from: Seq<char>, to: Seq<char>) -> bool {
    chain_from(events, 0, from, to)
}

/// What a turn from `cur` adds to the events and effects gathered so far.
pub open spec fn turn_tail(
    events: Seq<PlannedEventV>,
    effects: Seq<VpeEffectV>,
    cur: Seq<char>,
    action: Seq<char>,
    depth: int,
    next_state: Seq<char>,
    e2: Seq<VpeEffectV>,
    v2: Seq<PlannedEventV>,
) -> bool {
    &&& v2.len() >= events.len()
    &&& forall|i: int| 0 <= i < events.len() ==> #[trigger] v2[i] == events[i]
    &&& chain_from(v2, events.len() as int, cur, next_state)
    &&& v2.len() - events.len() <= 33 - depth
    &&& v2.len() > events.len() ==> v2[events.len() as int].action == action
    &&& v2.len() == events.len() ==> action == auto_tick()
    &&& forall|i: int| events.len() < i < v2.len() ==> (#[trigger] v2[i]).action == auto_tick()
    &&& e2.len() >= effects.len()
    &&& forall|i: int| 0 <= i < effects.len() ==> #[trigger] e2[i] == effects[i]
}

proof fn lemma_turn_tail_step(
    events: Seq<PlannedEventV>,
    effects: Seq<VpeEffectV>,
    cur: Seq<char>,
    action: Seq<char>,
    depth: int,
    ev: PlannedEventV,
    added: Seq<VpeEffectV>,
    next_state: Seq<char>,
    e2: Seq<VpeEffectV>,
    v2: Seq<PlannedEventV>,
)
    requires
        ev.state_before == cur,
        ev.action == action,
        turn_tail(events.push(ev), effects + added, ev.state_after, auto_tick(), depth + 1, next_state, e2, v2),
    ensures
        turn_tail(events, effects, cur, action, depth, next_state, e2, v2),
{
    let n = events.len() as int;
    assert(v2[n] == events.push(ev)[n]);
    assert forall|i: int| 0 <= i < n implies #[trigger] v2[i] == events[i] by {
        assert(v2[i] == events.push(ev)[i]);
    }
    assert forall|i: int| 0 <= i < effects.len() implies #[trigger] e2[i] == effects[i] by {
        assert(e2[i] == (effects + added)[i]);
    }
    assert forall|i: int| n <= i < v2.len() - 1 implies #[trigger] links(v2, i) by {
        if i == n {
            assert(v2[n + 1].state_before == ev.state_after);
        }
    }
}

proof fn lemma_turn_from_events(
    p: CompiledProcessV,
    ctx: Seq<(Seq<char>, JsonV)>,
    hist: Seq<VpeEvent>,
    cur: Seq<char>,
    action: Seq<char>,
    depth: int,
    effects: Seq<VpeEffectV>,
    events: Seq<PlannedEventV>,
)
    requires
        0 <= depth <= 32,
    ensures
        turn_from(p, ctx, hist, cur, action, depth, effects, events) matches TurnOutcome::Verdict {
            next_state,
            effects: e2,
            events: v2,
        } ==> turn_tail(events, effects, cur, action, depth, next_state, e2, v2),
    decreases 32 - depth,
{
    let o = turn_from(p, ctx, hist, cur, action, depth, effects, events);
    let i = node_index(p.nodes, cur);
    if i < p.nodes.len() {
        let node = p.nodes[i];
        if let Some(m) = lookup(p.manifests, node.name) {
            if missing_field(m.context_requirements, ctx) is None && has_action(node.transitions, action) {
                match choose_edge(node.transitions, action, ctx, hist, 0) {
                    EdgeChoice::NoneTaken => {

                    },
                    EdgeChoice::Taken(k) => {
                        let e = node.transitions[k];
                        let next = p.nodes[e.target_idx].name;
                        let effects2 = effects + e.effects;
                        let ev = transition_event(action, cur, next);
                        let events2 = events.push(ev);
                        let j = node_index(p.nodes, next);
                        if j < p.nodes.len() {
                            if !has_action(p.nodes[j].transitions, auto_tick()) {
                                assert(events2[events.len() as int] == ev);
                                assert forall|a: int| 0 <= a < effects.len() implies #[trigger] effects2[a] == effects[a] by {}
                            } else if depth + 1 <= 32 {
                                lemma_turn_from_events(
                                    p,
                                    ctx,
                                    hist,
                                    next,
                                    auto_tick(),
                                    depth + 1,
                                    effects2,
                                    events2,
                                );
                                if let TurnOutcome::Verdict { next_state, effects: e2, events: v2 } = o {
                                    lemma_turn_tail_step(
                                        events,
                                        effects,
                                        cur,
                                        action,
                                        depth,
                                        ev,
                                        e.effects,
                                        next_state,
                                        e2,
                                        v2,
                                    );
                                }
                            }
                        }
                    },
                    EdgeChoice::Overflow => {},
                }
            }
        }
    }
}

proof fn lemma_turn_from_no_desync(
    p: CompiledProcessV,
    ctx: Seq<(Seq<char>, JsonV)>,
    hist: Seq<VpeEvent>,
    cur: Seq<char>,
    action: Seq<char>,
    depth: int,
    effects: Seq<VpeEffectV>,
    events: Seq<PlannedEventV>,
)
    requires
        0 <= depth <= 32,
    ensures
        !(turn_from(p, ctx, hist, cur, action, depth, effects, events) matches TurnOutcome::Failure(
            RuntimeErrorV::Desync { .. },
        )),
    decreases 32 - depth,
{
    let i = node_index(p.nodes, cur);
    if i < p.nodes.len() {
        let node = p.nodes[i];
        if let Some(m) = lookup(p.manifests, node.name) {
            if missing_field(m.context_requirements, ctx) is None && has_action(node.transitions, action) {
                if let EdgeChoice::Taken(k) = choose_edge(node.transitions, action, ctx, hist, 0) {
                    let e = node.transitions[k];
                    let next = p.nodes[e.target_idx].name;
                    if depth + 1 <= 32 {
                        lemma_turn_from_no_desync(
                            p,
                            ctx,
                            hist,
                            next,
                            auto_tick(),
                            depth + 1,
                            effects + e.effects,
                            events.push(transition_event(action, cur, next)),
                        );
                    }
                }
            }
        }
    }
}

/// The events of a verdict form a chain from the current state to the
/// next state: the first is taken on the requested action, each later one
/// on `AUTO_TICK` from where the one before ended; there are at most 33 of
/// them.  With no event, the state does not change, and the request was
/// itself an `AUTO_TICK`.
pub proof fn law_verdict_events_chain(p: CompiledProcessV, request: VpeRequest)
    ensures
        turn(p, request) matches TurnOutcome::Verdict { next_state, effects, events } ==> {
            &&& event_chain(events, request.current_state@, next_state)
            &&& events.len() <= 33
            &&& events.len() > 0 ==> events[0].action == request.action@
            &&& events.len() == 0 ==> request.action@ == auto_tick()
            &&& forall|i: int| 0 < i < events.len() ==> (#[trigger] events[i]).action == auto_tick()
        },
{
    if request.chronicle.anchor.state_after@ == request.current_state@ {
        lemma_turn_from_events(
            p,
            request.context@,
            request.chronicle.events@,
            request.current_state@,
            request.action@,
            0,
            Seq::empty(),
            Seq::empty(),
        );

    }
}

/// A turn is refused as out of sync exactly when the anchor does not sit in
/// the current state.
pub proof fn law_desync(p: CompiledProcessV, request: VpeRequest)
    ensures
        (turn(p, request) == TurnOutcome::Failure(
            RuntimeErrorV::Desync {
                expected: request.chronicle.anchor.state_after@,
                provided: request.current_state@,
            },
        )) <==> request.chronicle.anchor.state_after@ != request.current_state@,
{
    if request.chronicle.anchor.state_after@ == request.current_state@ {
        lemma_turn_from_no_desync(
            p,
            request.context@,
            request.chronicle.events@,
            request.current_state@,
            request.action@,
            0,
            Seq::empty(),
            Seq::empty(),
        );
    }
}

/// A verdict is only given when the context holds every field the manifest
/// of the current state requires.
pub proof fn law_verdict_has_required_context(p: CompiledProcessV, request: VpeRequest)
    ensures
        turn(p, request) is Verdict ==> {
            let i = node_index(p.nodes, request.current_state@);
            &&& 0 <= i < p.nodes.len()
            &&& lookup(p.manifests, p.nodes[i].name) matches Some(m) && forall|k: int|
                0 <= k < m.context_requirements.len() ==> lookup(
                    request.context@,
                    requirement_key(#[trigger] m.context_requirements[k]),
                ) is Some
        },
{
    if turn(p, request) is Verdict {
        crate::json::lemma_key_index_bounds(crate::compile::node_pairs(p.nodes), request.current_state@);
        assert(request.chronicle.anchor.state_after@ == request.current_state@);
        let i = node_index(p.nodes, request.current_state@);
        assert(i < p.nodes.len());
        assert(lookup(p.manifests, p.nodes[i].name) is Some);
        let m = lookup(p.manifests, p.nodes[i].name)->Some_0;
        assert(missing_field(m.context_requirements, request.context@) is None);
        assert(lookup(p.manifests, p.nodes[i].name) == Some(m));
        assert forall|k: int| 0 <= k < m.context_requirements.len() implies lookup(
            request.context@,
            requirement_key(#[trigger] m.context_requirements[k]),
        ) is Some by {
            lemma_first_some_none_prefix(
                missing_fields(m.context_requirements, request.context@),
                m.context_requirements.len(),
                k,
            );
        }
    }
}

proof fn lemma_turn_from_lands(
    p: CompiledProcessV,
    ctx: Seq<(Seq<char>, JsonV)>,
    hist: Seq<VpeEvent>,
    cur: Seq<char>,
    action: Seq<char>,
    depth: int,
    effects: Seq<VpeEffectV>,
    events: Seq<PlannedEventV>,
)
    requires
        0 <= depth <= 32,
    ensures
        turn_from(p, ctx, hist, cur, action, depth, effects, events) matches TurnOutcome::Verdict {
            next_state,
            ..
        } ==> 0 <= node_index(p.nodes, next_state) < p.nodes.len(),
    decreases 32 - depth,
{
    crate::json::lemma_key_index_bounds(crate::compile::node_pairs(p.nodes), cur);
    let i = node_index(p.nodes, cur);
    if i < p.nodes.len() {
        let node = p.nodes[i];
        if let Some(m) = lookup(p.manifests, node.name) {
            if missing_field(m.context_requirements, ctx) is None && has_action(node.transitions, action) {
                if let EdgeChoice::Taken(k) = choose_edge(node.transitions, action, ctx, hist, 0) {
                    let e = node.transitions[k];
                    let next = p.nodes[e.target_idx].name;
                    crate::json::lemma_key_index_bounds(crate::compile::node_pairs(p.nodes), next);
                    if depth + 1 <= 32 {
                        lemma_turn_from_lands(
                            p,
                            ctx,
                            hist,
                            next,
                            auto_tick(),
                            depth + 1,
                            effects + e.effects,
                            events.push(transition_event(action, cur, next)),
                        );
                    }
                }
            }
        }
    }
}

/// A verdict's next state is a state of the process.
pub proof fn law_verdict_lands_in_a_state(p: CompiledProcessV, request: VpeRequest)
    ensures
        turn(p, request) matches TurnOutcome::Verdict { next_state, .. } ==> 0 <= node_index(
            p.nodes,
            next_state,
        ) < p.nodes.len(),
{
    lemma_turn_from_lands(
        p,
        request.context@,
        request.chronicle.events@,
        request.current_state@,
        request.action@,
        0,
        Seq::empty(),
        Seq::empty(),
    );
}

/// A verdict of a process compiled from a valid law is only given when the
/// context holds every field that a guard on the transitions of the current
/// state reads (`sys.now` among them for a `TimeElapsed` guard): the
/// manifest the compiler derived declares them, and the turn checks it.
pub proof fn law_verdict_reads_declared_fields(
    schema: DomainSchema,
    reg: Seq<(Seq<char>, GuardFactory)>,
    law: LawSource,
    document: Seq<u8>,
    p: CompiledProcessV,
    request: VpeRequest,
    i: int,
    k: int,
    g: int,
)
    requires
        law_is_valid(schema, law, reg),
        compiled_process(reg, law, document, p),
        0 <= i < law.states@.len(),
        request.current_state@ == law.states@[i].name@,
        0 <= k < law.states@[i].transitions@.len(),
        0 <= g < law.states@[i].transitions@[k].guards@.len(),
        turn(p, request) is Verdict,
    ensures
        forall|c: ContextRequirementV|
            #[trigger] guard_context_needs(law.states@[i].transitions@[k].guards@[g]).contains(c)
                ==> lookup(request.context@, requirement_key(c)) is Some,
{
    let states = law.states@;
    let cur = request.current_state@;
    law_valid_law_is_well_formed(schema, law, reg);
    law_verdict_has_required_context(p, request);
    let ni = node_index(p.nodes, cur);
    crate::json::lemma_key_index_bounds(crate::compile::node_pairs(p.nodes), cur);
    assert(crate::compile::node_pairs(p.nodes)[ni].0 == p.nodes[ni].name);
    assert(p.nodes[ni].name == cur);
    law_manifests_by_name(states, cur);
    assert forall|j: int| i < j < states.len() implies states[j].name@ != cur by {
        assert(states[i].name@ != states[j].name@);
    }
    assert(lookup(manifests_of(states), cur) == Some(state_manifest(states[i])));
    let m = state_manifest(states[i]);
    law_manifest_covers_guards(states[i], k, g);
    assert forall|c: ContextRequirementV|
        #[trigger] guard_context_needs(states[i].transitions@[k].guards@[g]).contains(c) implies lookup(
        request.context@,
        requirement_key(c),
    ) is Some by {
        assert(m.context_requirements.contains(c));
        let idx = choose|idx: int| 0 <= idx < m.context_requirements.len() && m.context_requirements[idx] == c;
        assert(lookup(request.context@, requirement_key(m.context_requirements[idx])) is Some);
    }
}

} // verus!
