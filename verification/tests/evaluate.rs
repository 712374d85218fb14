use vpe::compile::VpeCompiler;
use vpe::error::{RuntimeError, VpeError};
use vpe::json::{JsonMap, JsonNumber, JsonValue};
use vpe::law::{GuardSource, LawSource, StateSource, TransitionSource};
use vpe::registry::GuardRegistryBuilder;
use vpe::runtime::{evaluate, evaluate_turn};
use vpe::schema::{DomainSchema, FieldDefinition, SchemaFieldType, SchemaNamespaces};
use vpe::types::{ChronicleView, ContextMap, ProcessRef, VpeEvent, VpeEventKind, VpeRequest};

fn schema() -> DomainSchema {
    DomainSchema {
        domain: "TestDomain".into(),
        version: "1.0.0".into(),
        namespaces: SchemaNamespaces {
            rec: vec![FieldDefinition {
                name: "amount".into(),
                field_type: SchemaFieldType::Number,
                description: None,
                enum_values: None,
            }],
            ext: vec![],
            calc: vec![],
        },
    }
}

fn compiler() -> VpeCompiler {
    let registry = GuardRegistryBuilder::new().with_builtins().build().expect("registry should build");
    VpeCompiler::with_registry(registry)
}

fn params(pairs: Vec<(&str, JsonValue)>) -> JsonMap {
    JsonMap { entries: pairs.into_iter().map(|(k, v)| (k.to_string(), v)).collect() }
}

fn guard(guard_type: &str, pairs: Vec<(&str, JsonValue)>) -> GuardSource {
    GuardSource { guard_type: guard_type.into(), params: params(pairs) }
}

fn transition(action: &str, to: &str, priority: u32, guards: Vec<GuardSource>) -> TransitionSource {
    TransitionSource { action: action.into(), to: to.into(), priority, guards, effects: vec![], comment: None }
}

fn law_of(states: Vec<StateSource>) -> LawSource {
    LawSource {
        domain: "TestDomain".into(),
        schema_version: "1.0.0".into(),
        process: "TestProcess".into(),
        version: "1.0.0".into(),
        initial_state: "Draft".into(),
        states,
        migration_rules: vec![],
    }
}

fn law() -> LawSource {
    law_of(vec![
        StateSource {
            name: "Draft".into(),
            is_transient: false,
            transitions: vec![
                transition(
                    "Submit",
                    "Approved",
                    10,
                    vec![guard(
                        "GreaterThan",
                        vec![
                            ("path", JsonValue::String("rec.amount".into())),
                            ("value", JsonValue::Number(JsonNumber::PosInt(100))),
                        ],
                    )],
                ),
                transition("Submit", "Review", 1, vec![guard("Default", vec![])]),
            ],
        },
        StateSource { name: "Approved".into(), is_transient: false, transitions: vec![] },
        StateSource { name: "Review".into(), is_transient: false, transitions: vec![] },
    ])
}

fn law_with_auto_tick() -> LawSource {
    law_of(vec![
        StateSource {
            name: "Draft".into(),
            is_transient: false,
            transitions: vec![transition("Submit", "PendingPayment", 100, vec![guard("Default", vec![])])],
        },
        StateSource {
            name: "PendingPayment".into(),
            is_transient: true,
            transitions: vec![transition(
                "AUTO_TICK",
                "PaymentTimeout",
                100,
                vec![guard("TimeElapsed", vec![("seconds", JsonValue::Number(JsonNumber::PosInt(300)))])],
            )],
        },
        StateSource { name: "PaymentTimeout".into(), is_transient: false, transitions: vec![] },
    ])
}

fn anchor(state_after: &str) -> VpeEvent {
    VpeEvent {
        event_id: "evt-1".into(),
        parent_event_id: None,
        trace_id: "trace-1".into(),
        timestamp: 1_700_000_000,
        event_kind: VpeEventKind::StateTransition,
        action: "Create".into(),
        state_before: "None".into(),
        state_after: state_after.into(),
        metadata: JsonValue::Object(JsonMap::new()),
    }
}

fn now(t: i64) -> JsonValue {
    JsonValue::Number(JsonNumber::PosInt(t as u64))
}

fn request(current_state: &str, action: &str, amount: f64) -> VpeRequest {
    let mut context = ContextMap::new();
    context.insert("rec.amount".into(), JsonValue::Number(JsonNumber::Float(amount.to_bits())));
    context.insert("sys.now".into(), now(1_700_000_100));
    VpeRequest {
        process: ProcessRef::new("TestDomain", "TestProcess", "1.0.0"),
        trace_id: "trace-1".into(),
        now: 1_700_000_100,
        current_state: current_state.into(),
        action: action.into(),
        context,
        chronicle: ChronicleView { anchor: anchor(current_state), events: vec![anchor(current_state)] },
    }
}

const DOCUMENT: &[u8] = b"{}";

#[test]
fn evaluate_takes_highest_priority_matching_transition() {
    let compiled = compiler().compile(&schema(), &law(), DOCUMENT).unwrap().process;
    let req = request("Draft", "Submit", 150.0);
    let verdict = evaluate(&compiled, &req).unwrap();
    assert_eq!(verdict.previous_state, "Draft");
    assert_eq!(verdict.next_state, "Approved");
    assert_eq!(verdict.emitted_events.len(), 1);
    assert_eq!(verdict.emitted_events[0].state_after, "Approved");
}

#[test]
fn evaluate_falls_back_to_lower_priority_transition_when_guard_fails() {
    let compiled = compiler().compile(&schema(), &law(), DOCUMENT).unwrap().process;
    let req = request("Draft", "Submit", 50.0);
    let verdict = evaluate(&compiled, &req).unwrap();
    assert_eq!(verdict.next_state, "Review");
}

#[test]
fn evaluate_returns_desync_when_anchor_and_current_state_do_not_match() {
    let compiled = compiler().compile(&schema(), &law(), DOCUMENT).unwrap().process;
    let mut req = request("Draft", "Submit", 150.0);
    req.chronicle.anchor.state_after = "Approved".into();
    let err = evaluate(&compiled, &req).unwrap_err();
    assert!(matches!(err, VpeError::Runtime(RuntimeError::Desync { .. })));
}

#[test]
fn evaluate_returns_unknown_state_for_missing_current_state() {
    let compiled = compiler().compile(&schema(), &law(), DOCUMENT).unwrap().process;
    let req = request("MissingState", "Submit", 150.0);
    let err = evaluate(&compiled, &req).unwrap_err();
    assert!(matches!(err, VpeError::Runtime(RuntimeError::UnknownState(_))));
}

#[test]
fn evaluate_returns_no_transition_found_for_missing_action() {
    let compiled = compiler().compile(&schema(), &law(), DOCUMENT).unwrap().process;
    let req = request("Draft", "Cancel", 150.0);
    let err = evaluate(&compiled, &req).unwrap_err();
    assert!(matches!(err, VpeError::Runtime(RuntimeError::NoTransitionFound { .. })));
}

#[test]
fn evaluate_fails_when_required_context_missing() {
    let compiled = compiler().compile(&schema(), &law(), DOCUMENT).unwrap().process;
    let mut context = ContextMap::new();
    context.insert("sys.now".into(), now(1_700_000_100));
    let req = VpeRequest {
        process: ProcessRef::new("TestDomain", "TestProcess", "1.0.0"),
        trace_id: "trace-1".into(),
        now: 1_700_000_100,
        current_state: "Draft".into(),
        action: "Submit".into(),
        context,
        chronicle: ChronicleView { anchor: anchor("Draft"), events: vec![anchor("Draft")] },
    };
    let err = evaluate(&compiled, &req).unwrap_err();
    assert!(matches!(err, VpeError::Runtime(RuntimeError::MissingContextField { .. })));
}

#[test]
fn evaluate_stops_before_auto_tick_when_guard_does_not_pass() {
    let compiled = compiler().compile(&schema(), &law_with_auto_tick(), DOCUMENT).unwrap().process;
    let mut req = request("Draft", "Submit", 150.0);
    req.context.insert("sys.now".into(), now(1_700_000_100));
    req.chronicle.events[0].timestamp = 1_700_000_000;
    let verdict = evaluate(&compiled, &req).unwrap();
    assert_eq!(verdict.next_state, "PendingPayment");
    assert_eq!(verdict.emitted_events.len(), 1);
}

#[test]
fn evaluate_returns_no_transition_found_when_auto_tick_has_no_matching_guard() {
    let compiled = compiler().compile(&schema(), &law_with_auto_tick(), DOCUMENT).unwrap().process;
    let mut req = request("Draft", "Submit", 150.0);
    req.context.insert("sys.now".into(), now(1_700_000_100));
    req.chronicle.events[0].timestamp = 1_700_000_050;
    let verdict = evaluate(&compiled, &req).unwrap();
    assert_eq!(verdict.next_state, "PendingPayment");
    assert_eq!(verdict.emitted_events.len(), 1);
}

#[test]
fn evaluate_auto_ticks_into_next_state_when_guard_passes() {
    let compiled = compiler().compile(&schema(), &law_with_auto_tick(), DOCUMENT).unwrap().process;
    let mut req = request("Draft", "Submit", 150.0);
    // The turn reads the time from `sys.now` in the context. The anchor lies
    // at 1_700_000_000, so 400 s later the 300 s `TimeElapsed` guard passes;
    // at 100 s it does not (see
    // `evaluate_stops_before_auto_tick_when_guard_does_not_pass`).
    req.context.insert("sys.now".into(), now(1_700_000_400));
    let verdict = evaluate(&compiled, &req).unwrap();
    assert_eq!(verdict.previous_state, "Draft");
    assert_eq!(verdict.next_state, "PaymentTimeout");
    assert_eq!(verdict.emitted_events.len(), 2);
    assert_eq!(verdict.emitted_events[0].state_after, "PendingPayment");
    assert_eq!(verdict.emitted_events[1].state_before, "PendingPayment");
    assert_eq!(verdict.emitted_events[1].action, "AUTO_TICK");
    assert_eq!(verdict.emitted_events[1].state_after, "PaymentTimeout");
}

#[test]
fn evaluate_error_messages() {
    let compiled = compiler().compile(&schema(), &law(), DOCUMENT).unwrap().process;
    let mut req = request("Draft", "Submit", 150.0);
    req.chronicle.anchor.state_after = "Approved".into();
    assert_eq!(evaluate(&compiled, &req).unwrap_err().message(), "desync: expected state 'Approved', got 'Draft'");
    let req = request("Draft", "Cancel", 150.0);
    assert_eq!(
        evaluate(&compiled, &req).unwrap_err().message(),
        "no transition found from state 'Draft' for action 'Cancel'"
    );
    let req = request("Nowhere", "Submit", 150.0);
    assert_eq!(evaluate(&compiled, &req).unwrap_err().message(), "unknown state: Nowhere");
}

#[test]
fn evaluate_turn_reports_time_overflow() {
    let compiled = compiler().compile(&schema(), &law_with_auto_tick(), DOCUMENT).unwrap().process;
    let mut req = request("Draft", "Submit", 150.0);
    req.context.insert("sys.now".into(), JsonValue::Number(JsonNumber::NegInt(i64::MIN)));
    req.chronicle.events[0].timestamp = i64::MAX;
    assert!(evaluate_turn(&compiled, &req).is_none());
}

#[test]
fn evaluate_carries_effects_and_process() {
    let mut l = law();
    l.states[0].transitions[1].effects = vec![vpe::law::EffectSource {
        effect_type: "Notify".into(),
        target: None,
        action: Some("Send".into()),
        params: Some(JsonValue::String("not an object".into())),
        mode: None,
    }];
    let compiled = compiler().compile(&schema(), &l, DOCUMENT).unwrap().process;
    let verdict = evaluate(&compiled, &request("Draft", "Submit", 50.0)).unwrap();
    assert_eq!(verdict.effects.len(), 1);
    assert_eq!(verdict.effects[0].effect_type, "Notify");
    assert_eq!(verdict.effects[0].params.len(), 0);
    assert_eq!(verdict.process.domain, "TestDomain");
    assert_eq!(verdict.trace_id, "trace-1");
    assert_eq!(verdict.state_patch.len(), 0);
}

#[test]
fn evaluate_auto_tick_request_that_takes_no_transition_emits_no_event() {
    let compiled = compiler().compile(&schema(), &law_with_auto_tick(), DOCUMENT).unwrap().process;
    // 100 s after the anchor the 300 s guard does not pass: the state stays.
    let req = request("PendingPayment", "AUTO_TICK", 150.0);
    let verdict = evaluate(&compiled, &req).unwrap();
    assert_eq!(verdict.previous_state, "PendingPayment");
    assert_eq!(verdict.next_state, "PendingPayment");
    assert!(verdict.emitted_events.is_empty());
}

#[test]
fn evaluate_requires_the_time_a_time_elapsed_guard_reads() {
    let compiled = compiler().compile(&schema(), &law_with_auto_tick(), DOCUMENT).unwrap().process;
    let mut req = request("PendingPayment", "AUTO_TICK", 150.0);
    req.context = ContextMap::new();
    let err = evaluate(&compiled, &req).unwrap_err();
    match err {
        VpeError::Runtime(RuntimeError::MissingContextField { field }) => assert_eq!(field, "sys.now"),
        other => panic!("unexpected error: {:?}", other),
    }
}
