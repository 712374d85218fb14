use vpe::error::VpeError;
use vpe::json::{JsonMap, JsonNumber, JsonValue};
use vpe::registry::{register_builtins, Guard, GuardFactory, GuardRegistry, GuardRegistryBuilder};
use vpe::types::{ContextMap, ContextRequirement, HistoryRequirement, VpeEvent, VpeEventKind};

fn params(pairs: Vec<(&str, JsonValue)>) -> JsonMap {
    JsonMap { entries: pairs.into_iter().map(|(k, v)| (k.to_string(), v)).collect() }
}

fn text(s: &str) -> JsonValue {
    JsonValue::String(s.into())
}

fn whole(n: u64) -> JsonValue {
    JsonValue::Number(JsonNumber::PosInt(n))
}

fn event(action: &str, timestamp: i64) -> VpeEvent {
    VpeEvent {
        event_id: "e".into(),
        parent_event_id: None,
        trace_id: "t".into(),
        timestamp,
        event_kind: VpeEventKind::StateTransition,
        action: action.into(),
        state_before: "A".into(),
        state_after: "B".into(),
        metadata: JsonValue::Null,
    }
}

fn context(pairs: Vec<(&str, JsonValue)>) -> ContextMap {
    params(pairs)
}

#[test]
fn builtin_registry_knows_every_builtin_type() {
    let registry = GuardRegistryBuilder::new().with_builtins().build().unwrap();
    for id in [
        "Default", "GreaterThan", "Equals", "OccurredWithin", "TimeElapsed", "FieldsEqual", "Exists",
        "MissingField", "InSet", "NotInSet",
    ] {
        assert!(registry.get(id).is_some(), "{}", id);
    }
    assert!(registry.get("DateAfter").is_none());
    assert!(matches!(registry.get("InSet"), Some(GuardFactory::InSet)));
}

#[test]
fn registering_again_replaces_the_factory() {
    let mut builder = GuardRegistry::builder();
    builder.register_guard("Custom", GuardFactory::Exists);
    builder.register_guard("Custom", GuardFactory::MissingField);
    let registry = builder.build().unwrap();
    assert!(matches!(registry.get("Custom"), Some(GuardFactory::MissingField)));
    let mut b2 = GuardRegistryBuilder::new();
    register_builtins(&mut b2);
    assert!(b2.build().unwrap().get("Default").is_some());
}

#[test]
fn factories_build_guards_or_name_the_missing_parameter() {
    let g = GuardFactory::GreaterThan.build(&params(vec![("path", text("rec.a")), ("value", whole(5))])).unwrap();
    assert_eq!(g.name(), "GreaterThan");
    let e = GuardFactory::GreaterThan.build(&params(vec![("value", whole(5))])).unwrap_err();
    assert!(matches!(e, VpeError::Unsupported(_)));
    assert_eq!(e.message(), "unsupported: GreaterThan requires string field 'path'");
    let e = GuardFactory::TimeElapsed.build(&params(vec![])).unwrap_err();
    assert_eq!(e.message(), "unsupported: TimeElapsed requires field 'seconds'");
    let e = GuardFactory::InSet.build(&params(vec![("path", text("rec.a")), ("values", text("x"))])).unwrap_err();
    assert_eq!(e.message(), "unsupported: InSet requires array field 'values'");
    assert_eq!(GuardFactory::Default.build(&JsonMap::new()).unwrap().name(), "Default");
}

#[test]
fn guards_check_the_context() {
    let ctx = context(vec![
        ("rec.amount", JsonValue::Number(JsonNumber::Float(150.0f64.to_bits()))),
        ("rec.status", text("Draft")),
        ("ext.status", text("Draft")),
        ("rec.empty", JsonValue::Null),
    ]);
    let hist: Vec<VpeEvent> = vec![];
    let gt = Guard::GreaterThan { path: "rec.amount".into(), value: JsonNumber::PosInt(100) };
    assert!(gt.check(&ctx, &hist));
    let gt = Guard::GreaterThan { path: "rec.amount".into(), value: JsonNumber::PosInt(150) };
    assert!(!gt.check(&ctx, &hist));
    let eq = Guard::Equals { path: "rec.status".into(), value: text("Draft") };
    assert!(eq.check(&ctx, &hist));
    let fe = Guard::FieldsEqual { left_path: "rec.status".into(), right_path: "ext.status".into() };
    assert!(fe.check(&ctx, &hist));
    assert!(Guard::Exists { path: "rec.status".into() }.check(&ctx, &hist));
    assert!(!Guard::Exists { path: "rec.empty".into() }.check(&ctx, &hist));
    assert!(Guard::MissingField { path: "rec.empty".into() }.check(&ctx, &hist));
    assert!(Guard::MissingField { path: "rec.none".into() }.check(&ctx, &hist));
    let in_set = Guard::InSet { path: "rec.status".into(), values: vec![text("Review"), text("Draft")] };
    assert!(in_set.check(&ctx, &hist));
    let not_in = Guard::NotInSet { path: "rec.status".into(), values: vec![text("Review")] };
    assert!(not_in.check(&ctx, &hist));
    assert!(Guard::NotInSet { path: "rec.none".into(), values: vec![] }.check(&ctx, &hist));
}

#[test]
fn guards_check_the_history() {
    let hist = vec![event("FraudCheck", 1_000), event("Other", 1_500), event("Submit", 4_000)];
    let within = Guard::OccurredWithin { target_action: "FraudCheck".into(), window_seconds: 3_000 };
    assert!(within.check(&ContextMap::new(), &hist));
    let too_short = Guard::OccurredWithin { target_action: "FraudCheck".into(), window_seconds: 2_999 };
    assert!(!too_short.check(&ContextMap::new(), &hist));
    assert!(!within.check(&ContextMap::new(), &[]));
    let ctx = context(vec![("sys.now", whole(4_300))]);
    assert!(Guard::TimeElapsed { seconds: 300 }.check(&ctx, &hist));
    assert!(!Guard::TimeElapsed { seconds: 301 }.check(&ctx, &hist));
    assert_eq!(Guard::TimeElapsed { seconds: 301 }.outcome(&ctx, &hist), Some(false));
}

#[test]
fn guards_declare_what_they_read() {
    let r = Guard::TimeElapsed { seconds: 1 }.requirements();
    assert_eq!(r.history, vec![HistoryRequirement::LastTransition]);
    assert_eq!(r.context, vec![ContextRequirement::SystemField("sys.now".into())]);
    let r = Guard::FieldsEqual { left_path: "rec.a".into(), right_path: "rec.b".into() }.requirements();
    assert_eq!(r.context, vec![ContextRequirement::Field("rec.a".into()), ContextRequirement::Field("rec.b".into())]);
    assert!(Guard::Default.requirements().history.is_empty());
}

#[test]
fn equals_compares_objects_key_by_key() {
    let left = JsonValue::Object(params(vec![("a", whole(1)), ("b", text("x"))]));
    let right = JsonValue::Object(params(vec![("b", text("x")), ("a", whole(1))]));
    let ctx = context(vec![("rec.obj", left)]);
    assert!(Guard::Equals { path: "rec.obj".into(), value: right }.check(&ctx, &[]));
    let other = JsonValue::Object(params(vec![("a", whole(2)), ("b", text("x"))]));
    assert!(!Guard::Equals { path: "rec.obj".into(), value: other }.check(&ctx, &[]));
    let zero = JsonValue::Number(JsonNumber::Float(0.0f64.to_bits()));
    let minus_zero = JsonValue::Number(JsonNumber::Float((-0.0f64).to_bits()));
    let ctx = context(vec![("rec.z", zero)]);
    assert!(Guard::Equals { path: "rec.z".into(), value: minus_zero }.check(&ctx, &[]));
    assert!(!Guard::Equals { path: "rec.z".into(), value: whole(0) }.check(&ctx, &[]));
}

#[test]
fn register_guard_calls_chain() {
    let mut builder = GuardRegistry::builder();
    builder
        .register_guard("Present", GuardFactory::Exists)
        .register_guard("Absent", GuardFactory::MissingField);
    let registry = builder.build().unwrap();
    assert!(matches!(registry.get("Present"), Some(GuardFactory::Exists)));
    assert!(matches!(registry.get("Absent"), Some(GuardFactory::MissingField)));
}
