use vpe::json::{JsonMap, JsonNumber, JsonValue};
use vpe::law::{GuardSource, LawSource, StateSource, TransitionSource};
use vpe::manifest::build_manifests;
use vpe::types::{ContextRequirement, HistoryRequirement};

fn params(pairs: Vec<(&str, JsonValue)>) -> JsonMap {
    JsonMap { entries: pairs.into_iter().map(|(k, v)| (k.to_string(), v)).collect() }
}

fn num(n: u64) -> JsonValue {
    JsonValue::Number(JsonNumber::PosInt(n))
}

fn text(s: &str) -> JsonValue {
    JsonValue::String(s.into())
}

fn law_with(states: Vec<StateSource>) -> LawSource {
    LawSource {
        domain: "TestDomain".into(),
        schema_version: "1.0.0".into(),
        process: "TestProcess".into(),
        version: "1.0.0".into(),
        initial_state: "Draft".into(),
        states,
        migration_rules: vec![],
    }
}

fn draft_with_guards(guards: Vec<GuardSource>) -> LawSource {
    law_with(vec![
        StateSource {
            name: "Draft".into(),
            is_transient: false,
            transitions: vec![TransitionSource {
                action: "Submit".into(),
                to: "Approved".into(),
                priority: 0,
                guards,
                effects: vec![],
                comment: None,
            }],
        },
        StateSource { name: "Approved".into(), is_transient: false, transitions: vec![] },
    ])
}

#[test]
fn builds_manifest_for_each_state() {
    let law = law_with(vec![
        StateSource { name: "Draft".into(), is_transient: false, transitions: vec![] },
        StateSource { name: "Approved".into(), is_transient: false, transitions: vec![] },
    ]);
    let manifests = build_manifests(&law);
    assert_eq!(manifests.len(), 2);
    assert!(manifests.contains_key("Draft"));
    assert!(manifests.contains_key("Approved"));
}

#[test]
fn always_includes_last_transition_requirement() {
    let law = law_with(vec![StateSource { name: "Draft".into(), is_transient: false, transitions: vec![] }]);
    let manifests = build_manifests(&law);
    let manifest = manifests.get("Draft").unwrap();
    assert_eq!(manifest.history_requirements, vec![HistoryRequirement::LastTransition]);
}

#[test]
fn includes_context_requirement_for_greater_than_guard() {
    let law = draft_with_guards(vec![GuardSource {
        guard_type: "GreaterThan".into(),
        params: params(vec![("path", text("rec.amount")), ("value", num(100))]),
    }]);
    let manifests = build_manifests(&law);
    let manifest = manifests.get("Draft").unwrap();
    assert!(manifest.context_requirements.contains(&ContextRequirement::Field("rec.amount".into())));
}

#[test]
fn includes_context_requirement_for_equals_guard() {
    let law = draft_with_guards(vec![GuardSource {
        guard_type: "Equals".into(),
        params: params(vec![("path", text("rec.amount")), ("value", num(100))]),
    }]);
    let manifests = build_manifests(&law);
    let manifest = manifests.get("Draft").unwrap();
    assert!(manifest.context_requirements.contains(&ContextRequirement::Field("rec.amount".into())));
}

#[test]
fn includes_history_requirement_for_occurred_within_guard() {
    let law = draft_with_guards(vec![GuardSource {
        guard_type: "OccurredWithin".into(),
        params: params(vec![("target_action", text("FraudCheck")), ("window_seconds", num(3600))]),
    }]);
    let manifests = build_manifests(&law);
    let manifest = manifests.get("Draft").unwrap();
    assert!(manifest.history_requirements.contains(&HistoryRequirement::EventsInWindow {
        action: "FraudCheck".into(),
        duration_seconds: 3600,
    }));
}

#[test]
fn time_elapsed_does_not_duplicate_last_transition_requirement() {
    let law = draft_with_guards(vec![GuardSource {
        guard_type: "TimeElapsed".into(),
        params: params(vec![("seconds", num(300))]),
    }]);
    let manifests = build_manifests(&law);
    let manifest = manifests.get("Draft").unwrap();
    let count = manifest.history_requirements.iter().filter(|r| **r == HistoryRequirement::LastTransition).count();
    assert_eq!(count, 1);
}

#[test]
fn manifest_lists_each_field_once_in_guard_order() {
    let law = draft_with_guards(vec![
        GuardSource {
            guard_type: "Equals".into(),
            params: params(vec![("path", text("rec.b")), ("value", num(1))]),
        },
        GuardSource {
            guard_type: "GreaterThan".into(),
            params: params(vec![("path", text("rec.a")), ("value", num(1))]),
        },
        GuardSource {
            guard_type: "GreaterThan".into(),
            params: params(vec![("path", text("rec.b")), ("value", num(2))]),
        },
        GuardSource { guard_type: "Exists".into(), params: params(vec![("path", text("rec.c"))]) },
    ]);
    let manifests = build_manifests(&law);
    let manifest = manifests.get("Draft").unwrap();
    assert_eq!(
        manifest.context_requirements,
        vec![
            ContextRequirement::Field("rec.b".into()),
            ContextRequirement::Field("rec.a".into()),
            ContextRequirement::Field("rec.c".into()),
        ]
    );
    assert_eq!(manifest.history_requirements, vec![HistoryRequirement::LastTransition]);
    assert!(manifests.get("Missing").is_none());
}

#[test]
fn later_state_of_one_name_replaces_the_earlier_manifest() {
    let mut law = draft_with_guards(vec![GuardSource {
        guard_type: "GreaterThan".into(),
        params: params(vec![("path", text("rec.amount")), ("value", num(100))]),
    }]);
    law.states.push(StateSource { name: "Draft".into(), is_transient: false, transitions: vec![] });
    let manifests = build_manifests(&law);
    assert_eq!(manifests.len(), 2);
    assert!(manifests.get("Draft").unwrap().context_requirements.is_empty());
}

#[test]
fn manifest_lists_the_path_of_an_exists_guard() {
    let law = draft_with_guards(vec![GuardSource {
        guard_type: "Exists".into(),
        params: params(vec![("path", text("rec.owner"))]),
    }]);
    let manifests = build_manifests(&law);
    let manifest = manifests.get("Draft").unwrap();
    assert_eq!(manifest.context_requirements, vec![ContextRequirement::Field("rec.owner".into())]);
}

#[test]
fn manifest_lists_both_paths_of_a_fields_equal_guard() {
    let law = draft_with_guards(vec![GuardSource {
        guard_type: "FieldsEqual".into(),
        params: params(vec![("left_path", text("rec.a")), ("right_path", text("rec.b"))]),
    }]);
    let manifests = build_manifests(&law);
    let manifest = manifests.get("Draft").unwrap();
    assert_eq!(
        manifest.context_requirements,
        vec![ContextRequirement::Field("rec.a".into()), ContextRequirement::Field("rec.b".into())]
    );
}

#[test]
fn manifest_lists_the_paths_of_set_and_missing_field_guards() {
    let law = draft_with_guards(vec![
        GuardSource {
            guard_type: "InSet".into(),
            params: params(vec![("path", text("rec.kind")), ("values", JsonValue::Array(vec![text("a")]))]),
        },
        GuardSource {
            guard_type: "NotInSet".into(),
            params: params(vec![("path", text("rec.flag")), ("values", JsonValue::Array(vec![]))]),
        },
        GuardSource { guard_type: "MissingField".into(), params: params(vec![("path", text("rec.kind"))]) },
    ]);
    let manifests = build_manifests(&law);
    let manifest = manifests.get("Draft").unwrap();
    assert_eq!(
        manifest.context_requirements,
        vec![ContextRequirement::Field("rec.kind".into()), ContextRequirement::Field("rec.flag".into())]
    );
}

#[test]
fn time_elapsed_guard_asks_for_the_current_time() {
    let law = draft_with_guards(vec![GuardSource {
        guard_type: "TimeElapsed".into(),
        params: params(vec![("seconds", num(300))]),
    }]);
    let manifests = build_manifests(&law);
    let manifest = manifests.get("Draft").unwrap();
    assert_eq!(manifest.context_requirements, vec![ContextRequirement::SystemField("sys.now".into())]);
    assert_eq!(manifest.history_requirements, vec![HistoryRequirement::LastTransition]);
}

#[test]
fn unknown_guard_type_asks_for_nothing() {
    let law = draft_with_guards(vec![GuardSource {
        guard_type: "Custom".into(),
        params: params(vec![("path", text("rec.x"))]),
    }]);
    let manifests = build_manifests(&law);
    let manifest = manifests.get("Draft").unwrap();
    assert!(manifest.context_requirements.is_empty());
}
