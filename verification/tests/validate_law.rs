use vpe::error::CompileError;
use vpe::json::{JsonMap, JsonNumber, JsonValue};
use vpe::law::{EffectMode, EffectSource, GuardSource, LawSource, StateSource, TransitionSource};
use vpe::registry::{GuardRegistry, GuardRegistryBuilder};
use vpe::schema::{DomainSchema, FieldDefinition, SchemaFieldType, SchemaNamespaces};
use vpe::validate::validate_law;

fn field(name: &str, field_type: SchemaFieldType) -> FieldDefinition {
    FieldDefinition { name: name.into(), field_type, description: None, enum_values: None }
}

fn schema() -> DomainSchema {
    DomainSchema {
        domain: "TestDomain".into(),
        version: "1.0.0".into(),
        namespaces: SchemaNamespaces {
            rec: vec![field("amount", SchemaFieldType::Number), field("status", SchemaFieldType::String)],
            ext: vec![field("status", SchemaFieldType::String)],
            calc: vec![],
        },
    }
}

fn registry() -> GuardRegistry {
    GuardRegistryBuilder::new().with_builtins().build().expect("registry should build")
}

fn num(n: u64) -> JsonValue {
    JsonValue::Number(JsonNumber::PosInt(n))
}

fn text(s: &str) -> JsonValue {
    JsonValue::String(s.into())
}

fn params(pairs: Vec<(&str, JsonValue)>) -> JsonMap {
    JsonMap { entries: pairs.into_iter().map(|(k, v)| (k.to_string(), v)).collect() }
}

fn guard(guard_type: &str, pairs: Vec<(&str, JsonValue)>) -> GuardSource {
    GuardSource { guard_type: guard_type.into(), params: params(pairs) }
}

fn transition(action: &str, to: &str, guards: Vec<GuardSource>, effects: Vec<EffectSource>) -> TransitionSource {
    TransitionSource { action: action.into(), to: to.into(), priority: 0, guards, effects, comment: None }
}

fn state(name: &str, is_transient: bool, transitions: Vec<TransitionSource>) -> StateSource {
    StateSource { name: name.into(), is_transient, transitions }
}

fn law(initial: &str, states: Vec<StateSource>) -> LawSource {
    LawSource {
        domain: "TestDomain".into(),
        schema_version: "1.0.0".into(),
        process: "TestProcess".into(),
        version: "1.0.0".into(),
        initial_state: initial.into(),
        states,
        migration_rules: vec![],
    }
}

fn valid_law() -> LawSource {
    law(
        "Draft",
        vec![
            state("Draft", false, vec![transition("Submit", "Approved", vec![guard("Default", vec![])], vec![])]),
            state("Approved", false, vec![]),
        ],
    )
}

fn valid_law_with_status_comparison() -> LawSource {
    valid_law()
}

fn with_guard(g: GuardSource) -> LawSource {
    let mut law = valid_law();
    law.states[0].transitions[0].guards[0] = g;
    law
}

fn effect(effect_type: &str, target: &str, action: &str, mode: EffectMode) -> EffectSource {
    EffectSource {
        effect_type: effect_type.into(),
        target: Some(target.into()),
        action: Some(action.into()),
        params: None,
        mode: Some(mode),
    }
}

fn error_message(law: &LawSource) -> String {
    match validate_law(&schema(), law, &registry()) {
        Ok(_) => String::new(),
        Err(e) => e.message(),
    }
}

#[test]
fn validates_a_basic_law() {
    let result = validate_law(&schema(), &valid_law(), &registry());
    assert!(result.is_ok());
}

#[test]
fn rejects_duplicate_states() {
    let mut law = valid_law();
    law.states.push(state("Draft", false, vec![]));
    let result = validate_law(&schema(), &law, &registry());
    assert!(matches!(result, Err(CompileError::DuplicateState(_))));
}

#[test]
fn rejects_missing_initial_state() {
    let mut law = valid_law();
    law.initial_state = "Missing".into();
    let result = validate_law(&schema(), &law, &registry());
    assert!(matches!(result, Err(CompileError::InitialStateNotFound(_))));
}

#[test]
fn rejects_unknown_target_state() {
    let mut law = valid_law();
    law.states[0].transitions[0].to = "Missing".into();
    let result = validate_law(&schema(), &law, &registry());
    assert!(matches!(result, Err(CompileError::UnknownTargetState(_))));
}

#[test]
fn rejects_unknown_guard_type() {
    let mut law = valid_law();
    law.states[0].transitions[0].guards[0].guard_type = "NotRegistered".into();
    let result = validate_law(&schema(), &law, &registry());
    assert!(matches!(result, Err(CompileError::UnknownGuardType(_))));
}

#[test]
fn warns_on_terminal_states() {
    let result = validate_law(&schema(), &valid_law(), &registry()).unwrap();
    assert!(result.iter().any(|w| w.contains("terminal")));
}

#[test]
fn warns_on_unreachable_states() {
    let mut law = valid_law();
    law.states.push(state("Orphan", false, vec![]));
    let result = validate_law(&schema(), &law, &registry()).unwrap();
    assert!(result.iter().any(|w| w.contains("unreachable")));
}

#[test]
fn rejects_greater_than_with_missing_path() {
    let law = with_guard(guard("GreaterThan", vec![("value", num(100))]));
    let result = validate_law(&schema(), &law, &registry());
    assert!(matches!(result, Err(CompileError::InvalidLaw(_))));
}

#[test]
fn rejects_greater_than_with_unknown_field() {
    let law = with_guard(guard("GreaterThan", vec![("path", text("rec.missing_field")), ("value", num(100))]));
    let result = validate_law(&schema(), &law, &registry());
    assert!(matches!(result, Err(CompileError::UnresolvedReference(_))));
}

#[test]
fn rejects_greater_than_with_wrong_value_type() {
    let law = with_guard(guard("GreaterThan", vec![("path", text("rec.amount")), ("value", text("not-a-number"))]));
    let result = validate_law(&schema(), &law, &registry());
    assert!(matches!(result, Err(CompileError::TypeMismatch(_))));
}

#[test]
fn validates_greater_than_with_number_field() {
    let law = with_guard(guard("GreaterThan", vec![("path", text("rec.amount")), ("value", num(100))]));
    let result = validate_law(&schema(), &law, &registry());
    assert!(result.is_ok());
}

#[test]
fn rejects_equals_with_missing_path() {
    let law = with_guard(guard("Equals", vec![("value", num(100))]));
    let result = validate_law(&schema(), &law, &registry());
    assert!(matches!(result, Err(CompileError::InvalidLaw(_))));
}

#[test]
fn rejects_equals_with_unknown_field() {
    let law = with_guard(guard("Equals", vec![("path", text("rec.unknown")), ("value", num(100))]));
    let result = validate_law(&schema(), &law, &registry());
    assert!(matches!(result, Err(CompileError::UnresolvedReference(_))));
}

#[test]
fn rejects_equals_with_wrong_type() {
    let law = with_guard(guard("Equals", vec![("path", text("rec.amount")), ("value", text("wrong"))]));
    let result = validate_law(&schema(), &law, &registry());
    assert!(matches!(result, Err(CompileError::TypeMismatch(_))));
}

#[test]
fn validates_equals_with_matching_type() {
    let law = with_guard(guard("Equals", vec![("path", text("rec.amount")), ("value", num(100))]));
    let result = validate_law(&schema(), &law, &registry());
    assert!(result.is_ok());
}

#[test]
fn rejects_occurred_within_without_target_action() {
    let law = with_guard(guard("OccurredWithin", vec![("window_seconds", num(3600))]));
    let result = validate_law(&schema(), &law, &registry());
    assert!(matches!(result, Err(CompileError::InvalidLaw(_))));
}

#[test]
fn rejects_occurred_within_without_window_seconds() {
    let law = with_guard(guard("OccurredWithin", vec![("target_action", text("FraudCheck"))]));
    let result = validate_law(&schema(), &law, &registry());
    assert!(matches!(result, Err(CompileError::InvalidLaw(_))));
}

#[test]
fn validates_occurred_within() {
    let law = with_guard(guard(
        "OccurredWithin",
        vec![("target_action", text("FraudCheck")), ("window_seconds", num(3600))],
    ));
    let result = validate_law(&schema(), &law, &registry());
    assert!(result.is_ok());
}

#[test]
fn rejects_time_elapsed_without_seconds() {
    let law = with_guard(guard("TimeElapsed", vec![]));
    let result = validate_law(&schema(), &law, &registry());
    assert!(matches!(result, Err(CompileError::InvalidLaw(_))));
}

#[test]
fn validates_time_elapsed() {
    let law = with_guard(guard("TimeElapsed", vec![("seconds", num(300))]));
    let result = validate_law(&schema(), &law, &registry());
    assert!(result.is_ok());
}

#[test]
fn rejects_fields_equal_without_left_path() {
    let law = with_guard(guard("FieldsEqual", vec![("right_path", text("rec.status"))]));
    let result = validate_law(&schema(), &law, &registry());
    assert!(matches!(result, Err(CompileError::InvalidLaw(_))));
}

#[test]
fn rejects_fields_equal_without_right_path() {
    let law = with_guard(guard("FieldsEqual", vec![("left_path", text("rec.status"))]));
    let result = validate_law(&schema(), &law, &registry());
    assert!(matches!(result, Err(CompileError::InvalidLaw(_))));
}

#[test]
fn rejects_fields_equal_with_unknown_left_path() {
    let law = with_guard(guard(
        "FieldsEqual",
        vec![("left_path", text("rec.unknown")), ("right_path", text("rec.status"))],
    ));
    let result = validate_law(&schema(), &law, &registry());
    assert!(matches!(result, Err(CompileError::UnresolvedReference(_))));
}

#[test]
fn rejects_fields_equal_with_unknown_right_path() {
    let law = with_guard(guard(
        "FieldsEqual",
        vec![("left_path", text("rec.status")), ("right_path", text("rec.unknown"))],
    ));
    let result = validate_law(&schema(), &law, &registry());
    assert!(matches!(result, Err(CompileError::UnresolvedReference(_))));
}

#[test]
fn rejects_fields_equal_with_incompatible_types() {
    let law = with_guard(guard(
        "FieldsEqual",
        vec![("left_path", text("rec.amount")), ("right_path", text("rec.status"))],
    ));
    let result = validate_law(&schema(), &law, &registry());
    assert!(matches!(result, Err(CompileError::TypeMismatch(_))));
}

#[test]
fn validates_fields_equal_with_compatible_types() {
    let mut law = valid_law_with_status_comparison();
    law.states[0].transitions[0].guards[0] =
        guard("FieldsEqual", vec![("left_path", text("rec.status")), ("right_path", text("ext.status"))]);
    let result = validate_law(&schema(), &law, &registry());
    assert!(result.is_ok());
}

#[test]
fn rejects_exists_without_path() {
    let law = with_guard(guard("Exists", vec![]));
    let result = validate_law(&schema(), &law, &registry());
    assert!(matches!(result, Err(CompileError::InvalidLaw(_))));
}

#[test]
fn rejects_exists_with_unknown_path() {
    let law = with_guard(guard("Exists", vec![("path", text("rec.unknown"))]));
    let result = validate_law(&schema(), &law, &registry());
    assert!(matches!(result, Err(CompileError::UnresolvedReference(_))));
}

#[test]
fn validates_exists_with_known_path() {
    let law = with_guard(guard("Exists", vec![("path", text("rec.status"))]));
    let result = validate_law(&schema(), &law, &registry());
    assert!(result.is_ok());
}

#[test]
fn rejects_missing_field_without_path() {
    let law = with_guard(guard("MissingField", vec![]));
    let result = validate_law(&schema(), &law, &registry());
    assert!(matches!(result, Err(CompileError::InvalidLaw(_))));
}

#[test]
fn rejects_missing_field_with_unknown_path() {
    let law = with_guard(guard("MissingField", vec![("path", text("rec.unknown"))]));
    let result = validate_law(&schema(), &law, &registry());
    assert!(matches!(result, Err(CompileError::UnresolvedReference(_))));
}

#[test]
fn validates_missing_field_with_known_path() {
    let law = with_guard(guard("MissingField", vec![("path", text("rec.status"))]));
    let result = validate_law(&schema(), &law, &registry());
    assert!(result.is_ok());
}

#[test]
fn rejects_in_set_without_path() {
    let law = with_guard(guard("InSet", vec![("values", JsonValue::Array(vec![text("A"), text("B")]))]));
    let result = validate_law(&schema(), &law, &registry());
    assert!(matches!(result, Err(CompileError::InvalidLaw(_))));
}

#[test]
fn rejects_in_set_without_values() {
    let law = with_guard(guard("InSet", vec![("path", text("rec.status"))]));
    let result = validate_law(&schema(), &law, &registry());
    assert!(matches!(result, Err(CompileError::InvalidLaw(_))));
}

#[test]
fn rejects_in_set_with_non_array_values() {
    let law = with_guard(guard("InSet", vec![("path", text("rec.status")), ("values", text("not-an-array"))]));
    let result = validate_law(&schema(), &law, &registry());
    assert!(matches!(result, Err(CompileError::InvalidLaw(_))));
}

#[test]
fn rejects_in_set_with_type_mismatch_values() {
    let law = with_guard(guard(
        "InSet",
        vec![("path", text("rec.status")), ("values", JsonValue::Array(vec![text("OK"), num(123)]))],
    ));
    let result = validate_law(&schema(), &law, &registry());
    assert!(matches!(result, Err(CompileError::TypeMismatch(_))));
}

#[test]
fn validates_in_set() {
    let law = with_guard(guard(
        "InSet",
        vec![("path", text("rec.status")), ("values", JsonValue::Array(vec![text("Draft"), text("Review")]))],
    ));
    let result = validate_law(&schema(), &law, &registry());
    assert!(result.is_ok());
}

#[test]
fn validates_not_in_set() {
    let law = with_guard(guard(
        "NotInSet",
        vec![("path", text("rec.status")), ("values", JsonValue::Array(vec![text("Draft"), text("Review")]))],
    ));
    let result = validate_law(&schema(), &law, &registry());
    assert!(result.is_ok());
}

#[test]
fn allows_untracked_effect_into_stable_state() {
    let mut law = valid_law();
    law.states[0].transitions[0].effects = vec![effect("SendEmail", "Notification", "Send", EffectMode::Untracked)];
    let result = validate_law(&schema(), &law, &registry());
    assert!(result.is_ok());
}

#[test]
fn rejects_tracked_effect_into_stable_state() {
    let mut law = valid_law();
    law.states[0].transitions[0].effects = vec![effect("ChargeCard", "Payments", "Capture", EffectMode::HostTracked)];
    let result = validate_law(&schema(), &law, &registry());
    assert!(matches!(result, Err(CompileError::InvalidLaw(_))));
}

#[test]
fn rejects_transient_state_with_no_outgoing_transitions() {
    let law = law(
        "Draft",
        vec![
            state("Draft", false, vec![transition("Submit", "PendingPayment", vec![guard("Default", vec![])], vec![])]),
            state("PendingPayment", true, vec![]),
        ],
    );
    let result = validate_law(&schema(), &law, &registry());
    assert!(matches!(result, Err(CompileError::InvalidLaw(_))));
}

#[test]
fn rejects_tracked_effect_targeting_transient_state_with_no_exits() {
    let law = law(
        "Draft",
        vec![
            state(
                "Draft",
                false,
                vec![transition(
                    "Submit",
                    "PendingPayment",
                    vec![guard("Default", vec![])],
                    vec![effect("ChargeCard", "Payments", "Capture", EffectMode::HostTracked)],
                )],
            ),
            state("PendingPayment", true, vec![]),
        ],
    );
    let result = validate_law(&schema(), &law, &registry());
    assert!(matches!(result, Err(CompileError::InvalidLaw(_))));
}

#[test]
fn allows_tracked_effect_targeting_transient_state_with_exit() {
    let law = law(
        "Draft",
        vec![
            state(
                "Draft",
                false,
                vec![transition(
                    "Submit",
                    "PendingPayment",
                    vec![guard("Default", vec![])],
                    vec![effect("ChargeCard", "Payments", "Capture", EffectMode::HostTracked)],
                )],
            ),
            state(
                "PendingPayment",
                true,
                vec![transition("PaymentSucceeded", "Approved", vec![guard("Default", vec![])], vec![])],
            ),
            state("Approved", false, vec![]),
        ],
    );
    let result = validate_law(&schema(), &law, &registry());
    assert!(result.is_ok());
}

#[test]
fn rejects_auto_tick_cycle() {
    let law = law(
        "A",
        vec![
            state("A", true, vec![transition("AUTO_TICK", "B", vec![guard("Default", vec![])], vec![])]),
            state("B", true, vec![transition("AUTO_TICK", "A", vec![guard("Default", vec![])], vec![])]),
        ],
    );
    let result = validate_law(&schema(), &law, &registry());
    assert!(matches!(result, Err(CompileError::InvalidLaw(_))));
}

#[test]
fn allows_acyclic_auto_tick_chain() {
    let law = law(
        "A",
        vec![
            state("A", true, vec![transition("AUTO_TICK", "B", vec![guard("Default", vec![])], vec![])]),
            state("B", true, vec![transition("AUTO_TICK", "C", vec![guard("Default", vec![])], vec![])]),
            state("C", false, vec![]),
        ],
    );
    let result = validate_law(&schema(), &law, &registry());
    assert!(result.is_ok());
}

#[test]
fn rejects_law_with_mismatched_domain() {
    let mut law = valid_law();
    law.domain = "OtherDomain".into();
    let result = validate_law(&schema(), &law, &registry());
    assert!(matches!(result, Err(CompileError::InvalidLaw(_))));
}

#[test]
fn rejects_law_with_mismatched_schema_version() {
    let mut law = valid_law();
    law.schema_version = "2.0.0".into();
    let result = validate_law(&schema(), &law, &registry());
    assert!(matches!(result, Err(CompileError::InvalidLaw(_))));
}

#[test]
fn validation_messages_follow_the_check_order() {
    let mut l = valid_law();
    l.domain = "OtherDomain".into();
    assert_eq!(error_message(&l), "invalid law: law domain 'OtherDomain' does not match schema domain 'TestDomain'");
    let mut l = valid_law();
    l.schema_version = "2.0.0".into();
    assert_eq!(error_message(&l), "invalid law: law schema_version '2.0.0' does not match schema version '1.0.0'");
    let l = law("Draft", vec![]);
    assert_eq!(error_message(&l), "invalid law: law must contain at least one state");
    let mut l = valid_law();
    l.states.push(state("Draft", false, vec![]));
    assert_eq!(error_message(&l), "duplicate state: Draft");
    let mut l = valid_law();
    l.initial_state = "Missing".into();
    assert_eq!(error_message(&l), "initial state not found: Missing");
    let mut l = valid_law();
    l.states[0].transitions[0].to = "Missing".into();
    assert_eq!(error_message(&l), "unknown transition target state: Missing");
    let l = with_guard(guard("NotRegistered", vec![]));
    assert_eq!(error_message(&l), "unknown guard type: NotRegistered");
    let l = with_guard(guard("GreaterThan", vec![("path", text("rec.status")), ("value", num(1))]));
    assert_eq!(error_message(&l), "type mismatch: GreaterThan requires a numeric field, but 'rec.status' is not numeric");
    let l = with_guard(guard("GreaterThan", vec![("path", text("rec.amount"))]));
    assert_eq!(error_message(&l), "invalid law: GreaterThan requires field 'value'");
    let l = with_guard(guard("Exists", vec![("path", text("rec.unknown"))]));
    assert_eq!(error_message(&l), "unresolved reference: unknown field path 'rec.unknown'");
    let l = with_guard(guard("FieldsEqual", vec![("left_path", text("rec.amount")), ("right_path", text("rec.status"))]));
    assert_eq!(
        error_message(&l),
        "type mismatch: FieldsEqual requires compatible field types, but 'rec.amount' and 'rec.status' differ"
    );
    let l = with_guard(guard("NotInSet", vec![("path", text("rec.status")), ("values", JsonValue::Array(vec![num(1)]))]));
    assert_eq!(error_message(&l), "type mismatch: InSet/NotInSet on 'rec.status' received value incompatible with field type");
}

#[test]
fn auto_tick_cycle_message_names_the_state_where_the_search_meets_the_cycle() {
    // The search starts at A, goes on to B and meets A again.
    let l = law(
        "A",
        vec![
            state("A", true, vec![transition("AUTO_TICK", "B", vec![guard("Default", vec![])], vec![])]),
            state("B", true, vec![transition("AUTO_TICK", "A", vec![guard("Default", vec![])], vec![])]),
        ],
    );
    assert_eq!(error_message(&l), "invalid law: AUTO_TICK cycle detected involving state 'A'");
    // With B listed first, the search starts at B and meets B again.
    let l = law(
        "A",
        vec![
            state("B", true, vec![transition("AUTO_TICK", "A", vec![guard("Default", vec![])], vec![])]),
            state("A", true, vec![transition("AUTO_TICK", "B", vec![guard("Default", vec![])], vec![])]),
        ],
    );
    assert_eq!(error_message(&l), "invalid law: AUTO_TICK cycle detected involving state 'B'");
}

#[test]
fn auto_tick_cycle_found_below_the_first_state_names_the_state_met_again() {
    // From A the search goes to B, then C, then back to B: B is named, not A.
    let l = law(
        "A",
        vec![
            state("A", true, vec![transition("AUTO_TICK", "B", vec![guard("Default", vec![])], vec![])]),
            state("B", true, vec![transition("AUTO_TICK", "C", vec![guard("Default", vec![])], vec![])]),
            state("C", true, vec![transition("AUTO_TICK", "B", vec![guard("Default", vec![])], vec![])]),
        ],
    );
    assert_eq!(error_message(&l), "invalid law: AUTO_TICK cycle detected involving state 'B'");
}

#[test]
fn warnings_list_terminal_then_unreachable_states() {
    let mut l = valid_law();
    l.states.push(state("Orphan", false, vec![]));
    let w = validate_law(&schema(), &l, &registry()).unwrap();
    assert_eq!(
        w,
        vec![
            "state 'Approved' is terminal".to_string(),
            "state 'Orphan' is terminal".to_string(),
            "state 'Orphan' is unreachable".to_string(),
        ]
    );
}

#[test]
fn tracked_effect_into_stable_state_message() {
    let mut l = valid_law();
    l.states[0].transitions[0].effects = vec![effect("ChargeCard", "Payments", "Capture", EffectMode::HostTracked)];
    assert_eq!(
        error_message(&l),
        "invalid law: tracked effects require transient target state, but transition to 'Approved' is not transient"
    );
}
