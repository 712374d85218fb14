use vpe::json::{JsonMap, JsonNumber, JsonValue};
use vpe::kernel::{
    is_valid_identifier, validate_identifier_structure, DataType, DateAfterGuard, DomainSchema, FieldDefinition, HistoryRequirement, NamespaceCategory,
    OccurredWithinGuard, SchemaDefinition, TimeElapsedGuard, VpeType,
};
use vpe::types::{VpeEvent, VpeEventKind};

fn event(action: &str, timestamp: i64) -> VpeEvent {
    VpeEvent {
        event_id: "e".into(),
        parent_event_id: None,
        trace_id: "t".into(),
        timestamp,
        event_kind: VpeEventKind::StateTransition,
        action: action.into(),
        state_before: "A".into(),
        state_after: "B".into(),
        metadata: JsonValue::Null,
    }
}

#[test]
fn resolves_record_types_with_or_without_prefix() {
    let schema = SchemaDefinition {
        domain: "Shop".into(),
        version: "1".into(),
        fields: vec![(
            "amount".into(),
            FieldDefinition { name: "amount".into(), data_type: VpeType::Number, description: None },
        )],
    };
    assert_eq!(schema.resolve_rec_type("rec.amount"), Some(&VpeType::Number));
    assert_eq!(schema.resolve_rec_type("amount"), Some(&VpeType::Number));
    assert_eq!(schema.resolve_rec_type("rec.other"), None);
    assert_eq!(schema.resolve_rec_type("ext.amount"), None);
}

#[test]
fn namespace_prefixes() {
    assert_eq!(NamespaceCategory::from_prefix("sys"), Ok(NamespaceCategory::System));
    assert_eq!(NamespaceCategory::from_prefix("rec"), Ok(NamespaceCategory::Record));
    assert_eq!(NamespaceCategory::from_prefix("ext"), Ok(NamespaceCategory::External));
    assert_eq!(NamespaceCategory::from_prefix("calc"), Ok(NamespaceCategory::Calc));
    assert_eq!(NamespaceCategory::from_prefix("usr"), Err("Unknown namespace prefix: 'usr'".to_string()));
}

#[test]
fn catalogue_refuses_sys_and_replaces_definitions() {
    let mut schema = DomainSchema::new("Shop");
    assert_eq!(
        schema.add_definition(NamespaceCategory::System, "now", DataType::Number),
        Err("Cannot add custom fields to the 'sys' namespace.".to_string())
    );
    assert!(schema.registry.is_empty());
    assert_eq!(schema.add_definition(NamespaceCategory::Record, "amount", DataType::String), Ok(()));
    assert_eq!(schema.add_definition(NamespaceCategory::External, "amount", DataType::Bool), Ok(()));
    assert_eq!(schema.add_definition(NamespaceCategory::Record, "amount", DataType::Number), Ok(()));
    assert_eq!(schema.registry.len(), 2);
    assert_eq!(schema.registry[0], (NamespaceCategory::Record, "amount".to_string(), DataType::Number));
    assert_eq!(schema.name, "Shop");
}

#[test]
fn data_types_name_and_match_values() {
    assert_eq!(DataType::String.as_str(), "String");
    assert_eq!(DataType::Number.as_str(), "Number");
    assert_eq!(DataType::Bool.as_str(), "Boolean");
    assert!(DataType::Bool.matches(&JsonValue::Bool(true)));
    assert!(!DataType::Number.matches(&JsonValue::String("1".into())));
    assert!(DataType::Number.matches(&JsonValue::Number(JsonNumber::NegInt(-1))));
}

#[test]
fn standalone_guards() {
    let mut ctx = JsonMap::new();
    ctx.insert("rec.trial_end".into(), JsonValue::Number(JsonNumber::PosInt(100)));
    ctx.insert("sys.now".into(), JsonValue::Number(JsonNumber::PosInt(500)));
    let date = DateAfterGuard { path: "rec.trial_end".into(), compare_to: "sys.now".into() };
    assert!(date.check(&ctx, &[]));
    assert!(date.get_requirements().is_empty());
    let hist = vec![event("Login", 100), event("Pay", 400)];
    let within = OccurredWithinGuard { target_action: "Login".into(), window_seconds: 300 };
    assert!(within.check(&ctx, &hist));
    assert!(!OccurredWithinGuard { target_action: "Login".into(), window_seconds: 299 }.check(&ctx, &hist));
    assert_eq!(within.get_requirements(), vec![HistoryRequirement::LastEventOfAction("Login".into())]);
    assert!(TimeElapsedGuard { seconds: 100 }.check(&ctx, &hist));
    assert!(!TimeElapsedGuard { seconds: 101 }.check(&ctx, &hist));
    assert_eq!(TimeElapsedGuard { seconds: 1 }.get_requirements(), vec![HistoryRequirement::LastTransition]);
}

#[test]
fn identifiers_and_dotted_paths() {
    assert!(is_valid_identifier("order_id"));
    assert!(is_valid_identifier("größe"));
    assert!(!is_valid_identifier(""));
    assert!(!is_valid_identifier("1st"));
    assert!(!is_valid_identifier("a-b"));
    assert_eq!(validate_identifier_structure("rec.order.id"), Ok(()));
    assert_eq!(
        validate_identifier_structure("amount"),
        Err("Identifier 'amount' must use dot-notation (e.g., rec.id)".to_string())
    );
    assert_eq!(
        validate_identifier_structure("rec.bad-name"),
        Err("Invalid Identifier segment 'bad-name' in path 'rec.bad-name'. Only alphanumeric and underscores allowed."
            .to_string())
    );
    assert_eq!(
        validate_identifier_structure("rec..id"),
        Err("Invalid Identifier segment '' in path 'rec..id'. Only alphanumeric and underscores allowed.".to_string())
    );
}

#[test]
fn schema_definition_keeps_one_field_per_name() {
    let mut schema = SchemaDefinition::new("Shop", "1");
    assert!(schema.fields.is_empty());
    schema.insert_field(
        "amount".into(),
        FieldDefinition { name: "amount".into(), data_type: VpeType::String, description: None },
    );
    schema.insert_field(
        "status".into(),
        FieldDefinition { name: "status".into(), data_type: VpeType::Boolean, description: None },
    );
    schema.insert_field(
        "amount".into(),
        FieldDefinition { name: "amount".into(), data_type: VpeType::Number, description: None },
    );
    assert_eq!(schema.fields.len(), 2);
    assert_eq!(schema.fields[0].0, "amount");
    assert_eq!(schema.resolve_rec_type("rec.amount"), Some(&VpeType::Number));
    assert_eq!(schema.resolve_rec_type("status"), Some(&VpeType::Boolean));
    assert_eq!(schema.domain, "Shop");
    assert_eq!(schema.version, "1");
}
