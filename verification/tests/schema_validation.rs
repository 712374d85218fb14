use vpe::schema::{validate_schema, DomainSchema, FieldDefinition, SchemaFieldType, SchemaNamespaces};

fn field(name: &str, field_type: SchemaFieldType, enum_values: Option<Vec<String>>) -> FieldDefinition {
    FieldDefinition { name: name.into(), field_type, description: None, enum_values }
}

fn schema_with(rec: Vec<FieldDefinition>, ext: Vec<FieldDefinition>) -> DomainSchema {
    DomainSchema {
        domain: "TestDomain".into(),
        version: "1.0.0".into(),
        namespaces: SchemaNamespaces { rec, ext, calc: vec![] },
    }
}

fn message_of(schema: &DomainSchema) -> String {
    match validate_schema(schema) {
        Ok(()) => String::new(),
        Err(e) => e.message(),
    }
}

#[test]
fn validates_namespaced_schema() {
    let schema = schema_with(vec![field("amount", SchemaFieldType::Number, None)], vec![]);
    assert!(validate_schema(&schema).is_ok());
}

#[test]
fn rejects_invalid_field_identifier() {
    let schema = schema_with(vec![field("order total", SchemaFieldType::Number, None)], vec![]);
    assert!(validate_schema(&schema).is_err());
}

#[test]
fn rejects_duplicate_field_in_same_namespace() {
    let schema = schema_with(
        vec![
            field("amount", SchemaFieldType::Number, None),
            field("amount", SchemaFieldType::Number, None),
        ],
        vec![],
    );
    assert!(validate_schema(&schema).is_err());
}

#[test]
fn allows_same_field_name_in_different_namespaces() {
    let schema = schema_with(
        vec![field("status", SchemaFieldType::String, None)],
        vec![field("status", SchemaFieldType::String, None)],
    );
    assert!(validate_schema(&schema).is_ok());
}

#[test]
fn rejects_enum_without_values() {
    let schema = schema_with(vec![field("status", SchemaFieldType::Enum, None)], vec![]);
    assert!(validate_schema(&schema).is_err());
}

#[test]
fn rejects_duplicate_enum_values() {
    let schema = schema_with(
        vec![field(
            "status",
            SchemaFieldType::Enum,
            Some(vec!["Pending".into(), "Pending".into()]),
        )],
        vec![],
    );
    assert!(validate_schema(&schema).is_err());
}

#[test]
fn schema_error_messages_name_the_broken_rule() {
    let s = schema_with(vec![field("order total", SchemaFieldType::Number, None)], vec![]);
    assert_eq!(message_of(&s), "invalid schema: identifier 'order total' contains invalid characters");
    let s = schema_with(vec![field("1st", SchemaFieldType::Number, None)], vec![]);
    assert_eq!(message_of(&s), "invalid schema: identifier '1st' may not start with a digit");
    let s = schema_with(vec![field("", SchemaFieldType::Number, None)], vec![]);
    assert_eq!(message_of(&s), "invalid schema: identifier may not be empty");
    let s = schema_with(
        vec![field("amount", SchemaFieldType::Number, None), field("amount", SchemaFieldType::Number, None)],
        vec![],
    );
    assert_eq!(message_of(&s), "invalid schema: duplicate field 'amount' in namespace 'rec'");
    let s = schema_with(vec![field("status", SchemaFieldType::Enum, None)], vec![]);
    assert_eq!(message_of(&s), "invalid schema: enum field 'status' must define enum_values");
    let s = schema_with(vec![field("status", SchemaFieldType::Enum, Some(vec![]))], vec![]);
    assert_eq!(message_of(&s), "invalid schema: enum field 'status' must define at least one enum value");
    let s = schema_with(
        vec![field("status", SchemaFieldType::Enum, Some(vec!["Pending".into(), "Pending".into()]))],
        vec![],
    );
    assert_eq!(message_of(&s), "invalid schema: enum field 'status' contains duplicate value 'Pending'");
    let s = schema_with(vec![field("amount", SchemaFieldType::Number, Some(vec!["A".into()]))], vec![]);
    assert_eq!(message_of(&s), "invalid schema: field 'amount' defines enum_values but is not of type Enum");
    let s = schema_with(vec![], vec![field("bad-name", SchemaFieldType::String, None)]);
    assert_eq!(message_of(&s), "invalid schema: identifier 'bad-name' contains invalid characters");
}

#[test]
fn enum_with_distinct_values_is_valid() {
    let s = schema_with(
        vec![field("status", SchemaFieldType::Enum, Some(vec!["Pending".into(), "Done".into()]))],
        vec![],
    );
    assert!(validate_schema(&s).is_ok());
}

#[test]
fn resolves_builtin_system_schema_fields() {
    let schema = schema_with(
        vec![
            field("amount", SchemaFieldType::Number, None),
            field("status", SchemaFieldType::String, None),
        ],
        vec![field("status", SchemaFieldType::String, None)],
    );
    assert!(matches!(schema.resolve_path_type("sys.now"), Some(SchemaFieldType::DateTime)));
    assert!(matches!(schema.resolve_path_type("sys.trace_id"), Some(SchemaFieldType::String)));
}

#[test]
fn resolves_paths_by_namespace() {
    let schema = schema_with(
        vec![field("amount", SchemaFieldType::Number, None)],
        vec![field("status", SchemaFieldType::Enum, Some(vec!["A".into()]))],
    );
    assert!(matches!(schema.resolve_path_type("rec.amount"), Some(SchemaFieldType::Number)));
    assert!(matches!(schema.resolve_path_type("ext.status"), Some(SchemaFieldType::Enum)));
    assert!(schema.resolve_path_type("rec.status").is_none());
    assert!(schema.resolve_path_type("amount").is_none());
    assert!(schema.resolve_path_type("sys.other").is_none());
    assert!(schema.resolve_path_type("calc.amount").is_none());
    let f = schema.resolve_field("ext.status").unwrap();
    assert!(matches!(f.field_type(), SchemaFieldType::Enum));
    assert_eq!(f.enum_values().unwrap().len(), 1);
    assert!(schema.resolve_field("sys.now").unwrap().enum_values().is_none());
}
