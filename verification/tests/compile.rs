use vpe::compile::VpeCompiler;
use vpe::digest::{compute_digest, to_hex};
use vpe::error::{CompileError, VpeError};
use vpe::json::{JsonMap, JsonNumber, JsonValue};
use vpe::law::{EffectSource, GuardSource, LawSource, StateSource, TransitionSource};
use vpe::registry::GuardRegistryBuilder;
use vpe::schema::{DomainSchema, FieldDefinition, SchemaFieldType, SchemaNamespaces};

fn schema() -> DomainSchema {
    DomainSchema {
        domain: "TestDomain".into(),
        version: "1.0.0".into(),
        namespaces: SchemaNamespaces {
            rec: vec![FieldDefinition {
                name: "amount".into(),
                field_type: SchemaFieldType::Number,
                description: None,
                enum_values: None,
            }],
            ext: vec![],
            calc: vec![],
        },
    }
}

fn compiler() -> VpeCompiler {
    let registry = GuardRegistryBuilder::new().with_builtins().build().expect("registry should build");
    VpeCompiler::with_registry(registry)
}

fn params(pairs: Vec<(&str, JsonValue)>) -> JsonMap {
    JsonMap { entries: pairs.into_iter().map(|(k, v)| (k.to_string(), v)).collect() }
}

fn law_with_priorities() -> LawSource {
    LawSource {
        domain: "TestDomain".into(),
        schema_version: "1.0.0".into(),
        process: "TestProcess".into(),
        version: "1.0.0".into(),
        initial_state: "Draft".into(),
        states: vec![
            StateSource {
                name: "Draft".into(),
                is_transient: false,
                transitions: vec![
                    TransitionSource {
                        action: "Submit".into(),
                        to: "Approved".into(),
                        priority: 1,
                        guards: vec![GuardSource { guard_type: "Default".into(), params: JsonMap::new() }],
                        effects: vec![],
                        comment: None,
                    },
                    TransitionSource {
                        action: "Submit".into(),
                        to: "Approved".into(),
                        priority: 10,
                        guards: vec![GuardSource {
                            guard_type: "GreaterThan".into(),
                            params: params(vec![
                                ("path", JsonValue::String("rec.amount".into())),
                                ("value", JsonValue::Number(JsonNumber::PosInt(100))),
                            ]),
                        }],
                        effects: vec![EffectSource {
                            effect_type: "Notify".into(),
                            target: Some("Email".into()),
                            action: Some("Send".into()),
                            params: Some(JsonValue::Object(params(vec![(
                                "template",
                                JsonValue::String("approved".into()),
                            )]))),
                            mode: None,
                        }],
                        comment: None,
                    },
                ],
            },
            StateSource { name: "Approved".into(), is_transient: false, transitions: vec![] },
        ],
        migration_rules: vec![],
    }
}

const DOCUMENT: &[u8] = b"{\"domain\":\"TestDomain\"}";

#[test]
fn compile_resolves_initial_state_index() {
    let result = compiler().compile(&schema(), &law_with_priorities(), DOCUMENT).unwrap();
    assert_eq!(result.process.initial_state_idx(), 0);
}

#[test]
fn compile_builds_nodes_for_states() {
    let result = compiler().compile(&schema(), &law_with_priorities(), DOCUMENT).unwrap();
    assert_eq!(result.process.nodes().len(), 2);
    assert_eq!(result.process.nodes()[0].name, "Draft");
    assert_eq!(result.process.nodes()[1].name, "Approved");
}

#[test]
fn compile_resolves_target_indices() {
    let result = compiler().compile(&schema(), &law_with_priorities(), DOCUMENT).unwrap();
    let draft = &result.process.nodes()[0];
    assert!(draft.transitions.iter().all(|t| t.target_idx == 1));
}

#[test]
fn compile_sorts_transitions_by_priority_descending() {
    let result = compiler().compile(&schema(), &law_with_priorities(), DOCUMENT).unwrap();
    let draft = &result.process.nodes()[0];
    assert_eq!(draft.transitions.len(), 2);
    assert_eq!(draft.transitions[0].priority, 10);
    assert_eq!(draft.transitions[1].priority, 1);
}

#[test]
fn compile_hydrates_guards() {
    let result = compiler().compile(&schema(), &law_with_priorities(), DOCUMENT).unwrap();
    let draft = &result.process.nodes()[0];
    assert_eq!(draft.transitions[0].guards.len(), 1);
    assert_eq!(draft.transitions[0].guards[0].name(), "GreaterThan");
    assert_eq!(draft.transitions[1].guards[0].name(), "Default");
}

#[test]
fn compile_maps_effects() {
    let result = compiler().compile(&schema(), &law_with_priorities(), DOCUMENT).unwrap();
    let draft = &result.process.nodes()[0];
    let effect = &draft.transitions[0].effects[0];
    assert_eq!(effect.effect_type, "Notify");
    assert_eq!(effect.target.as_deref(), Some("Email"));
    assert_eq!(effect.action.as_deref(), Some("Send"));
    assert_eq!(effect.params.get("template").and_then(|v| v.as_str()), Some("approved"));
}

#[test]
fn compile_keeps_order_of_equal_priorities() {
    let mut law = law_with_priorities();
    law.states[0].transitions[0].priority = 10;
    law.states[0].transitions[0].action = "First".into();
    let result = compiler().compile(&schema(), &law, DOCUMENT).unwrap();
    let draft = &result.process.nodes()[0];
    assert_eq!(draft.transitions[0].action, "First");
    assert_eq!(draft.transitions[1].action, "Submit");
    assert!(result.process.is_well_formed());
}

#[test]
fn compile_reports_digest_manifests_and_warnings() {
    let result = compiler().compile(&schema(), &law_with_priorities(), DOCUMENT).unwrap();
    assert_eq!(result.report.digest, compute_digest(DOCUMENT));
    assert_eq!(result.process.digest(), result.report.digest.as_str());
    assert_eq!(result.report.digest.len(), 64);
    assert!(result.report.manifests.contains_key("Draft"));
    assert!(result.process.manifest("Approved").is_some());
    assert_eq!(result.report.warnings, vec!["state 'Approved' is terminal".to_string()]);
    assert_eq!(result.report.process.domain, "TestDomain");
    assert_eq!(result.process.state_index("Approved"), Some(1));
    assert_eq!(result.process.state_index("Nowhere"), None);
}

#[test]
fn compile_rejects_guard_parameters_the_factory_refuses() {
    let mut law = law_with_priorities();
    law.states[0].transitions[1].guards[0].params =
        params(vec![("path", JsonValue::String("rec.amount".into())), ("value", JsonValue::String("x".into()))]);
    let err = compiler().compile(&schema(), &law, DOCUMENT);
    assert!(matches!(err, Err(VpeError::Compile(CompileError::TypeMismatch(_)))));
}

#[test]
fn compile_passes_on_validation_errors() {
    let mut law = law_with_priorities();
    law.initial_state = "Missing".into();
    let err = compiler().compile(&schema(), &law, DOCUMENT);
    assert!(matches!(err, Err(VpeError::Compile(CompileError::InitialStateNotFound(_)))));
}

#[test]
fn digest_is_sha256_in_lower_case_hex() {
    assert_eq!(compute_digest(b""), "e3b0c44298fc1c149afbf4c8996fb92427ae41e4649b934ca495991b7852b855");
    assert_eq!(compute_digest(b"abc"), "ba7816bf8f01cfea414140de5dae2223b00361a396177a9cb410ff61f20015ad");
    assert_eq!(to_hex(&[0x00, 0x0f, 0xa0, 0xff]), "000fa0ff");
}
