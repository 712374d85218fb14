//! Checking a law against its domain schema and a guard registry.
use vstd::prelude::*;

use crate::error::{concat2, concat3, concat5, CompileError, CompileErrorV, SchemaError};
use crate::json::{as_str_v, json_seq_view, lemma_json_seq_view, lookup, str_eq, JsonV, JsonValue};
use crate::error::{schema_message, SchemaErrorV};
use crate::graph::{
    auto_cycle_message, auto_tick_cycle_state, find_state, find_unreachable_states, has_auto_cycle, has_state,
    holds_name, lemma_state_named, names_of, on_auto_cycle, state_named, unreachable_warnings,
    validate_auto_tick_cycles,
};
use crate::law::{has_tracked_effect, GuardSource, LawSource, StateSource, TransitionSource};
use crate::registry::{
    array_param, get_str_param, get_u64_param, str_param, u64_param, GuardFactory,
    GuardRegistry,
};
use crate::schema::{schema_error, validate_schema};
use crate::text::{first_some, lemma_first_some_none_prefix, lemma_first_some_stable};
use crate::schema::{
    resolve_path, resolve_path_type_spec, resolved_enum_values, resolved_of, resolved_type,
    DomainSchema, FieldDefinitionRef, ResolvedField, SchemaFieldType,
};

verus! {

/// The error a check gave, if any.
pub open spec fn outcome(r: Result<(), CompileError>) -> Option<CompileErrorV> {
    match r {
        Ok(()) => None,
        Err(e) => Some(e@),
    }
}

/// Whether `value` is a value of the resolved field: of its type, and for an
/// enum one of its values.
pub open spec fn value_matches(field: ResolvedField, value: JsonV) -> bool {
    match resolved_type(field) {
        SchemaFieldType::String => value is String,
        SchemaFieldType::Number => value is Number,
        SchemaFieldType::Boolean => value is Bool,
        SchemaFieldType::DateTime => value is Number,
        SchemaFieldType::Duration => value is Number,
        SchemaFieldType::Enum => match (as_str_v(value), resolved_enum_values(field)) {
            (Some(actual), Some(values)) => values.contains(actual),
            _ => false,
        },
    }
}

/// Every value is a value of the field.
pub open spec fn all_match(field: ResolvedField, values: Seq<JsonV>) -> bool {
    forall|i: int| 0 <= i < values.len() ==> value_matches(field, #[trigger] values[i])
}

pub open spec fn invalid(m: Seq<char>) -> Option<CompileErrorV> {
    Some(CompileErrorV::InvalidLaw(m))
}

pub open spec fn unknown_path(path: Seq<char>) -> Option<CompileErrorV> {
    Some(CompileErrorV::UnresolvedReference("unknown field path '"@ + path + "'"@))
}

pub open spec fn mismatch(m: Seq<char>) -> Option<CompileErrorV> {
    Some(CompileErrorV::TypeMismatch(m))
}

/// A path guard (`Exists`, `MissingField`) names a known field.
pub open spec fn path_guard_error(
    schema: DomainSchema,
    kind: Seq<char>,
    p: Seq<(Seq<char>, JsonV)>,
) -> Option<CompileErrorV> {
    match str_param(p, "path"@) {
        None => invalid(kind + " requires string field 'path'"@),
        Some(path) => match resolve_path_type_spec(schema, path) {
            None => unknown_path(path),
            Some(_) => None,
        },
    }
}

/// An `InSet` / `NotInSet` guard names a known field and lists values of it.
pub open spec fn in_set_error(schema: DomainSchema, p: Seq<(Seq<char>, JsonV)>) -> Option<
    CompileErrorV,
> {
    match str_param(p, "path"@) {
        None => invalid("InSet/NotInSet requires string field 'path'"@),
        Some(path) => match array_param(p, "values"@) {
            None => invalid("InSet/NotInSet requires array field 'values'"@),
            Some(values) => match resolve_path(schema, path) {
                None => unknown_path(path),
                Some(field) => if !all_match(field, values) {
                    mismatch(
                        "InSet/NotInSet on '"@ + path
                            + "' received value incompatible with field type"@,
                    )
                } else {
                    None
                },
            },
        },
    }
}

/// A `FieldsEqual` guard compares two known fields of one type.
pub open spec fn fields_equal_error(schema: DomainSchema, p: Seq<(Seq<char>, JsonV)>) -> Option<
    CompileErrorV,
> {
    match str_param(p, "left_path"@) {
        None => invalid("FieldsEqual requires string field 'left_path'"@),
        Some(left) => match str_param(p, "right_path"@) {
            None => invalid("FieldsEqual requires string field 'right_path'"@),
            Some(right) => match resolve_path_type_spec(schema, left) {
                None => unknown_path(left),
                Some(lt) => match resolve_path_type_spec(schema, right) {
                    None => unknown_path(right),
                    Some(rt) => if lt == rt {
                        None
                    } else {
                        mismatch(
                            "FieldsEqual requires compatible field types, but '"@ + left
                                + "' and '"@ + right + "' differ"@,
                        )
                    },
                },
            },
        },
    }
}

/// A `GreaterThan` guard compares a numeric field with a number.
pub open spec fn greater_than_error(schema: DomainSchema, p: Seq<(Seq<char>, JsonV)>) -> Option<
    CompileErrorV,
> {
    match str_param(p, "path"@) {
        None => invalid("GreaterThan requires string field 'path'"@),
        Some(path) => match lookup(p, "value"@) {
            None => invalid("GreaterThan requires field 'value'"@),
            Some(value) => match resolve_path_type_spec(schema, path) {
                None => unknown_path(path),
                Some(SchemaFieldType::Number) => if value is Number {
                    None
                } else {
                    mismatch("GreaterThan on '"@ + path + "' requires numeric value"@)
                },
                Some(_) => mismatch(
                    "GreaterThan requires a numeric field, but '"@ + path + "' is not numeric"@,
                ),
            },
        },
    }
}

/// An `Equals` guard compares a known field with a value of it.
pub open spec fn equals_error(schema: DomainSchema, p: Seq<(Seq<char>, JsonV)>) -> Option<
    CompileErrorV,
> {
    match str_param(p, "path"@) {
        None => invalid("Equals requires string field 'path'"@),
        Some(path) => match lookup(p, "value"@) {
            None => invalid("Equals requires field 'value'"@),
            Some(value) => match resolve_path(schema, path) {
                None => unknown_path(path),
                Some(field) => if value_matches(field, value) {
                    None
                } else {
                    mismatch("Equals on '"@ + path + "' received value incompatible with field type"@)
                },
            },
        },
    }
}

pub open spec fn occurred_within_error(p: Seq<(Seq<char>, JsonV)>) -> Option<CompileErrorV> {
    if str_param(p, "target_action"@) is None {
        invalid("OccurredWithin requires string field 'target_action'"@)
    } else if u64_param(p, "window_seconds"@) is None {
        invalid("OccurredWithin requires numeric field 'window_seconds'"@)
    } else {
        None
    }
}

pub open spec fn time_elapsed_error(p: Seq<(Seq<char>, JsonV)>) -> Option<CompileErrorV> {
    if u64_param(p, "seconds"@) is None {
        invalid("TimeElapsed requires numeric field 'seconds'"@)
    } else {
        None
    }
}

/// What is wrong with a guard's parameters, by its type; a type without
/// rules has none.
pub open spec fn guard_source_error(schema: DomainSchema, g: GuardSource) -> Option<CompileErrorV> {
    let t = g.guard_type@;
    let p = g.params@;
    if t == "Default"@ {
        None
    } else if t == "GreaterThan"@ {
        greater_than_error(schema, p)
    } else if t == "Equals"@ {
        equals_error(schema, p)
    } else if t == "OccurredWithin"@ {
        occurred_within_error(p)
    } else if t == "TimeElapsed"@ {
        time_elapsed_error(p)
    } else if t == "FieldsEqual"@ {
        fields_equal_error(schema, p)
    } else if t == "Exists"@ {
        path_guard_error(schema, "Exists"@, p)
    } else if t == "MissingField"@ {
        path_guard_error(schema, "MissingField"@, p)
    } else if t == "InSet"@ || t == "NotInSet"@ {
        in_set_error(schema, p)
    } else {
        None
    }
}

fn invalid_law(m: &str) -> (r: CompileError)
    ensures
        r@ == CompileErrorV::InvalidLaw(m@),
{
    CompileError::InvalidLaw(String::from_str(m))
}

fn unknown_field_path(path: &str) -> (r: CompileError)
    ensures
        Some(r@) == unknown_path(path@),
{
    CompileError::UnresolvedReference(concat3("unknown field path '", path, "'"))
}

/// Whether two field types can be compared: they are the same type.
pub fn field_types_compatible(left: &SchemaFieldType, right: &SchemaFieldType) -> (r: bool)
    ensures
        r == (*left == *right),
{
    match (left, right) {
        (SchemaFieldType::String, SchemaFieldType::String) => true,
        (SchemaFieldType::Number, SchemaFieldType::Number) => true,
        (SchemaFieldType::Boolean, SchemaFieldType::Boolean) => true,
        (SchemaFieldType::DateTime, SchemaFieldType::DateTime) => true,
        (SchemaFieldType::Duration, SchemaFieldType::Duration) => true,
        (SchemaFieldType::Enum, SchemaFieldType::Enum) => true,
        _ => false,
    }
}

/// Whether `value` is a value of `field`.
pub fn value_matches_field(field: FieldDefinitionRef<'_>, value: &JsonValue) -> (r: bool)
    ensures
        r == value_matches(resolved_of(field), value@),
{
    match field.field_type() {
        SchemaFieldType::String => value.is_string(),
        SchemaFieldType::Number => value.is_number(),
        SchemaFieldType::Boolean => value.is_boolean(),
        SchemaFieldType::DateTime => value.is_number(),
        SchemaFieldType::Duration => value.is_number(),
        SchemaFieldType::Enum => {
            let actual = match value.as_str() {
                Some(a) => a,
                None => {
                    return false;
                },
            };
            match field.enum_values() {
                Some(values) => {
                    let ghost vs = values@.map_values(|v: String| v@);
                    let mut i: usize = 0;
                    while i < values.len()
                        invariant
                            i <= values@.len(),
                            vs == values@.map_values(|v: String| v@),
                            resolved_enum_values(resolved_of(field)) == Some(vs),
                            as_str_v(value@) == Some(actual@),
                            resolved_type(resolved_of(field)) == SchemaFieldType::Enum,
                            forall|j: int| 0 <= j < i ==> vs[j] != actual@,
                        decreases values@.len() - i,
                    {
                        if str_eq(values[i].as_str(), actual) {
                            assert(vs[i as int] == actual@);
                            assert(vs.contains(actual@));
                            return true;
                        }
                        i = i + 1;
                    }
                    false
                },
                None => false,
            }
        },
    }
}

fn validate_path_guard(schema: &DomainSchema, guard: &GuardSource, kind: &str) -> (r: Result<
    (),
    CompileError,
>)
    ensures
        outcome(r) == path_guard_error(*schema, kind@, guard.params@),
{
    let path = match get_str_param(&guard.params, "path") {
        Some(p) => p,
        None => {
            return Err(CompileError::InvalidLaw(concat2(kind, " requires string field 'path'")));
        },
    };
    match schema.resolve_path_type(path.as_str()) {
        Some(_) => Ok(()),
        None => Err(unknown_field_path(path.as_str())),
    }
}

fn validate_in_set_guard(schema: &DomainSchema, guard: &GuardSource) -> (r: Result<(), CompileError>)
    ensures
        outcome(r) == in_set_error(*schema, guard.params@),
{
    let path = match get_str_param(&guard.params, "path") {
        Some(p) => p,
        None => {
            return Err(invalid_law("InSet/NotInSet requires string field 'path'"));
        },
    };
    let values = match guard.params.get("values") {
        Some(v) => match v.as_array() {
            Some(a) => a,
            None => {
                return Err(invalid_law("InSet/NotInSet requires array field 'values'"));
            },
        },
        None => {
            return Err(invalid_law("InSet/NotInSet requires array field 'values'"));
        },
    };
    let field = match schema.resolve_field(path.as_str()) {
        Some(f) => f,
        None => {
            return Err(unknown_field_path(path.as_str()));
        },
    };
    let ghost vs = json_seq_view(values@);
    proof {
        lemma_json_seq_view(values@);
    }
    let mut i: usize = 0;
    while i < values.len()
        invariant
            i <= values@.len(),
            vs == json_seq_view(values@),
            vs.len() == values@.len(),
            resolve_path(*schema, path@) == Some(resolved_of(field)),
            array_param(guard.params@, "values"@) == Some(vs),
            str_param(guard.params@, "path"@) == Some(path@),
            forall|j: int| 0 <= j < values@.len() ==> vs[j] == (#[trigger] values@[j])@,
            forall|j: int| 0 <= j < i ==> value_matches(resolved_of(field), #[trigger] vs[j]),
        decreases values@.len() - i,
    {
        if !value_matches_field(field, &values[i]) {
            assert(!value_matches(resolved_of(field), vs[i as int]));
            assert(!all_match(resolved_of(field), vs));
            return Err(
                CompileError::TypeMismatch(
                    concat3(
                        "InSet/NotInSet on '",
                        path.as_str(),
                        "' received value incompatible with field type",
                    ),
                ),
            );
        }
        i = i + 1;
    }
    Ok(())
}

fn validate_fields_equal_guard(schema: &DomainSchema, guard: &GuardSource) -> (r: Result<
    (),
    CompileError,
>)
    ensures
        outcome(r) == fields_equal_error(*schema, guard.params@),
{
    let left = match get_str_param(&guard.params, "left_path") {
        Some(p) => p,
        None => {
            return Err(invalid_law("FieldsEqual requires string field 'left_path'"));
        },
    };
    let right = match get_str_param(&guard.params, "right_path") {
        Some(p) => p,
        None => {
            return Err(invalid_law("FieldsEqual requires string field 'right_path'"));
        },
    };
    let left_type = match schema.resolve_path_type(left.as_str()) {
        Some(t) => t,
        None => {
            return Err(unknown_field_path(left.as_str()));
        },
    };
    let right_type = match schema.resolve_path_type(right.as_str()) {
        Some(t) => t,
        None => {
            return Err(unknown_field_path(right.as_str()));
        },
    };
    if field_types_compatible(&left_type, &right_type) {
        Ok(())
    } else {
        Err(
            CompileError::TypeMismatch(
                concat5(
                    "FieldsEqual requires compatible field types, but '",
                    left.as_str(),
                    "' and '",
                    right.as_str(),
                    "' differ",
                ),
            ),
        )
    }
}

fn validate_greater_than_guard(schema: &DomainSchema, guard: &GuardSource) -> (r: Result<
    (),
    CompileError,
>)
    ensures
        outcome(r) == greater_than_error(*schema, guard.params@),
{
    let path = match get_str_param(&guard.params, "path") {
        Some(p) => p,
        None => {
            return Err(invalid_law("GreaterThan requires string field 'path'"));
        },
    };
    let value = match guard.params.get("value") {
        Some(v) => v,
        None => {
            return Err(invalid_law("GreaterThan requires field 'value'"));
        },
    };
    match schema.resolve_path_type(path.as_str()) {
        None => Err(unknown_field_path(path.as_str())),
        Some(SchemaFieldType::Number) => {
            if value.is_number() {
                Ok(())
            } else {
                Err(
                    CompileError::TypeMismatch(
                        concat3("GreaterThan on '", path.as_str(), "' requires numeric value"),
                    ),
                )
            }
        },
        Some(_) => Err(
            CompileError::TypeMismatch(
                concat3(
                    "GreaterThan requires a numeric field, but '",
                    path.as_str(),
                    "' is not numeric",
                ),
            ),
        ),
    }
}

fn validate_equals_guard(schema: &DomainSchema, guard: &GuardSource) -> (r: Result<(), CompileError>)
    ensures
        outcome(r) == equals_error(*schema, guard.params@),
{
    let path = match get_str_param(&guard.params, "path") {
        Some(p) => p,
        None => {
            return Err(invalid_law("Equals requires string field 'path'"));
        },
    };
    let value = match guard.params.get("value") {
        Some(v) => v,
        None => {
            return Err(invalid_law("Equals requires field 'value'"));
        },
    };
    let field = match schema.resolve_field(path.as_str()) {
        Some(f) => f,
        None => {
            return Err(unknown_field_path(path.as_str()));
        },
    };
    if value_matches_field(field, value) {
        Ok(())
    } else {
        Err(
            CompileError::TypeMismatch(
                concat3(
                    "Equals on '",
                    path.as_str(),
                    "' received value incompatible with field type",
                ),
            ),
        )
    }
}

fn validate_occurred_within_guard(guard: &GuardSource) -> (r: Result<(), CompileError>)
    ensures
        outcome(r) == occurred_within_error(guard.params@),
{
    let target_action = get_str_param(&guard.params, "target_action");
    let window_seconds = get_u64_param(&guard.params, "window_seconds");
    if target_action.is_none() {
        return Err(invalid_law("OccurredWithin requires string field 'target_action'"));
    }
    if window_seconds.is_none() {
        return Err(invalid_law("OccurredWithin requires numeric field 'window_seconds'"));
    }
    Ok(())
}

fn validate_time_elapsed_guard(guard: &GuardSource) -> (r: Result<(), CompileError>)
    ensures
        outcome(r) == time_elapsed_error(guard.params@),
{
    let seconds = get_u64_param(&guard.params, "seconds");
    if seconds.is_none() {
        return Err(invalid_law("TimeElapsed requires numeric field 'seconds'"));
    }
    Ok(())
}

/// Checks a guard's parameters against the schema, by the guard's type.
pub fn validate_guard_source(schema: &DomainSchema, guard: &GuardSource) -> (r: Result<
    (),
    CompileError,
>)
    ensures
        outcome(r) == guard_source_error(*schema, *guard),
{
    let t = guard.guard_type.as_str();
    if str_eq(t, "Default") {
        Ok(())
    } else if str_eq(t, "GreaterThan") {
        validate_greater_than_guard(schema, guard)
    } else if str_eq(t, "Equals") {
        validate_equals_guard(schema, guard)
    } else if str_eq(t, "OccurredWithin") {
        validate_occurred_within_guard(guard)
    } else if str_eq(t, "TimeElapsed") {
        validate_time_elapsed_guard(guard)
    } else if str_eq(t, "FieldsEqual") {
        validate_fields_equal_guard(schema, guard)
    } else if str_eq(t, "Exists") {
        validate_path_guard(schema, guard, "Exists")
    } else if str_eq(t, "MissingField") {
        validate_path_guard(schema, guard, "MissingField")
    } else if str_eq(t, "InSet") {
        validate_in_set_guard(schema, guard)
    } else if str_eq(t, "NotInSet") {
        validate_in_set_guard(schema, guard)
    } else {
        Ok(())
    }
}

/// The error a schema error becomes when a law is checked against it.
pub fn map_schema_error(err: SchemaError) -> (r: CompileError)
    ensures
        r@ == CompileErrorV::InvalidLaw(crate::error::schema_message(err@)),
{
    CompileError::InvalidLaw(err.message())
}

/// A guard's type is registered and its parameters are valid.
pub open spec fn registry_guard_error(
    schema: DomainSchema,
    reg: Seq<(Seq<char>, GuardFactory)>,
    g: GuardSource,
) -> Option<CompileErrorV> {
    if lookup(reg, g.guard_type@) is None {
        Some(CompileErrorV::UnknownGuardType(g.guard_type@))
    } else {
        guard_source_error(schema, g)
    }
}

pub open spec fn guard_errors(
    schema: DomainSchema,
    reg: Seq<(Seq<char>, GuardFactory)>,
    gs: Seq<GuardSource>,
) -> spec_fn(int) -> Option<CompileErrorV> {
    |k: int| registry_guard_error(schema, reg, gs[k])
}

/// A transition with a tracked effect must lead to a transient state.
pub open spec fn effects_error(states: Seq<StateSource>, t: TransitionSource) -> Option<
    CompileErrorV,
> {
    if has_tracked_effect(t) {
        match state_named(states, t.to@) {
            None => Some(CompileErrorV::UnknownTargetState(t.to@)),
            Some(target) => if target.is_transient {
                None
            } else {
                invalid(
                    "tracked effects require transient target state, but transition to '"@
                        + t.to@ + "' is not transient"@,
                )
            },
        }
    } else {
        None
    }
}

/// The first thing wrong with a transition: its target, its effects, then
/// its guards in order.
pub open spec fn transition_error(
    schema: DomainSchema,
    reg: Seq<(Seq<char>, GuardFactory)>,
    states: Seq<StateSource>,
    t: TransitionSource,
) -> Option<CompileErrorV> {
    if !has_state(states, t.to@) {
        Some(CompileErrorV::UnknownTargetState(t.to@))
    } else {
        match effects_error(states, t) {
            Some(e) => Some(e),
            None => first_some(guard_errors(schema, reg, t.guards@), t.guards@.len()),
        }
    }
}

pub open spec fn transition_errors(
    schema: DomainSchema,
    reg: Seq<(Seq<char>, GuardFactory)>,
    states: Seq<StateSource>,
    s: StateSource,
) -> spec_fn(int) -> Option<CompileErrorV> {
    |k: int| transition_error(schema, reg, states, s.transitions@[k])
}

/// The first thing wrong with the transitions of a state.
pub open spec fn state_error(
    schema: DomainSchema,
    reg: Seq<(Seq<char>, GuardFactory)>,
    states: Seq<StateSource>,
    s: StateSource,
) -> Option<CompileErrorV> {
    first_some(transition_errors(schema, reg, states, s), s.transitions@.len())
}

pub open spec fn empty_transient_error(s: StateSource) -> Option<CompileErrorV> {
    if s.is_transient && s.transitions@.len() == 0 {
        invalid(
            "transient state '"@ + s.name@ + "' must define at least one outgoing transition"@,
        )
    } else {
        None
    }
}

/// A transition with a tracked effect must lead to a state with exits.
pub open spec fn tracked_exit_error(states: Seq<StateSource>, t: TransitionSource) -> Option<
    CompileErrorV,
> {
    if has_tracked_effect(t) {
        match state_named(states, t.to@) {
            None => Some(CompileErrorV::UnknownTargetState(t.to@)),
            Some(target) => if target.transitions@.len() == 0 {
                invalid(
                    "tracked effect transition targets transient state '"@ + target.name@
                        + "' but it has no exits"@,
                )
            } else {
                None
            },
        }
    } else {
        None
    }
}

pub open spec fn tracked_exit_errors(states: Seq<StateSource>, s: StateSource) -> spec_fn(int) -> Option<
    CompileErrorV,
> {
    |k: int| tracked_exit_error(states, s.transitions@[k])
}

pub open spec fn state_tracked_exit_error(states: Seq<StateSource>, s: StateSource) -> Option<
    CompileErrorV,
> {
    first_some(tracked_exit_errors(states, s), s.transitions@.len())
}

pub open spec fn empty_transient_errors(states: Seq<StateSource>) -> spec_fn(int) -> Option<
    CompileErrorV,
> {
    |i: int| empty_transient_error(states[i])
}

pub open spec fn tracked_exit_state_errors(states: Seq<StateSource>) -> spec_fn(int) -> Option<
    CompileErrorV,
> {
    |i: int| state_tracked_exit_error(states, states[i])
}

/// The first broken rule of transient states: every transient state has an
/// exit, then every tracked effect leads to a state with exits.
pub open spec fn transient_error(states: Seq<StateSource>) -> Option<CompileErrorV> {
    match first_some(empty_transient_errors(states), states.len()) {
        Some(e) => Some(e),
        None => first_some(tracked_exit_state_errors(states), states.len()),
    }
}

pub open spec fn duplicate_names(states: Seq<StateSource>) -> spec_fn(int) -> Option<Seq<char>> {
    |i: int|
        if exists|j: int| 0 <= j < i && #[trigger] states[j].name@ == states[i].name@ {
            Some(states[i].name@)
        } else {
            None
        }
}

/// The first state whose name an earlier state already has.
pub open spec fn duplicate_state(states: Seq<StateSource>) -> Option<Seq<char>> {
    first_some(duplicate_names(states), states.len())
}

/// The first thing wrong with a law as a whole: its schema, its domain and
/// schema version, its states' names and its initial state.
pub open spec fn law_header_error(schema: DomainSchema, law: LawSource) -> Option<CompileErrorV> {
    match schema_error(schema) {
        Some(m) => invalid(schema_message(SchemaErrorV::Invalid(m))),
        None => if law.domain@ != schema.domain@ {
            invalid(
                "law domain '"@ + law.domain@ + "' does not match schema domain '"@ + schema.domain@
                    + "'"@,
            )
        } else if law.schema_version@ != schema.version@ {
            invalid(
                "law schema_version '"@ + law.schema_version@ + "' does not match schema version '"@
                    + schema.version@ + "'"@,
            )
        } else if law.states@.len() == 0 {
            invalid("law must contain at least one state"@)
        } else {
            match duplicate_state(law.states@) {
                Some(n) => Some(CompileErrorV::DuplicateState(n)),
                None => if !has_state(law.states@, law.initial_state@) {
                    Some(CompileErrorV::InitialStateNotFound(law.initial_state@))
                } else {
                    None
                },
            }
        },
    }
}

/// What is checked before the law's `AUTO_TICK` cycles: the header, the
/// transitions of the first state, the transient states.
pub open spec fn law_error_before_cycles(
    schema: DomainSchema,
    law: LawSource,
    reg: Seq<(Seq<char>, GuardFactory)>,
) -> Option<CompileErrorV> {
    match law_header_error(schema, law) {
        Some(e) => Some(e),
        None => match state_error(schema, reg, law.states@, law.states@[0]) {
            Some(e) => Some(e),
            None => transient_error(law.states@),
        },
    }
}

pub open spec fn later_state_errors(
    schema: DomainSchema,
    law: LawSource,
    reg: Seq<(Seq<char>, GuardFactory)>,
) -> spec_fn(int) -> Option<CompileErrorV> {
    |i: int|
        if i == 0 {
            None
        } else {
            state_error(schema, reg, law.states@, law.states@[i])
        }
}

/// What is checked after the cycles: the transitions of the other states.
pub open spec fn law_error_after_cycles(
    schema: DomainSchema,
    law: LawSource,
    reg: Seq<(Seq<char>, GuardFactory)>,
) -> Option<CompileErrorV> {
    first_some(later_state_errors(schema, law, reg), law.states@.len())
}

/// A law that passes every check.
pub open spec fn law_is_valid(
    schema: DomainSchema,
    law: LawSource,
    reg: Seq<(Seq<char>, GuardFactory)>,
) -> bool {
    &&& law_error_before_cycles(schema, law, reg) is None
    &&& !has_auto_cycle(law.states@)
    &&& law_error_after_cycles(schema, law, reg) is None
}

/// `e` is the error validation reports for a law: the first broken rule, in
/// the order the checks run; for an `AUTO_TICK` cycle, the one that names
/// the state where the search from the states in order first meets the
/// cycle.
pub open spec fn validation_error(
    schema: DomainSchema,
    law: LawSource,
    reg: Seq<(Seq<char>, GuardFactory)>,
    e: CompileErrorV,
) -> bool {
    match law_error_before_cycles(schema, law, reg) {
        Some(x) => e == x,
        None => if has_auto_cycle(law.states@) {
            auto_tick_cycle_state(law.states@) matches Some(n) && e
                == CompileErrorV::InvalidLaw(auto_cycle_message(n)) && on_auto_cycle(law.states@, n)
        } else {
            law_error_after_cycles(schema, law, reg) == Some(e)
        },
    }
}

pub open spec fn terminal_message(n: Seq<char>) -> Seq<char> {
    "state '"@ + n + "' is terminal"@
}

/// A warning for each state of `prefix` without transitions, in order.
pub open spec fn terminal_warnings(prefix: Seq<StateSource>) -> Seq<Seq<char>>
    decreases prefix.len(),
{
    if prefix.len() == 0 {
        Seq::empty()
    } else if prefix.last().transitions@.len() == 0 {
        terminal_warnings(prefix.drop_last()).push(terminal_message(prefix.last().name@))
    } else {
        terminal_warnings(prefix.drop_last())
    }
}

/// The warnings of a valid law: its terminal states, then its unreachable
/// states.
pub open spec fn law_warnings(law: LawSource) -> Seq<Seq<char>> {
    terminal_warnings(law.states@) + unreachable_warnings(
        law.states@,
        law.initial_state@,
        law.states@,
    )
}

fn validate_transition_effects(law: &LawSource, transition: &TransitionSource) -> (r: Result<
    (),
    CompileError,
>)
    ensures
        outcome(r) == effects_error(law.states@, *transition),
{
    if !transition.carries_tracked_effect() {
        return Ok(());
    }
    let target = match find_state(&law.states, transition.to.as_str()) {
        Some(s) => s,
        None => {
            return Err(CompileError::UnknownTargetState(transition.to.clone()));
        },
    };
    if !target.is_transient {
        return Err(
            CompileError::InvalidLaw(
                concat3(
                    "tracked effects require transient target state, but transition to '",
                    transition.to.as_str(),
                    "' is not transient",
                ),
            ),
        );
    }
    Ok(())
}

fn check_transition(
    schema: &DomainSchema,
    registry: &GuardRegistry,
    law: &LawSource,
    transition: &TransitionSource,
) -> (r: Result<(), CompileError>)
    ensures
        outcome(r) == transition_error(*schema, registry@, law.states@, *transition),
{
    proof {
        lemma_state_named(law.states@, transition.to@);
    }
    if find_state(&law.states, transition.to.as_str()).is_none() {
        return Err(CompileError::UnknownTargetState(transition.to.clone()));
    }
    match validate_transition_effects(law, transition) {
        Ok(()) => {},
        Err(e) => {
            return Err(e);
        },
    }
    let ghost f = guard_errors(*schema, registry@, transition.guards@);
    let mut k: usize = 0;
    while k < transition.guards.len()
        invariant
            k <= transition.guards.len(),
            f == guard_errors(*schema, registry@, transition.guards@),
            first_some(f, k as nat) is None,
            has_state(law.states@, transition.to@),
            effects_error(law.states@, *transition) is None,
        decreases transition.guards.len() - k,
    {
        let guard = &transition.guards[k];
        if registry.get(guard.guard_type.as_str()).is_none() {
            proof {
                lemma_first_some_stable(f, (k + 1) as nat, transition.guards@.len());
            }
            return Err(CompileError::UnknownGuardType(guard.guard_type.clone()));
        }
        match validate_guard_source(schema, guard) {
            Ok(()) => {},
            Err(e) => {
                proof {
                    lemma_first_some_stable(f, (k + 1) as nat, transition.guards@.len());
                }
                return Err(e);
            },
        }
        k = k + 1;
    }
    Ok(())
}

fn check_state(
    schema: &DomainSchema,
    registry: &GuardRegistry,
    law: &LawSource,
    state: &StateSource,
) -> (r: Result<(), CompileError>)
    ensures
        outcome(r) == state_error(*schema, registry@, law.states@, *state),
{
    let ghost f = transition_errors(*schema, registry@, law.states@, *state);
    let mut k: usize = 0;
    while k < state.transitions.len()
        invariant
            k <= state.transitions.len(),
            f == transition_errors(*schema, registry@, law.states@, *state),
            first_some(f, k as nat) is None,
        decreases state.transitions.len() - k,
    {
        match check_transition(schema, registry, law, &state.transitions[k]) {
            Ok(()) => {},
            Err(e) => {
                proof {
                    lemma_first_some_stable(f, (k + 1) as nat, state.transitions@.len());
                }
                return Err(e);
            },
        }
        k = k + 1;
    }
    Ok(())
}

fn check_tracked_exits(law: &LawSource, state: &StateSource) -> (r: Result<(), CompileError>)
    ensures
        outcome(r) == state_tracked_exit_error(law.states@, *state),
{
    let ghost f = tracked_exit_errors(law.states@, *state);
    let mut k: usize = 0;
    while k < state.transitions.len()
        invariant
            k <= state.transitions.len(),
            f == tracked_exit_errors(law.states@, *state),
            first_some(f, k as nat) is None,
        decreases state.transitions.len() - k,
    {
        let t = &state.transitions[k];
        if t.carries_tracked_effect() {
            match find_state(&law.states, t.to.as_str()) {
                None => {
                    proof {
                        lemma_first_some_stable(f, (k + 1) as nat, state.transitions@.len());
                    }
                    return Err(CompileError::UnknownTargetState(t.to.clone()));
                },
                Some(target) => {
                    if target.transitions.len() == 0 {
                        proof {
                            lemma_first_some_stable(f, (k + 1) as nat, state.transitions@.len());
                        }
                        return Err(
                            CompileError::InvalidLaw(
                                concat3(
                                    "tracked effect transition targets transient state '",
                                    target.name.as_str(),
                                    "' but it has no exits",
                                ),
                            ),
                        );
                    }
                },
            }
        }
        k = k + 1;
    }
    Ok(())
}

/// Checks the transient states of a law: each has an exit, and each
/// tracked effect leads to a state with exits.
pub fn validate_transient_states(law: &LawSource) -> (r: Result<(), CompileError>)
    ensures
        outcome(r) == transient_error(law.states@),
{
    let ghost f = empty_transient_errors(law.states@);
    let mut i: usize = 0;
    while i < law.states.len()
        invariant
            i <= law.states.len(),
            f == empty_transient_errors(law.states@),
            first_some(f, i as nat) is None,
        decreases law.states.len() - i,
    {
        let state = &law.states[i];
        if state.is_transient && state.transitions.len() == 0 {
            proof {
                lemma_first_some_stable(f, (i + 1) as nat, law.states@.len());
            }
            return Err(
                CompileError::InvalidLaw(
                    concat3(
                        "transient state '",
                        state.name.as_str(),
                        "' must define at least one outgoing transition",
                    ),
                ),
            );
        }
        i = i + 1;
    }
    let ghost g = tracked_exit_state_errors(law.states@);
    let mut i: usize = 0;
    while i < law.states.len()
        invariant
            i <= law.states.len(),
            f == empty_transient_errors(law.states@),
            first_some(f, law.states@.len()) is None,
            g == tracked_exit_state_errors(law.states@),
            first_some(g, i as nat) is None,
        decreases law.states.len() - i,
    {
        match check_tracked_exits(law, &law.states[i]) {
            Ok(()) => {},
            Err(e) => {
                proof {
                    lemma_first_some_stable(g, (i + 1) as nat, law.states@.len());
                }
                return Err(e);
            },
        }
        i = i + 1;
    }
    Ok(())
}

fn find_duplicate_state(law: &LawSource) -> (r: Option<String>)
    ensures
        match r {
            Some(n) => duplicate_state(law.states@) == Some(n@),
            None => duplicate_state(law.states@) is None,
        },
{
    let ghost f = duplicate_names(law.states@);
    let mut seen: Vec<String> = Vec::new();
    let mut i: usize = 0;
    proof {
        assert(names_of(seen@) =~= Seq::<Seq<char>>::empty());
    }
    while i < law.states.len()
        invariant
            i <= law.states.len(),
            f == duplicate_names(law.states@),
            first_some(f, i as nat) is None,
            names_of(seen@).len() == i,
            forall|j: int| 0 <= j < i ==> #[trigger] names_of(seen@)[j] == law.states@[j].name@,
        decreases law.states.len() - i,
    {
        let name = &law.states[i].name;
        if holds_name(&seen, name.as_str()) {
            proof {
                let j = choose|j: int| 0 <= j < names_of(seen@).len() && names_of(seen@)[j] == name@;
                assert(law.states@[j].name@ == law.states@[i as int].name@);
                lemma_first_some_stable(f, (i + 1) as nat, law.states@.len());
            }
            return Some(name.clone());
        }
        proof {
            assert forall|j: int| 0 <= j < i implies #[trigger] law.states@[j].name@ != law.states@[i as int].name@ by {
                assert(names_of(seen@)[j] == law.states@[j].name@);
            }
        }
        let ghost sb = names_of(seen@);
        seen.push(name.clone());
        assert(names_of(seen@) =~= sb.push(name@));
        i = i + 1;
    }
    None
}

/// Checks a law against its domain schema and a guard registry, in this
/// order: the schema, the law's domain and schema version, its states'
/// names and initial state, then for each state its transitions (after the
/// first state, also the transient states and the `AUTO_TICK` cycles).  A
/// valid law gives its warnings: terminal states, then unreachable states.
pub fn validate_law(schema: &DomainSchema, law: &LawSource, registry: &GuardRegistry) -> (r: Result<
    Vec<String>,
    CompileError,
>)
    ensures
        match r {
            Ok(w) => law_is_valid(*schema, *law, registry@) && names_of(w@) == law_warnings(*law),
            Err(e) => !law_is_valid(*schema, *law, registry@) && validation_error(
                *schema,
                *law,
                registry@,
                e@,
            ),
        },
{
    match validate_schema(schema) {
        Ok(()) => {},
        Err(e) => {
            return Err(map_schema_error(e));
        },
    }
    if !str_eq(law.domain.as_str(), schema.domain.as_str()) {
        return Err(
            CompileError::InvalidLaw(
                concat5(
                    "law domain '",
                    law.domain.as_str(),
                    "' does not match schema domain '",
                    schema.domain.as_str(),
                    "'",
                ),
            ),
        );
    }
    if !str_eq(law.schema_version.as_str(), schema.version.as_str()) {
        return Err(
            CompileError::InvalidLaw(
                concat5(
                    "law schema_version '",
                    law.schema_version.as_str(),
                    "' does not match schema version '",
                    schema.version.as_str(),
                    "'",
                ),
            ),
        );
    }
    if law.states.len() == 0 {
        return Err(invalid_law("law must contain at least one state"));
    }
    match find_duplicate_state(law) {
        Some(n) => {
            return Err(CompileError::DuplicateState(n));
        },
        None => {},
    }
    proof {
        lemma_state_named(law.states@, law.initial_state@);
    }
    if find_state(&law.states, law.initial_state.as_str()).is_none() {
        return Err(CompileError::InitialStateNotFound(law.initial_state.clone()));
    }
    assert(law_header_error(*schema, *law) is None);
    let ghost later = later_state_errors(*schema, *law, registry@);
    let mut warnings: Vec<String> = Vec::new();
    let mut i: usize = 0;
    proof {
        assert(names_of(warnings@) =~= Seq::<Seq<char>>::empty());
        assert(law.states@.take(0) =~= Seq::<StateSource>::empty());
    }
    while i < law.states.len()
        invariant
            i <= law.states.len(),
            law.states@.len() > 0,
            law_header_error(*schema, *law) is None,
            later == later_state_errors(*schema, *law, registry@),
            i > 0 ==> state_error(*schema, registry@, law.states@, law.states@[0]) is None,
            i > 0 ==> transient_error(law.states@) is None,
            i > 0 ==> !has_auto_cycle(law.states@),
            first_some(later, i as nat) is None,
            names_of(warnings@) == terminal_warnings(law.states@.take(i as int)),
        decreases law.states.len() - i,
    {
        let state = &law.states[i];
        match check_state(schema, registry, law, state) {
            Ok(()) => {},
            Err(e) => {
                proof {
                    if i > 0 {
                        lemma_first_some_stable(later, (i + 1) as nat, law.states@.len());
                    }
                }
                return Err(e);
            },
        }
        match validate_transient_states(law) {
            Ok(()) => {},
            Err(e) => {
                return Err(e);
            },
        }
        match validate_auto_tick_cycles(law) {
            Ok(()) => {},
            Err(e) => {
                return Err(e);
            },
        }
        let ghost before = names_of(warnings@);
        proof {
            assert(law.states@.take(i as int + 1).drop_last() =~= law.states@.take(i as int));
            assert(law.states@.take(i as int + 1).last() == law.states@[i as int]);
        }
        if state.transitions.len() == 0 {
            warnings.push(concat3("state '", state.name.as_str(), "' is terminal"));
            assert(names_of(warnings@) =~= before.push(terminal_message(state.name@)));
        }
        i = i + 1;
    }
    let unreachable = find_unreachable_states(law);
    let ghost w0 = names_of(warnings@);
    let mut j: usize = 0;
    while j < unreachable.len()
        invariant
            j <= unreachable.len(),
            names_of(warnings@) == w0 + names_of(unreachable@).take(j as int),
        decreases unreachable.len() - j,
    {
        let ghost wb = names_of(warnings@);
        warnings.push(unreachable[j].clone());
        assert(names_of(warnings@) =~= wb.push(unreachable@[j as int]@));
        assert(names_of(unreachable@).take(j as int + 1) =~= names_of(unreachable@).take(j as int).push(
            unreachable@[j as int]@,
        ));
        assert(names_of(warnings@) =~= w0 + names_of(unreachable@).take(j as int + 1));
        j = j + 1;
    }
    proof {
        assert(law.states@.take(law.states@.len() as int) =~= law.states@);
        assert(names_of(unreachable@).take(unreachable@.len() as int) =~= names_of(unreachable@));
    }
    Ok(warnings)
}

/// A law whose names and references all resolve: at least one state, no two
/// states of one name, a known initial state, known transition targets, and
/// registered guard types.
pub open spec fn well_formed_law(law: LawSource, reg: Seq<(Seq<char>, GuardFactory)>) -> bool {
    &&& law.states@.len() > 0
    &&& forall|i: int, j: int|
        0 <= i < j < law.states@.len() ==> (#[trigger] law.states@[i]).name@ != (
        #[trigger] law.states@[j]).name@
    &&& has_state(law.states@, law.initial_state@)
    &&& forall|i: int, k: int|
        0 <= i < law.states@.len() && 0 <= k < law.states@[i].transitions@.len() ==> has_state(
            law.states@,
            (#[trigger] law.states@[i].transitions@[k]).to@,
        )
    &&& forall|i: int, k: int, g: int|
        0 <= i < law.states@.len() && 0 <= k < law.states@[i].transitions@.len() && 0 <= g
            < law.states@[i].transitions@[k].guards@.len() ==> lookup(
            reg,
            (#[trigger] law.states@[i].transitions@[k].guards@[g]).guard_type@,
        ) is Some
}

/// A law that passes validation is well formed, and has no `AUTO_TICK`
/// cycle.
pub proof fn law_valid_law_is_well_formed(
    schema: DomainSchema,
    law: LawSource,
    reg: Seq<(Seq<char>, GuardFactory)>,
)
    requires
        law_is_valid(schema, law, reg),
    ensures
        well_formed_law(law, reg),
        schema_error(schema) is None,
{
    let states = law.states@;
    assert(law_header_error(schema, law) is None);
    assert forall|i: int, j: int| 0 <= i < j < states.len() implies (#[trigger] states[i]).name@ != (
    #[trigger] states[j]).name@ by {
        lemma_first_some_none_prefix(duplicate_names(states), states.len(), j);
    }
    assert forall|i: int| 0 <= i < states.len() implies state_error(schema, reg, states, #[trigger] states[i])
        is None by {
        if i > 0 {
            lemma_first_some_none_prefix(later_state_errors(schema, law, reg), states.len(), i);
        }
    }
    assert forall|i: int, k: int|
        0 <= i < states.len() && 0 <= k < states[i].transitions@.len() implies transition_error(
            schema,
            reg,
            states,
            #[trigger] states[i].transitions@[k],
        ) is None by {
        assert(state_error(schema, reg, states, states[i]) is None);
        lemma_first_some_none_prefix(
            transition_errors(schema, reg, states, states[i]),
            states[i].transitions@.len(),
            k,
        );
    }
    assert forall|i: int, k: int, g: int|
        0 <= i < states.len() && 0 <= k < states[i].transitions@.len() && 0 <= g
            < states[i].transitions@[k].guards@.len() implies lookup(
            reg,
            (#[trigger] states[i].transitions@[k].guards@[g]).guard_type@,
        ) is Some by {
        let t = states[i].transitions@[k];
        assert(transition_error(schema, reg, states, t) is None);
        lemma_first_some_none_prefix(guard_errors(schema, reg, t.guards@), t.guards@.len(), g);
    }
}

/// A value is a value of a schema field exactly when its JSON kind is the
/// field's type: a string for `String`, a number for `Number`, `DateTime`
/// and `Duration`, a boolean for `Boolean`; for an `Enum` field, it is a
/// string listed among the field's enum values.  No built-in field is an
/// enum with values, so no value matches a built-in `Enum` field.
pub proof fn law_value_matches(field: ResolvedField, value: JsonV)
    ensures
        value_matches(field, value) <==> match resolved_type(field) {
            SchemaFieldType::String => value is String,
            SchemaFieldType::Number => value is Number,
            SchemaFieldType::DateTime => value is Number,
            SchemaFieldType::Duration => value is Number,
            SchemaFieldType::Boolean => value is Bool,
            SchemaFieldType::Enum => match field {
                ResolvedField::User(f) => f.enum_values matches Some(vs) && exists|i: int|
                    0 <= i < vs@.len() && value == JsonV::String(#[trigger] vs@[i]@),
                ResolvedField::System(_) => false,
            },
        },
{
    if resolved_type(field) == SchemaFieldType::Enum {
        if let ResolvedField::User(f) = field {
            if let Some(vs) = f.enum_values {
                let names = vs@.map_values(|v: String| v@);
                if value_matches(field, value) {
                    let s = as_str_v(value)->Some_0;
                    let i = choose|i: int| 0 <= i < names.len() && names[i] == s;
                    assert(value == JsonV::String(vs@[i]@));
                }
                if exists|i: int| 0 <= i < vs@.len() && value == JsonV::String(#[trigger] vs@[i]@) {
                    let i = choose|i: int| 0 <= i < vs@.len() && value == JsonV::String(#[trigger] vs@[i]@);
                    assert(names[i] == vs@[i]@);
                    assert(names.contains(vs@[i]@));
                }
            }
        }
    }
}

/// In a valid law, the value of every `Equals` guard is a value of the
/// field its path names, and so is every value of every `InSet` and
/// `NotInSet` guard: for an enum field, each is one of its enum values.
pub proof fn law_valid_law_guard_values(
    schema: DomainSchema,
    law: LawSource,
    reg: Seq<(Seq<char>, GuardFactory)>,
    i: int,
    k: int,
    g: int,
)
    requires
        law_is_valid(schema, law, reg),
        0 <= i < law.states@.len(),
        0 <= k < law.states@[i].transitions@.len(),
        0 <= g < law.states@[i].transitions@[k].guards@.len(),
    ensures
        ({
            let gd = law.states@[i].transitions@[k].guards@[g];
            let p = gd.params@;
            &&& gd.guard_type@ == "Equals"@ ==> (str_param(p, "path"@) matches Some(path) && lookup(
                p,
                "value"@,
            ) matches Some(v) && resolve_path(schema, path) matches Some(f) && value_matches(f, v))
            &&& (gd.guard_type@ == "InSet"@ || gd.guard_type@ == "NotInSet"@) ==> (str_param(
                p,
                "path"@,
            ) matches Some(path) && array_param(p, "values"@) matches Some(vs) && resolve_path(
                schema,
                path,
            ) matches Some(f) && forall|j: int| 0 <= j < vs.len() ==> value_matches(f, #[trigger] vs[j]))
        }),
{
    let states = law.states@;
    let gd = states[i].transitions@[k].guards@[g];
    assert(law_header_error(schema, law) is None);
    if i > 0 {
        lemma_first_some_none_prefix(later_state_errors(schema, law, reg), states.len(), i);
    }
    assert(state_error(schema, reg, states, states[i]) is None);
    lemma_first_some_none_prefix(
        transition_errors(schema, reg, states, states[i]),
        states[i].transitions@.len(),
        k,
    );
    let t = states[i].transitions@[k];
    assert(transition_error(schema, reg, states, t) is None);
    lemma_first_some_none_prefix(guard_errors(schema, reg, t.guards@), t.guards@.len(), g);
    assert(registry_guard_error(schema, reg, gd) is None);
    reveal_strlit("Default");
    reveal_strlit("GreaterThan");
    reveal_strlit("Equals");
    reveal_strlit("OccurredWithin");
    reveal_strlit("TimeElapsed");
    reveal_strlit("FieldsEqual");
    reveal_strlit("Exists");
    reveal_strlit("MissingField");
    reveal_strlit("InSet");
    reveal_strlit("NotInSet");
    if gd.guard_type@ == "Equals"@ {
        assert(gd.guard_type@[0] != "Default"@[0]);
        assert(gd.guard_type@[0] != "GreaterThan"@[0]);
        assert(guard_source_error(schema, gd) == equals_error(schema, gd.params@));
    }
    if gd.guard_type@ == "InSet"@ || gd.guard_type@ == "NotInSet"@ {
        let c = gd.guard_type@[0];
        assert(c != "Default"@[0] && c != "GreaterThan"@[0] && c != "Equals"@[0] && c
            != "OccurredWithin"@[0] && c != "TimeElapsed"@[0] && c != "FieldsEqual"@[0] && c
            != "Exists"@[0] && c != "MissingField"@[0]);
        assert(guard_source_error(schema, gd) == in_set_error(schema, gd.params@));
    }
}

} // verus!
