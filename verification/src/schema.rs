//! Domain schemas: the typed fields a law may reference, by namespace.
use vstd::prelude::*;

use crate::error::{concat3, concat5, SchemaError};
use crate::json::str_eq;
use crate::text::{
    first_some, lemma_first_some_none, lemma_first_some_none_prefix, lemma_first_some_stable,
    char_index, find_char, is_ascii_digit,
    is_ascii_digit_spec, is_word, is_word_char, slice_chars,
};

verus! {

/// The type of a schema field.
#[derive(Clone, Copy, Debug, PartialEq, Eq, Structural)]
pub enum SchemaFieldType {
    String,
    Number,
    Boolean,
    DateTime,
    Duration,
    Enum,
}

/// A field of a namespace.
#[derive(Clone, Debug)]
pub struct FieldDefinition {
    pub name: String,
    pub field_type: SchemaFieldType,
    pub description: Option<String>,
    pub enum_values: Option<Vec<String>>,
}

/// The user-defined namespaces: record data, external input and derived
/// values.  The `sys` namespace is built in.
#[derive(Clone, Debug)]
pub struct SchemaNamespaces {
    pub rec: Vec<FieldDefinition>,
    pub ext: Vec<FieldDefinition>,
    pub calc: Vec<FieldDefinition>,
}

/// The schema of a domain.
#[derive(Clone, Debug)]
pub struct DomainSchema {
    pub domain: String,
    pub version: String,
    pub namespaces: SchemaNamespaces,
}

/// A built-in field of the `sys` namespace.
#[derive(Clone, Copy, Debug)]
pub struct SystemFieldDefinition {
    pub field_type: SchemaFieldType,
}

/// A resolved field: one of the schema's own, or a built-in one.
#[derive(Clone, Copy, Debug)]
pub enum FieldDefinitionRef<'a> {
    User(&'a FieldDefinition),
    System(SystemFieldDefinition),
}

/// What a path resolves to.
pub enum ResolvedField {
    User(FieldDefinition),
    System(SchemaFieldType),
}

pub open spec fn resolved_of(r: FieldDefinitionRef) -> ResolvedField {
    match r {
        FieldDefinitionRef::User(f) => ResolvedField::User(*f),
        FieldDefinitionRef::System(s) => ResolvedField::System(s.field_type),
    }
}

pub open spec fn resolved_type(r: ResolvedField) -> SchemaFieldType {
    match r {
        ResolvedField::User(f) => f.field_type,
        ResolvedField::System(t) => t,
    }
}

/// The enum values a resolved field admits, as strings.
pub open spec fn resolved_enum_values(r: ResolvedField) -> Option<Seq<Seq<char>>> {
    match r {
        ResolvedField::User(f) => match f.enum_values {
            Some(vs) => Some(vs@.map_values(|v: String| v@)),
            None => None,
        },
        ResolvedField::System(_) => None,
    }
}

/// Position of the first field named `name`, or the length.
pub open spec fn field_index(fields: Seq<FieldDefinition>, name: Seq<char>) -> int
    decreases fields.len(),
{
    if fields.len() == 0 {
        0
    } else if fields[0].name@ == name {
        0
    } else {
        1 + field_index(fields.drop_first(), name)
    }
}

pub open spec fn find_field(fields: Seq<FieldDefinition>, name: Seq<char>) -> Option<
    FieldDefinition,
> {
    if field_index(fields, name) < fields.len() {
        Some(fields[field_index(fields, name)])
    } else {
        None
    }
}

pub proof fn lemma_field_index_found(fields: Seq<FieldDefinition>, name: Seq<char>, i: int)
    requires
        0 <= i < fields.len(),
        fields[i].name@ == name,
        forall|j: int| 0 <= j < i ==> (#[trigger] fields[j]).name@ != name,
    ensures
        field_index(fields, name) == i,
    decreases i,
{
    if i > 0 {
        assert forall|j: int| 0 <= j < i - 1 implies (#[trigger] fields.drop_first()[j]).name@
            != name by {
            assert(fields.drop_first()[j] == fields[j + 1]);
        }
        lemma_field_index_found(fields.drop_first(), name, i - 1);
    }
}

pub proof fn lemma_field_index_absent(fields: Seq<FieldDefinition>, name: Seq<char>)
    requires
        forall|j: int| 0 <= j < fields.len() ==> (#[trigger] fields[j]).name@ != name,
    ensures
        field_index(fields, name) == fields.len(),
    decreases fields.len(),
{
    if fields.len() > 0 {
        assert forall|j: int| 0 <= j < fields.len() - 1 implies (
        #[trigger] fields.drop_first()[j]).name@ != name by {
            assert(fields.drop_first()[j] == fields[j + 1]);
        }
        lemma_field_index_absent(fields.drop_first(), name);
    }
}

/// The type of a built-in `sys` field.
pub open spec fn system_field_type(name: Seq<char>) -> Option<SchemaFieldType> {
    if name == "now"@ {
        Some(SchemaFieldType::DateTime)
    } else if name == "trace_id"@ {
        Some(SchemaFieldType::String)
    } else {
        None
    }
}

/// What `path` names: the part before its first `.` is the namespace, the
/// rest is the field.
pub open spec fn resolve_path(schema: DomainSchema, path: Seq<char>) -> Option<ResolvedField> {
    let i = char_index(path, '.');
    if i >= path.len() {
        None
    } else {
        let ns = path.take(i);
        let name = path.skip(i + 1);
        if ns == "rec"@ {
            match find_field(schema.namespaces.rec@, name) {
                Some(f) => Some(ResolvedField::User(f)),
                None => None,
            }
        } else if ns == "ext"@ {
            match find_field(schema.namespaces.ext@, name) {
                Some(f) => Some(ResolvedField::User(f)),
                None => None,
            }
        } else if ns == "calc"@ {
            match find_field(schema.namespaces.calc@, name) {
                Some(f) => Some(ResolvedField::User(f)),
                None => None,
            }
        } else if ns == "sys"@ {
            match system_field_type(name) {
                Some(t) => Some(ResolvedField::System(t)),
                None => None,
            }
        } else {
            None
        }
    }
}

pub open spec fn resolve_path_type_spec(schema: DomainSchema, path: Seq<char>) -> Option<
    SchemaFieldType,
> {
    match resolve_path(schema, path) {
        Some(r) => Some(resolved_type(r)),
        None => None,
    }
}

fn find_field_in<'a>(fields: &'a Vec<FieldDefinition>, name: &str) -> (r: Option<
    &'a FieldDefinition,
>)
    ensures
        match r {
            Some(f) => find_field(fields@, name@) == Some(*f),
            None => find_field(fields@, name@) is None,
        },
{
    let mut i: usize = 0;
    while i < fields.len()
        invariant
            i <= fields.len(),
            forall|j: int| 0 <= j < i ==> (#[trigger] fields@[j]).name@ != name@,
        decreases fields.len() - i,
    {
        if str_eq(fields[i].name.as_str(), name) {
            proof {
                lemma_field_index_found(fields@, name@, i as int);
            }
            return Some(&fields[i]);
        }
        i = i + 1;
    }
    proof {
        lemma_field_index_absent(fields@, name@);
    }
    None
}

fn resolve_system_field(field_name: &str) -> (r: Option<SystemFieldDefinition>)
    ensures
        match r {
            Some(d) => system_field_type(field_name@) == Some(d.field_type),
            None => system_field_type(field_name@) is None,
        },
{
    if str_eq(field_name, "now") {
        Some(SystemFieldDefinition { field_type: SchemaFieldType::DateTime })
    } else if str_eq(field_name, "trace_id") {
        Some(SystemFieldDefinition { field_type: SchemaFieldType::String })
    } else {
        None
    }
}

impl DomainSchema {
    /// The field `path` names.
    pub fn resolve_field(&self, path: &str) -> (r: Option<FieldDefinitionRef<'_>>)
        ensures
            match r {
                Some(f) => resolve_path(*self, path@) == Some(resolved_of(f)),
                None => resolve_path(*self, path@) is None,
            },
    {
        let i = find_char(path, '.');
        let n = path.unicode_len();
        if i >= n {
            return None;
        }
        let namespace = slice_chars(path, 0, i);
        let field_name = slice_chars(path, i + 1, n);
        assert(namespace@ == path@.take(i as int));
        assert(field_name@ == path@.skip(i + 1));
        if str_eq(namespace.as_str(), "rec") {
            match find_field_in(&self.namespaces.rec, field_name.as_str()) {
                Some(f) => Some(FieldDefinitionRef::User(f)),
                None => None,
            }
        } else if str_eq(namespace.as_str(), "ext") {
            match find_field_in(&self.namespaces.ext, field_name.as_str()) {
                Some(f) => Some(FieldDefinitionRef::User(f)),
                None => None,
            }
        } else if str_eq(namespace.as_str(), "calc") {
            match find_field_in(&self.namespaces.calc, field_name.as_str()) {
                Some(f) => Some(FieldDefinitionRef::User(f)),
                None => None,
            }
        } else if str_eq(namespace.as_str(), "sys") {
            match resolve_system_field(field_name.as_str()) {
                Some(d) => Some(FieldDefinitionRef::System(d)),
                None => None,
            }
        } else {
            None
        }
    }

    /// The type of the field `path` names.
    pub fn resolve_path_type(&self, path: &str) -> (r: Option<SchemaFieldType>)
        ensures
            r == resolve_path_type_spec(*self, path@),
    {
        match self.resolve_field(path) {
            Some(f) => Some(f.field_type()),
            None => None,
        }
    }
}

impl<'a> FieldDefinitionRef<'a> {
    pub fn field_type(&self) -> (r: SchemaFieldType)
        ensures
            r == resolved_type(resolved_of(*self)),
    {
        match self {
            FieldDefinitionRef::User(field) => field.field_type,
            FieldDefinitionRef::System(field) => field.field_type,
        }
    }

    pub fn enum_values(&self) -> (r: Option<&'a [String]>)
        ensures
            match r {
                Some(vs) => resolved_enum_values(resolved_of(*self)) == Some(
                    vs@.map_values(|v: String| v@),
                ),
                None => resolved_enum_values(resolved_of(*self)) is None,
            },
    {
        match self {
            FieldDefinitionRef::User(field) => match &field.enum_values {
                Some(vs) => Some(vs.as_slice()),
                None => None,
            },
            FieldDefinitionRef::System(_) => None,
        }
    }
}

/// The rule an identifier breaks, if any: it is not empty, does not start
/// with a digit, and holds only ASCII letters, digits and `_`.
pub open spec fn identifier_error(v: Seq<char>) -> Option<Seq<char>> {
    if v.len() == 0 {
        Some("identifier may not be empty"@)
    } else if is_ascii_digit_spec(v[0]) {
        Some("identifier '"@ + v + "' may not start with a digit"@)
    } else if exists|i: int| 0 <= i < v.len() && !is_word_char(#[trigger] v[i]) {
        Some("identifier '"@ + v + "' contains invalid characters"@)
    } else {
        None
    }
}

/// The rule the `i`-th enum value of field `name` breaks, if any.
pub open spec fn enum_value_error(name: Seq<char>, values: Seq<String>, i: int) -> Option<
    Seq<char>,
> {
    match identifier_error(values[i]@) {
        Some(e) => Some(e),
        None => if exists|j: int| 0 <= j < i && #[trigger] values[j]@ == values[i]@ {
            Some("enum field '"@ + name + "' contains duplicate value '"@ + values[i]@ + "'"@)
        } else {
            None
        },
    }
}

pub open spec fn enum_value_errors(name: Seq<char>, values: Seq<String>) -> spec_fn(int) -> Option<
    Seq<char>,
> {
    |i: int| enum_value_error(name, values, i)
}

/// The first rule broken among the first `n` enum values.
pub open spec fn first_enum_value_error(name: Seq<char>, values: Seq<String>, n: nat) -> Option<
    Seq<char>,
> {
    first_some(enum_value_errors(name, values), n)
}

/// The rule a field's type and enum values break, if any.
pub open spec fn field_definition_error(f: FieldDefinition) -> Option<Seq<char>> {
    match f.field_type {
        SchemaFieldType::Enum => match f.enum_values {
            None => Some("enum field '"@ + f.name@ + "' must define enum_values"@),
            Some(vs) => if vs@.len() == 0 {
                Some("enum field '"@ + f.name@ + "' must define at least one enum value"@)
            } else {
                first_enum_value_error(f.name@, vs@, vs@.len())
            },
        },
        _ => if f.enum_values is Some {
            Some("field '"@ + f.name@ + "' defines enum_values but is not of type Enum"@)
        } else {
            None
        },
    }
}

/// The rule the `i`-th field of namespace `ns` breaks, if any.
pub open spec fn field_error(ns: Seq<char>, fields: Seq<FieldDefinition>, i: int) -> Option<
    Seq<char>,
> {
    match identifier_error(fields[i].name@) {
        Some(e) => Some(e),
        None => if exists|j: int| 0 <= j < i && #[trigger] fields[j].name@ == fields[i].name@ {
            Some("duplicate field '"@ + fields[i].name@ + "' in namespace '"@ + ns + "'"@)
        } else {
            field_definition_error(fields[i])
        },
    }
}

pub open spec fn field_errors(ns: Seq<char>, fields: Seq<FieldDefinition>) -> spec_fn(int) -> Option<
    Seq<char>,
> {
    |i: int| field_error(ns, fields, i)
}

/// The first rule broken among the first `n` fields of namespace `ns`.
pub open spec fn first_field_error(ns: Seq<char>, fields: Seq<FieldDefinition>, n: nat) -> Option<
    Seq<char>,
> {
    first_some(field_errors(ns, fields), n)
}

/// The first rule a namespace breaks, if any.
pub open spec fn namespace_error(ns: Seq<char>, fields: Seq<FieldDefinition>) -> Option<
    Seq<char>,
> {
    if ns == "sys"@ {
        Some("sys namespace may not be user-defined"@)
    } else {
        first_field_error(ns, fields, fields.len())
    }
}

/// The first rule a schema breaks, if any, checking `rec`, `ext` and `calc`
/// in that order.
pub open spec fn schema_error(schema: DomainSchema) -> Option<Seq<char>> {
    match namespace_error("rec"@, schema.namespaces.rec@) {
        Some(e) => Some(e),
        None => match namespace_error("ext"@, schema.namespaces.ext@) {
            Some(e) => Some(e),
            None => namespace_error("calc"@, schema.namespaces.calc@),
        },
    }
}

/// Checks an identifier.
pub fn validate_identifier(value: &str) -> (r: Result<(), SchemaError>)
    ensures
        match r {
            Ok(()) => identifier_error(value@) is None,
            Err(e) => identifier_error(value@) == Some(e@->Invalid_0),
        },
{
    let n = value.unicode_len();
    if n == 0 {
        return Err(SchemaError::Invalid(String::from_str("identifier may not be empty")));
    }
    let first = value.get_char(0);
    if is_ascii_digit(first) {
        return Err(
            SchemaError::Invalid(
                concat3("identifier '", value, "' may not start with a digit"),
            ),
        );
    }
    let mut i: usize = 0;
    while i < n
        invariant
            n == value@.len(),
            n > 0,
            !is_ascii_digit_spec(value@[0]),
            i <= n,
            forall|j: int| 0 <= j < i ==> is_word_char(#[trigger] value@[j]),
        decreases n - i,
    {
        if !is_word(value.get_char(i)) {
            assert(!is_word_char(value@[i as int]));
            return Err(
                SchemaError::Invalid(concat3("identifier '", value, "' contains invalid characters")),
            );
        }
        i = i + 1;
    }
    Ok(())
}

fn has_earlier_string(values: &Vec<String>, i: usize) -> (r: bool)
    requires
        i < values.len(),
    ensures
        r == exists|j: int| 0 <= j < i && #[trigger] values@[j]@ == values@[i as int]@,
{
    let mut j: usize = 0;
    while j < i
        invariant
            i < values.len(),
            j <= i,
            forall|k: int| 0 <= k < j ==> #[trigger] values@[k]@ != values@[i as int]@,
        decreases i - j,
    {
        if values[j] == values[i] {
            return true;
        }
        j = j + 1;
    }
    false
}

fn has_earlier_field(fields: &[FieldDefinition], i: usize) -> (r: bool)
    requires
        i < fields@.len(),
    ensures
        r == exists|j: int| 0 <= j < i && #[trigger] fields@[j].name@ == fields@[i as int].name@,
{
    let mut j: usize = 0;
    while j < i
        invariant
            i < fields@.len(),
            j <= i,
            forall|k: int| 0 <= k < j ==> #[trigger] fields@[k].name@ != fields@[i as int].name@,
        decreases i - j,
    {
        if fields[j].name == fields[i].name {
            return true;
        }
        j = j + 1;
    }
    false
}

/// Checks a field's type against its enum values.
pub fn validate_field_definition(field: &FieldDefinition) -> (r: Result<(), SchemaError>)
    ensures
        match r {
            Ok(()) => field_definition_error(*field) is None,
            Err(e) => field_definition_error(*field) == Some(e@->Invalid_0),
        },
{
    match field.field_type {
        SchemaFieldType::Enum => {
            let values = match &field.enum_values {
                Some(vs) => vs,
                None => {
                    return Err(
                        SchemaError::Invalid(
                            concat3("enum field '", field.name.as_str(), "' must define enum_values"),
                        ),
                    );
                },
            };
            if values.len() == 0 {
                return Err(
                    SchemaError::Invalid(
                        concat3(
                            "enum field '",
                            field.name.as_str(),
                            "' must define at least one enum value",
                        ),
                    ),
                );
            }
            let mut i: usize = 0;
            while i < values.len()
                invariant
                    field.enum_values == Some(*values),
                    field.field_type == SchemaFieldType::Enum,
                    values@.len() > 0,
                    i <= values.len(),
                    first_enum_value_error(field.name@, values@, i as nat) is None,
                decreases values.len() - i,
            {
                match validate_identifier(values[i].as_str()) {
                    Ok(()) => {},
                    Err(e) => {
                        proof {
                            lemma_first_some_stable(
                                enum_value_errors(field.name@, values@),
                                (i + 1) as nat,
                                values@.len(),
                            );
                        }
                        return Err(e);
                    },
                }
                if has_earlier_string(values, i) {
                    proof {
                        lemma_first_some_stable(
                            enum_value_errors(field.name@, values@),
                            (i + 1) as nat,
                            values@.len(),
                        );
                    }
                    return Err(
                        SchemaError::Invalid(
                            concat5(
                                "enum field '",
                                field.name.as_str(),
                                "' contains duplicate value '",
                                values[i].as_str(),
                                "'",
                            ),
                        ),
                    );
                }
                i = i + 1;
            }
            Ok(())
        },
        _ => {
            if field.enum_values.is_some() {
                return Err(
                    SchemaError::Invalid(
                        concat3(
                            "field '",
                            field.name.as_str(),
                            "' defines enum_values but is not of type Enum",
                        ),
                    ),
                );
            }
            Ok(())
        },
    }
}

/// Checks the fields of one namespace.
pub fn validate_namespace_fields(namespace: &str, fields: &[FieldDefinition]) -> (r: Result<
    (),
    SchemaError,
>)
    ensures
        match r {
            Ok(()) => namespace_error(namespace@, fields@) is None,
            Err(e) => namespace_error(namespace@, fields@) == Some(e@->Invalid_0),
        },
{
    if str_eq(namespace, "sys") {
        return Err(SchemaError::Invalid(String::from_str("sys namespace may not be user-defined")));
    }
    let mut i: usize = 0;
    while i < fields.len()
        invariant
            i <= fields@.len(),
            namespace@ != "sys"@,
            first_field_error(namespace@, fields@, i as nat) is None,
        decreases fields@.len() - i,
    {
        match validate_identifier(fields[i].name.as_str()) {
            Ok(()) => {},
            Err(e) => {
                proof {
                    lemma_first_some_stable(
                        field_errors(namespace@, fields@),
                        (i + 1) as nat,
                        fields@.len(),
                    );
                }
                return Err(e);
            },
        }
        if has_earlier_field(fields, i) {
            proof {
                lemma_first_some_stable(
                    field_errors(namespace@, fields@),
                    (i + 1) as nat,
                    fields@.len(),
                );
            }
            return Err(
                SchemaError::Invalid(
                    concat5(
                        "duplicate field '",
                        fields[i].name.as_str(),
                        "' in namespace '",
                        namespace,
                        "'",
                    ),
                ),
            );
        }
        match validate_field_definition(&fields[i]) {
            Ok(()) => {},
            Err(e) => {
                proof {
                    lemma_first_some_stable(
                        field_errors(namespace@, fields@),
                        (i + 1) as nat,
                        fields@.len(),
                    );
                }
                return Err(e);
            },
        }
        i = i + 1;
    }
    Ok(())
}

/// Checks a schema: each namespace's fields are valid identifiers, appear
/// once, and carry enum values exactly when they are enums.
pub fn validate_schema(schema: &DomainSchema) -> (r: Result<(), SchemaError>)
    ensures
        match r {
            Ok(()) => schema_error(*schema) is None,
            Err(e) => schema_error(*schema) == Some(e@->Invalid_0),
        },
{
    match validate_namespace_fields("rec", schema.namespaces.rec.as_slice()) {
        Ok(()) => {},
        Err(e) => {
            return Err(e);
        },
    }
    match validate_namespace_fields("ext", schema.namespaces.ext.as_slice()) {
        Ok(()) => {},
        Err(e) => {
            return Err(e);
        },
    }
    validate_namespace_fields("calc", schema.namespaces.calc.as_slice())
}

/// The enum values are valid identifiers and no two are equal.
pub open spec fn enum_values_valid(values: Seq<String>) -> bool {
    &&& forall|i: int| 0 <= i < values.len() ==> identifier_error(#[trigger] values[i]@) is None
    &&& forall|i: int, j: int| 0 <= i < j < values.len() ==> #[trigger] values[i]@ != #[trigger] values[j]@
}

/// The fields are named by valid identifiers, no two fields share a name,
/// and each field's type agrees with its enum values.
pub open spec fn fields_valid(fields: Seq<FieldDefinition>) -> bool {
    &&& forall|i: int| 0 <= i < fields.len() ==> identifier_error((#[trigger] fields[i]).name@) is None
    &&& forall|i: int, j: int| 0 <= i < j < fields.len() ==> (#[trigger] fields[i]).name@ != (#[trigger] fields[j]).name@
    &&& forall|i: int| 0 <= i < fields.len() ==> field_definition_error(#[trigger] fields[i]) is None
}

proof fn lemma_enum_values(name: Seq<char>, values: Seq<String>)
    ensures
        first_enum_value_error(name, values, values.len()) is None <==> enum_values_valid(values),
{
    let f = enum_value_errors(name, values);
    if first_enum_value_error(name, values, values.len()) is None {
        assert forall|i: int| 0 <= i < values.len() implies identifier_error(#[trigger] values[i]@) is None by {
            lemma_first_some_none_prefix(f, values.len(), i);
        }
        assert forall|i: int, j: int| 0 <= i < j < values.len() implies #[trigger] values[i]@ != #[trigger] values[j]@ by {
            lemma_first_some_none_prefix(f, values.len(), j);
            assert(f(j) is None);
        }
    }
    if enum_values_valid(values) {
        assert forall|i: int| 0 <= i < values.len() implies #[trigger] f(i) is None by {
            assert(identifier_error(values[i]@) is None);
            assert(!exists|j: int| 0 <= j < i && #[trigger] values[j]@ == values[i]@);
        }
        lemma_first_some_none(f, values.len());
    }
}

/// A field's definition is valid exactly when an enum field has at least
/// one enum value, all of them valid identifiers and no two equal, and a
/// field of any other type has no enum values.
pub proof fn law_field_definition_valid(f: FieldDefinition)
    ensures
        field_definition_error(f) is None <==> if f.field_type == SchemaFieldType::Enum {
            f.enum_values matches Some(vs) && vs@.len() > 0 && enum_values_valid(vs@)
        } else {
            f.enum_values is None
        },
{
    if let Some(vs) = f.enum_values {
        lemma_enum_values(f.name@, vs@);
    }
}

/// A namespace other than `sys` passes exactly when its fields are valid.
pub proof fn law_namespace_valid(ns: Seq<char>, fields: Seq<FieldDefinition>)
    requires
        ns != "sys"@,
    ensures
        namespace_error(ns, fields) is None <==> fields_valid(fields),
{
    let f = field_errors(ns, fields);
    if namespace_error(ns, fields) is None {
        assert forall|i: int| 0 <= i < fields.len() implies identifier_error(
            (#[trigger] fields[i]).name@,
        ) is None && field_definition_error(fields[i]) is None by {
            lemma_first_some_none_prefix(f, fields.len(), i);
            assert(f(i) is None);
        }
        assert forall|i: int, j: int| 0 <= i < j < fields.len() implies (#[trigger] fields[i]).name@
            != (#[trigger] fields[j]).name@ by {
            lemma_first_some_none_prefix(f, fields.len(), j);
            assert(f(j) is None);
        }
    }
    if fields_valid(fields) {
        assert forall|i: int| 0 <= i < fields.len() implies #[trigger] f(i) is None by {
            assert(identifier_error(fields[i].name@) is None);
            assert(field_definition_error(fields[i]) is None);
            assert(!exists|j: int| 0 <= j < i && #[trigger] fields[j].name@ == fields[i].name@);
        }
        lemma_first_some_none(f, fields.len());
    }
}

/// A schema passes exactly when the fields of each of its namespaces,
/// `rec`, `ext` and `calc`, are valid; when it fails, the error is the
/// first error of the first namespace, in that order, whose fields are not
/// valid.
pub proof fn law_schema_valid(schema: DomainSchema)
    ensures
        schema_error(schema) is None <==> fields_valid(schema.namespaces.rec@) && fields_valid(
            schema.namespaces.ext@,
        ) && fields_valid(schema.namespaces.calc@),
        !fields_valid(schema.namespaces.rec@) ==> schema_error(schema) == namespace_error(
            "rec"@,
            schema.namespaces.rec@,
        ),
        fields_valid(schema.namespaces.rec@) && !fields_valid(schema.namespaces.ext@) ==> schema_error(
            schema,
        ) == namespace_error("ext"@, schema.namespaces.ext@),
        fields_valid(schema.namespaces.rec@) && fields_valid(schema.namespaces.ext@) && !fields_valid(
            schema.namespaces.calc@,
        ) ==> schema_error(schema) == namespace_error("calc"@, schema.namespaces.calc@),
{
    reveal_strlit("sys");
    reveal_strlit("rec");
    reveal_strlit("ext");
    reveal_strlit("calc");
    assert("rec"@[0] != "sys"@[0]);
    assert("ext"@[0] != "sys"@[0]);
    assert("calc"@[0] != "sys"@[0]);
    law_namespace_valid("rec"@, schema.namespaces.rec@);
    law_namespace_valid("ext"@, schema.namespaces.ext@);
    law_namespace_valid("calc"@, schema.namespaces.calc@);
}

/// An identifier is valid exactly when it is not empty, does not start
/// with a digit, and every character is an ASCII letter, an ASCII digit or
/// `_`.
pub proof fn law_identifier_valid(v: Seq<char>)
    ensures
        identifier_error(v) is None <==> v.len() > 0 && !('0' <= v[0] <= '9') && forall|i: int|
            0 <= i < v.len() ==> ('0' <= #[trigger] v[i] <= '9') || ('a' <= v[i] <= 'z') || ('A' <= v[i]
                <= 'Z') || v[i] == '_',
{
    if identifier_error(v) is None {
        assert forall|i: int| 0 <= i < v.len() implies ('0' <= #[trigger] v[i] <= '9') || ('a' <= v[i]
            <= 'z') || ('A' <= v[i] <= 'Z') || v[i] == '_' by {
            assert(is_word_char(v[i]));
        }
    }
}

} // verus!
