//! A compact typed catalogue: record fields and their types, namespace
//! categories with per-category field types, and self-contained guards
//! over a context and a history.
use vstd::prelude::*;

use crate::error::{concat3, concat5};
use crate::text::{
    char_index, find_char, first_some, is_ascii_digit, is_ascii_digit_spec,
    lemma_char_index_bounds, lemma_first_some_stable, slice_chars,
};
use crate::json::{
    as_u64_v, lemma_key_index_absent, lemma_key_index_found, lookup, str_eq, JsonV, JsonValue,
};
use crate::manifest::map_insert;
use crate::types::{ContextMap, VpeEvent};

verus! {

/// The type of a field.  Date-times are Unix seconds, durations seconds.
#[derive(Clone, Debug, PartialEq)]
pub enum VpeType {
    String,
    Number,
    Boolean,
    DateTime,
    Duration,
    Enum(Vec<String>),
}

/// A typed field.
#[derive(Clone, Debug)]
pub struct FieldDefinition {
    pub name: String,
    pub data_type: VpeType,
    pub description: Option<String>,
}

/// The fields of one version of a domain, keyed by field name; a name
/// occurs once.
#[derive(Clone, Debug)]
pub struct SchemaDefinition {
    pub domain: String,
    pub version: String,
    pub fields: Vec<(String, FieldDefinition)>,
}

pub open spec fn field_keys(fields: Seq<(String, FieldDefinition)>) -> Seq<(Seq<char>, VpeType)> {
    fields.map_values(|e: (String, FieldDefinition)| (e.0@, e.1.data_type))
}

/// The keys of the fields, in order.
pub open spec fn field_names(fields: Seq<(String, FieldDefinition)>) -> Seq<Seq<char>> {
    fields.map_values(|e: (String, FieldDefinition)| e.0@)
}

/// `path` without its `rec.` prefix, when it has one.
pub open spec fn strip_rec(path: Seq<char>) -> Seq<char> {
    if path.len() >= 4 && path.take(4) == "rec."@ {
        path.skip(4)
    } else {
        path
    }
}

impl SchemaDefinition {
    /// No field name occurs twice.
    pub open spec fn well_formed(&self) -> bool {
        field_names(self.fields@).no_duplicates()
    }

    /// A schema version without fields.
    pub fn new(domain: &str, version: &str) -> (r: SchemaDefinition)
        ensures
            r.domain@ == domain@,
            r.version@ == version@,
            r.fields@.len() == 0,
            r.well_formed(),
    {
        let r = SchemaDefinition { domain: domain.to_owned(), version: version.to_owned(), fields: Vec::new() };
        assert(field_names(r.fields@) =~= Seq::<Seq<char>>::empty());
        r
    }

    /// Stores `def` under `name`, in place of any field stored under it.
    pub fn insert_field(&mut self, name: String, def: FieldDefinition)
        ensures
            field_keys(final(self).fields@) == map_insert(
                field_keys(old(self).fields@),
                name@,
                def.data_type,
            ),
            old(self).well_formed() ==> final(self).well_formed(),
            final(self).domain == old(self).domain,
            final(self).version == old(self).version,
    {
        let ghost keys = field_keys(self.fields@);
        let ghost names = field_names(self.fields@);
        let ghost nv = name@;
        let ghost tv = def.data_type;
        let mut i: usize = 0;
        while i < self.fields.len()
            invariant
                i <= self.fields@.len(),
                keys == field_keys(self.fields@),
                names == field_names(self.fields@),
                nv == name@,
                forall|j: int| 0 <= j < i ==> #[trigger] keys[j].0 != name@,
            ensures
                i <= self.fields@.len(),
                i < self.fields@.len() ==> keys[i as int].0 == nv,
                forall|j: int| 0 <= j < i ==> #[trigger] keys[j].0 != nv,
            decreases self.fields@.len() - i,
        {
            assert(keys[i as int].0 == self.fields@[i as int].0@);
            if str_eq(self.fields[i].0.as_str(), name.as_str()) {
                break;
            }
            i = i + 1;
        }
        if i < self.fields.len() {
            proof {
                assert(keys[i as int].0 == self.fields@[i as int].0@);
                lemma_key_index_found(keys, nv, i as int);
            }
            self.fields.set(i, (name, def));
            assert(field_keys(self.fields@) =~= keys.update(i as int, (nv, tv)));
            assert(field_names(self.fields@) =~= names.update(i as int, nv));
            assert(names[i as int] == nv);
            assert(names.update(i as int, nv) =~= names);
        } else {
            proof {
                lemma_key_index_absent(keys, nv);
            }
            self.fields.push((name, def));
            assert(field_keys(self.fields@) =~= keys.push((nv, tv)));
            assert(field_names(self.fields@) =~= names.push(nv));
            proof {
                assert forall|j: int| 0 <= j < names.len() implies #[trigger] names[j] != nv by {
                    assert(names[j] == keys[j].0);
                }
            }
        }
    }

    /// The type of the record field `path` names, with or without its
    /// `rec.` prefix.
    pub fn resolve_rec_type(&self, path: &str) -> (r: Option<&VpeType>)
        ensures
            match r {
                Some(t) => lookup(field_keys(self.fields@), strip_rec(path@)) == Some(*t),
                None => lookup(field_keys(self.fields@), strip_rec(path@)) is None,
            },
    {
        let prefix = "rec.";
        proof {
            reveal_strlit("rec.");
        }
        let n = path.unicode_len();
        let clean: &str = if n >= 4 && str_eq(path.substring_char(0, 4), prefix) {
            path.substring_char(4, n)
        } else {
            path
        };
        proof {
            if n >= 4 {
                assert(path@.subrange(0, 4) == path@.take(4));
                assert(path@.subrange(4, n as int) == path@.skip(4));
            }
        }
        assert(clean@ == strip_rec(path@));
        let ghost keys = field_keys(self.fields@);
        let mut i: usize = 0;
        while i < self.fields.len()
            invariant
                i <= self.fields@.len(),
                keys == field_keys(self.fields@),
                clean@ == strip_rec(path@),
                forall|j: int| 0 <= j < i ==> #[trigger] keys[j].0 != clean@,
            decreases self.fields@.len() - i,
        {
            assert(keys[i as int] == (self.fields@[i as int].0@, self.fields@[i as int].1.data_type));
            if str_eq(self.fields[i].0.as_str(), clean) {
                proof {
                    lemma_key_index_found(keys, clean@, i as int);
                }
                return Some(&self.fields[i].1.data_type);
            }
            i = i + 1;
        }
        proof {
            lemma_key_index_absent(keys, clean@);
        }
        None
    }
}

/// The type of a catalogued field.
#[derive(Clone, Copy, Debug, PartialEq, Eq, Structural)]
pub enum DataType {
    String,
    Number,
    Bool,
}

pub open spec fn data_type_name(t: DataType) -> Seq<char> {
    match t {
        DataType::String => "String"@,
        DataType::Number => "Number"@,
        DataType::Bool => "Boolean"@,
    }
}

impl DataType {
    /// Whether a JSON value is of this type.
    pub fn matches(&self, value: &JsonValue) -> (r: bool)
        ensures
            r == match *self {
                DataType::String => value@ is String,
                DataType::Number => value@ is Number,
                DataType::Bool => value@ is Bool,
            },
    {
        match self {
            DataType::String => value.is_string(),
            DataType::Number => value.is_number(),
            DataType::Bool => value.is_boolean(),
        }
    }

    /// The type's name.
    pub fn as_str(&self) -> (r: &'static str)
        ensures
            r@ == data_type_name(*self),
    {
        match self {
            DataType::String => "String",
            DataType::Number => "Number",
            DataType::Bool => "Boolean",
        }
    }
}

/// The namespaces of a context: `sys` is built in, the others take
/// catalogued fields.
#[derive(Clone, Copy, Debug, PartialEq, Eq, Structural)]
pub enum NamespaceCategory {
    System,
    Record,
    External,
    Calc,
}

impl NamespaceCategory {
    /// The category a key prefix names.
    pub fn from_prefix(prefix: &str) -> (r: Result<NamespaceCategory, String>)
        ensures
            match r {
                Ok(c) => (prefix@ == "sys"@ && c == NamespaceCategory::System) || (prefix@ == "rec"@
                    && c == NamespaceCategory::Record) || (prefix@ == "ext"@ && c
                    == NamespaceCategory::External) || (prefix@ == "calc"@ && c
                    == NamespaceCategory::Calc),
                Err(m) => prefix@ != "sys"@ && prefix@ != "rec"@ && prefix@ != "ext"@ && prefix@
                    != "calc"@ && m@ == "Unknown namespace prefix: '"@ + prefix@ + "'"@,
            },
    {
        if str_eq(prefix, "sys") {
            Ok(NamespaceCategory::System)
        } else if str_eq(prefix, "rec") {
            Ok(NamespaceCategory::Record)
        } else if str_eq(prefix, "ext") {
            Ok(NamespaceCategory::External)
        } else if str_eq(prefix, "calc") {
            Ok(NamespaceCategory::Calc)
        } else {
            Err(concat3("Unknown namespace prefix: '", prefix, "'"))
        }
    }
}

/// A catalogue of field types by namespace category; a category and field
/// name occur together once.
#[derive(Debug)]
pub struct DomainSchema {
    pub name: String,
    pub registry: Vec<(NamespaceCategory, String, DataType)>,
}

pub open spec fn catalogue_keys(reg: Seq<(NamespaceCategory, String, DataType)>) -> Seq<
    (NamespaceCategory, Seq<char>, DataType),
> {
    reg.map_values(|e: (NamespaceCategory, String, DataType)| (e.0, e.1@, e.2))
}

/// The position of the entry for `field` in `category`, or the length.
pub open spec fn entry_index(
    reg: Seq<(NamespaceCategory, Seq<char>, DataType)>,
    category: NamespaceCategory,
    field: Seq<char>,
) -> int
    decreases reg.len(),
{
    if reg.len() == 0 {
        0
    } else if reg[0].0 == category && reg[0].1 == field {
        0
    } else {
        1 + entry_index(reg.drop_first(), category, field)
    }
}

/// The type stored for `field` in `category`.
pub open spec fn definition(
    reg: Seq<(NamespaceCategory, Seq<char>, DataType)>,
    category: NamespaceCategory,
    field: Seq<char>,
) -> Option<DataType> {
    let i = entry_index(reg, category, field);
    if 0 <= i < reg.len() {
        Some(reg[i].2)
    } else {
        None
    }
}

proof fn lemma_entry_index(
    reg: Seq<(NamespaceCategory, Seq<char>, DataType)>,
    category: NamespaceCategory,
    field: Seq<char>,
)
    ensures
        0 <= entry_index(reg, category, field) <= reg.len(),
        entry_index(reg, category, field) < reg.len() ==> reg[entry_index(reg, category, field)].0
            == category && reg[entry_index(reg, category, field)].1 == field,
        forall|j: int|
            0 <= j < entry_index(reg, category, field) ==> !((#[trigger] reg[j]).0 == category && reg[j].1
                == field),
    decreases reg.len(),
{
    if reg.len() > 0 {
        lemma_entry_index(reg.drop_first(), category, field);
        assert forall|j: int|
            0 <= j < entry_index(reg, category, field) implies !((#[trigger] reg[j]).0 == category
            && reg[j].1 == field) by {
            if j > 0 {
                assert(reg[j] == reg.drop_first()[j - 1]);
            }
        }
        let i = entry_index(reg, category, field);
        if 0 < i < reg.len() {
            assert(reg[i] == reg.drop_first()[i - 1]);
        }
    }
}

proof fn lemma_entry_index_is(
    reg: Seq<(NamespaceCategory, Seq<char>, DataType)>,
    category: NamespaceCategory,
    field: Seq<char>,
    i: int,
)
    requires
        0 <= i <= reg.len(),
        i < reg.len() ==> reg[i].0 == category && reg[i].1 == field,
        forall|j: int| 0 <= j < i ==> !((#[trigger] reg[j]).0 == category && reg[j].1 == field),
    ensures
        entry_index(reg, category, field) == i,
    decreases i,
{
    if i > 0 {
        assert forall|j: int| 0 <= j < i - 1 implies !((#[trigger] reg.drop_first()[j]).0 == category
            && reg.drop_first()[j].1 == field) by {
            assert(reg.drop_first()[j] == reg[j + 1]);
        }
        if i < reg.len() {
            assert(reg.drop_first()[i - 1] == reg[i]);
        }
        lemma_entry_index_is(reg.drop_first(), category, field, i - 1);
    }
}

impl DomainSchema {
    /// A category and field name occur together once, and no entry lies in
    /// the `sys` namespace.
    pub open spec fn well_formed(&self) -> bool {
        let keys = catalogue_keys(self.registry@);
        &&& forall|i: int, j: int|
            0 <= i < j < keys.len() ==> !(#[trigger] keys[i].0 == #[trigger] keys[j].0 && keys[i].1 == keys[j].1)
        &&& forall|i: int| 0 <= i < keys.len() ==> (#[trigger] keys[i]).0 != NamespaceCategory::System
    }

    pub fn new(name: &str) -> (r: DomainSchema)
        ensures
            r.name@ == name@,
            r.registry@.len() == 0,
            r.well_formed(),
    {
        DomainSchema { name: name.to_owned(), registry: Vec::new() }
    }

    fn find_entry(&self, category: NamespaceCategory, field: &str) -> (r: usize)
        ensures
            r == entry_index(catalogue_keys(self.registry@), category, field@),
    {
        let ghost keys = catalogue_keys(self.registry@);
        let mut i: usize = 0;
        while i < self.registry.len()
            invariant
                i <= self.registry@.len(),
                keys == catalogue_keys(self.registry@),
                forall|j: int| 0 <= j < i ==> !((#[trigger] keys[j]).0 == category && keys[j].1 == field@),
            decreases self.registry@.len() - i,
        {
            assert(keys[i as int] == (
                self.registry@[i as int].0,
                self.registry@[i as int].1@,
                self.registry@[i as int].2,
            ));
            if self.registry[i].0 == category && str_eq(self.registry[i].1.as_str(), field) {
                proof {
                    lemma_entry_index_is(keys, category, field@, i as int);
                }
                return i;
            }
            i = i + 1;
        }
        proof {
            lemma_entry_index_is(keys, category, field@, i as int);
        }
        i
    }

    /// Stores the type of `field` in `category`, in place of any type
    /// stored for it before; the `sys` namespace takes no fields.
    pub fn add_definition(&mut self, category: NamespaceCategory, field: &str, dtype: DataType) -> (r:
        Result<(), String>)
        ensures
            match r {
                Ok(()) => category != NamespaceCategory::System,
                Err(m) => category == NamespaceCategory::System && m@
                    == "Cannot add custom fields to the 'sys' namespace."@ && final(self).registry@
                    == old(self).registry@,
            },
            final(self).name@ == old(self).name@,
            old(self).well_formed() ==> final(self).well_formed(),
            forall|c: NamespaceCategory, f: Seq<char>|
                #[trigger] definition(catalogue_keys(final(self).registry@), c, f) == if category
                    != NamespaceCategory::System && c == category && f == field@ {
                    Some(dtype)
                } else {
                    definition(catalogue_keys(old(self).registry@), c, f)
                },
    {
        if category == NamespaceCategory::System {
            return Err(String::from_str("Cannot add custom fields to the 'sys' namespace."));
        }
        let ghost old_keys = catalogue_keys(self.registry@);
        let i = self.find_entry(category, field);
        proof {
            lemma_entry_index(old_keys, category, field@);
        }
        let entry = (category, field.to_owned(), dtype);
        let ghost ev = (category, field@, dtype);
        if i < self.registry.len() {
            self.registry.set(i, entry);
            assert(catalogue_keys(self.registry@) =~= old_keys.update(i as int, ev));
        } else {
            self.registry.push(entry);
            assert(catalogue_keys(self.registry@) =~= old_keys.push(ev));
        }
        let ghost new_keys = catalogue_keys(self.registry@);
        assert forall|c: NamespaceCategory, f: Seq<char>|
            #[trigger] definition(new_keys, c, f) == if c == category && f == field@ {
                Some(dtype)
            } else {
                definition(old_keys, c, f)
            } by {
            lemma_entry_index(old_keys, c, f);
            if c == category && f == field@ {
                lemma_entry_index_is(new_keys, c, f, i as int);
            } else {
                let k = entry_index(old_keys, c, f);
                assert forall|j: int| 0 <= j < k implies !((#[trigger] new_keys[j]).0 == c && new_keys[j].1 == f) by {
                    if j != i {
                        assert(new_keys[j] == old_keys[j]);
                    }
                }
                if k < old_keys.len() {
                    assert(new_keys[k] == old_keys[k]);
                    lemma_entry_index_is(new_keys, c, f, k);
                } else {
                    if i == old_keys.len() {
                        assert(new_keys[k] == ev);
                    }
                    assert(k == old_keys.len());
                    if k < new_keys.len() {
                        assert(new_keys[k] == ev);
                        assert(!(new_keys[k].0 == c && new_keys[k].1 == f));
                        assert forall|j: int| 0 <= j < new_keys.len() implies !((#[trigger] new_keys[j]).0 == c
                            && new_keys[j].1 == f) by {
                            if j < k {
                            }
                        }
                    }
                    lemma_entry_index_is(new_keys, c, f, new_keys.len() as int);
                }
            }
        }
        Ok(())
    }
}

/// A piece of history a guard needs.
#[derive(Clone, Debug, PartialEq)]
pub enum HistoryRequirement {
    /// The latest transition, which anchors every turn.
    LastTransition,
    /// The latest event of an action.
    LastEventOfAction(String),
    /// The events of an action within a window of seconds.
    EventsInWindow { action: String, duration_seconds: u64 },
    /// The history of one field.
    FieldTrajectory(String),
}

/// What a state needs from the history.
#[derive(Debug)]
pub struct StateManifest {
    pub required_history: Vec<HistoryRequirement>,
}

/// The errors of the catalogue and its engine.
#[derive(Debug)]
pub enum VpeError {
    CompilerError(String),
    RuntimeError(String),
    ProcessNotFound,
    LockError,
    SchemaMismatch(String),
}

/// The unsigned integer at `key` of the context, 0 when absent or not one.
pub open spec fn context_u64(ctx: Seq<(Seq<char>, JsonV)>, key: Seq<char>) -> u64 {
    match lookup(ctx, key) {
        Some(v) => match as_u64_v(v) {
            Some(n) => n,
            None => 0,
        },
        None => 0,
    }
}

fn context_u64_exec(context: &ContextMap, key: &str) -> (r: u64)
    ensures
        r == context_u64(context@, key@),
{
    match context.get(key) {
        Some(v) => match v.as_u64() {
            Some(n) => n,
            None => 0,
        },
        None => 0,
    }
}

/// Passes when the date at `path` lies before the date at `compare_to`
/// (both Unix seconds, 0 when absent).
#[derive(Debug)]
pub struct DateAfterGuard {
    pub path: String,
    pub compare_to: String,
}

impl DateAfterGuard {
    pub fn check(&self, context: &ContextMap, history: &[VpeEvent]) -> (r: bool)
        ensures
            r == (context_u64(context@, self.path@) < context_u64(context@, self.compare_to@)),
    {
        let field_val = context_u64_exec(context, self.path.as_str());
        let now_val = context_u64_exec(context, self.compare_to.as_str());
        field_val < now_val
    }

    /// The guard reads no history.
    pub fn get_requirements(&self) -> (r: Vec<HistoryRequirement>)
        ensures
            r@.len() == 0,
    {
        Vec::new()
    }
}

/// Passes when an event of `target_action` lies at most `window_seconds`
/// before the latest event.
#[derive(Debug)]
pub struct OccurredWithinGuard {
    pub target_action: String,
    pub window_seconds: u64,
}

/// Whether some event of `target` lies at most `window_seconds` before the
/// latest event.
pub open spec fn occurred_within(target: Seq<char>, window_seconds: u64, hist: Seq<VpeEvent>) -> bool {
    hist.len() > 0 && exists|i: int|
        0 <= i < hist.len() && (#[trigger] hist[i]).action@ == target && hist.last().timestamp
            - hist[i].timestamp <= window_seconds
}

impl OccurredWithinGuard {
    pub fn check(&self, context: &ContextMap, history: &[VpeEvent]) -> (r: bool)
        ensures
            r == occurred_within(self.target_action@, self.window_seconds, history@),
    {
        let n = history.len();
        if n == 0 {
            return false;
        }
        let now = history[n - 1].timestamp;
        let mut i: usize = n;
        while i > 0
            invariant
                i <= n == history@.len(),
                n > 0,
                now == history@.last().timestamp,
                forall|j: int|
                    i <= j < n ==> !((#[trigger] history@[j]).action@ == self.target_action@ && now
                        - history@[j].timestamp <= self.window_seconds),
            decreases i,
        {
            let e = &history[i - 1];
            if e.action == self.target_action && now as i128 - e.timestamp as i128 <= self.window_seconds as i128 {
                return true;
            }
            i = i - 1;
        }
        false
    }

    /// The guard reads the latest event of its action.
    pub fn get_requirements(&self) -> (r: Vec<HistoryRequirement>)
        ensures
            r@.len() == 1,
            r@[0] matches HistoryRequirement::LastEventOfAction(a) && a@ == self.target_action@,
    {
        vec![HistoryRequirement::LastEventOfAction(self.target_action.clone())]
    }
}

/// Passes when at least `seconds` lie between the latest event and
/// `sys.now` (0 when absent).
#[derive(Debug)]
pub struct TimeElapsedGuard {
    pub seconds: u64,
}

/// The timestamp of the latest event, 0 when there is none.
pub open spec fn latest_timestamp(hist: Seq<VpeEvent>) -> int {
    if hist.len() == 0 {
        0
    } else {
        hist.last().timestamp as int
    }
}

impl TimeElapsedGuard {
    pub fn check(&self, context: &ContextMap, history: &[VpeEvent]) -> (r: bool)
        ensures
            r == (context_u64(context@, "sys.now"@) - latest_timestamp(history@) >= self.seconds),
    {
        let now = context_u64_exec(context, "sys.now");
        let last_time: i64 = if history.len() == 0 {
            0
        } else {
            history[history.len() - 1].timestamp
        };
        now as i128 - last_time as i128 >= self.seconds as i128
    }

    /// The guard reads the latest transition.
    pub fn get_requirements(&self) -> (r: Vec<HistoryRequirement>)
        ensures
            r@ == seq![HistoryRequirement::LastTransition],
    {
        vec![HistoryRequirement::LastTransition]
    }
}

/// Whether `c` is alphabetic or numeric in the Unicode sense.
pub uninterp spec fn alphanumeric(c: char) -> bool;

/// Calls `char::is_alphanumeric`, whose result is a function of `c` alone
/// (the Unicode `Alphabetic` or numeric properties); which characters
/// have them is not stated here.
#[verifier::external_body]
fn char_is_alphanumeric(c: char) -> (r: bool)
    ensures
        r == alphanumeric(c),
{
    c.is_alphanumeric()
}

/// A name segment: not empty, not starting with an ASCII digit, and made of
/// alphanumeric characters and `_`.
pub open spec fn valid_identifier(s: Seq<char>) -> bool {
    &&& s.len() > 0
    &&& !is_ascii_digit_spec(s[0])
    &&& forall|i: int| 0 <= i < s.len() ==> alphanumeric(#[trigger] s[i]) || s[i] == '_'
}

/// Whether `s` is a valid name segment.
pub fn is_valid_identifier(s: &str) -> (r: bool)
    ensures
        r == valid_identifier(s@),
{
    let n = s.unicode_len();
    if n == 0 {
        return false;
    }
    let mut i: usize = 0;
    while i < n
        invariant
            n == s@.len(),
            i <= n,
            forall|j: int| 0 <= j < i ==> alphanumeric(#[trigger] s@[j]) || s@[j] == '_',
        decreases n - i,
    {
        let c = s.get_char(i);
        if !(char_is_alphanumeric(c) || c == '_') {
            return false;
        }
        i = i + 1;
    }
    !is_ascii_digit(s.get_char(0))
}

/// The segments of `s` between its dots.
pub open spec fn dot_segments(s: Seq<char>) -> Seq<Seq<char>>
    decreases s.len(),
{
    let i = char_index(s, '.');
    if i >= s.len() {
        seq![s]
    } else {
        proof {
            lemma_char_index_bounds(s, '.');
        }
        seq![s.take(i)] + dot_segments(s.skip(i + 1))
    }
}

pub open spec fn segment_errors(full: Seq<char>, parts: Seq<Seq<char>>) -> spec_fn(int) -> Option<
    Seq<char>,
> {
    |k: int|
        if valid_identifier(parts[k]) {
            None
        } else {
            Some(
                "Invalid Identifier segment '"@ + parts[k] + "' in path '"@ + full
                    + "'. Only alphanumeric and underscores allowed."@,
            )
        }
}

/// What is wrong with a dotted path: no dot at all, or the first segment
/// that is not a valid name.
pub open spec fn structure_error(full: Seq<char>) -> Option<Seq<char>> {
    let parts = dot_segments(full);
    if parts.len() < 2 {
        Some("Identifier '"@ + full + "' must use dot-notation (e.g., rec.id)"@)
    } else {
        first_some(segment_errors(full, parts), parts.len())
    }
}

proof fn lemma_dot_segments_len(s: Seq<char>)
    ensures
        dot_segments(s).len() >= 1,
        (dot_segments(s).len() >= 2) <==> char_index(s, '.') < s.len(),
    decreases s.len(),
{
    lemma_char_index_bounds(s, '.');
    let i = char_index(s, '.');
    if i < s.len() {
        lemma_dot_segments_len(s.skip(i + 1));
    }
}

/// Checks that a path is made of at least two dotted segments, each a
/// valid name.
pub fn validate_identifier_structure(full_path: &str) -> (r: Result<(), String>)
    ensures
        match r {
            Ok(()) => structure_error(full_path@) is None,
            Err(m) => structure_error(full_path@) == Some(m@),
        },
{
    let n = full_path.unicode_len();
    let ghost full = full_path@;
    let ghost parts = dot_segments(full);
    proof {
        lemma_dot_segments_len(full);
    }
    if find_char(full_path, '.') >= n {
        return Err(concat3("Identifier '", full_path, "' must use dot-notation (e.g., rec.id)"));
    }
    let ghost f = segment_errors(full, parts);
    let ghost mut done: Seq<Seq<char>> = Seq::empty();
    let mut start: usize = 0;
    proof {
        assert(full.skip(0) =~= full);
    }
    loop
        invariant
            n == full.len(),
            full == full_path@,
            parts == dot_segments(full),
            parts.len() >= 2,
            f == segment_errors(full, parts),
            start <= n,
            parts == done + dot_segments(full.skip(start as int)),
            first_some(f, done.len()) is None,
        decreases n - start,
    {
        let rest = slice_chars(full_path, start, n);
        assert(rest@ == full.skip(start as int));
        let d = find_char(rest.as_str(), '.');
        let end = start + d;
        let seg = slice_chars(full_path, start, end);
        let ghost tail = dot_segments(rest@);
        proof {
            lemma_char_index_bounds(rest@, '.');
            assert(seg@ == rest@.take(d as int));
            assert(tail[0] == seg@);
            assert(parts[done.len() as int] == seg@);
        }
        if !is_valid_identifier(seg.as_str()) {
            proof {
                lemma_first_some_stable(f, (done.len() + 1) as nat, parts.len());
            }
            return Err(
                concat5(
                    "Invalid Identifier segment '",
                    seg.as_str(),
                    "' in path '",
                    full_path,
                    "'. Only alphanumeric and underscores allowed.",
                ),
            );
        }
        if end == n {
            proof {
                assert(tail.len() == 1);
                assert(parts.len() == done.len() + 1);
            }
            return Ok(());
        }
        proof {
            assert(rest@.skip(d + 1) =~= full.skip(end + 1));
            assert(parts =~= done.push(seg@) + dot_segments(full.skip(end + 1)));
            done = done.push(seg@);
        }
        start = end + 1;
    }
}

} // verus!
