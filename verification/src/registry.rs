//! Guards: the built-in conditions a transition may require, the factories
//! that build them from authored parameters, and the registry that maps
//! guard types to factories.
use vstd::prelude::*;

use crate::error::{VpeError, VpeErrorV};
use crate::json::{
    as_array_v, as_i64_v, as_str_v, as_u64_v, copy_json, json_eq, json_equal, json_seq_view,
    key_index, lemma_json_seq_view, lemma_key_index_absent, lemma_key_index_bounds,
    lemma_key_index_found, lookup, str_eq, JsonMap, JsonNumber, JsonV, JsonValue,
};
use crate::number::number_order;
use crate::types::{
    ContextMap, ContextRequirement, ContextRequirementV, GuardRequirements, GuardRequirementsV,
    HistoryRequirement, HistoryRequirementV, VpeEvent,
};

verus! {

/// A guard: a condition on the context and the history.
#[derive(Debug)]
pub enum Guard {
    /// Always passes.
    Default,
    /// The numeric field at `path` is greater than `value`.
    GreaterThan { path: String, value: JsonNumber },
    /// The field at `path` equals `value`.
    Equals { path: String, value: JsonValue },
    /// An event of `target_action` lies at most `window_seconds` before the
    /// latest event.
    OccurredWithin { target_action: String, window_seconds: u64 },
    /// At least `seconds` have passed between the latest event and `sys.now`.
    TimeElapsed { seconds: u64 },
    /// The fields at the two paths are present and equal.
    FieldsEqual { left_path: String, right_path: String },
    /// The field at `path` is present and not null.
    Exists { path: String },
    /// The field at `path` is absent or null.
    MissingField { path: String },
    /// The field at `path` is present and equals one of `values`.
    InSet { path: String, values: Vec<JsonValue> },
    /// The field at `path` is absent or equals none of `values`.
    NotInSet { path: String, values: Vec<JsonValue> },
}

pub enum GuardV {
    Default,
    GreaterThan { path: Seq<char>, value: JsonNumber },
    Equals { path: Seq<char>, value: JsonV },
    OccurredWithin { target_action: Seq<char>, window_seconds: u64 },
    TimeElapsed { seconds: u64 },
    FieldsEqual { left_path: Seq<char>, right_path: Seq<char> },
    Exists { path: Seq<char> },
    MissingField { path: Seq<char> },
    InSet { path: Seq<char>, values: Seq<JsonV> },
    NotInSet { path: Seq<char>, values: Seq<JsonV> },
}

impl View for Guard {
    type V = GuardV;

    open spec fn view(&self) -> GuardV {
        match self {
            Guard::Default => GuardV::Default,
            Guard::GreaterThan { path, value } => GuardV::GreaterThan { path: path@, value: *value },
            Guard::Equals { path, value } => GuardV::Equals { path: path@, value: value@ },
            Guard::OccurredWithin { target_action, window_seconds } => GuardV::OccurredWithin {
                target_action: target_action@,
                window_seconds: *window_seconds,
            },
            Guard::TimeElapsed { seconds } => GuardV::TimeElapsed { seconds: *seconds },
            Guard::FieldsEqual { left_path, right_path } => GuardV::FieldsEqual {
                left_path: left_path@,
                right_path: right_path@,
            },
            Guard::Exists { path } => GuardV::Exists { path: path@ },
            Guard::MissingField { path } => GuardV::MissingField { path: path@ },
            Guard::InSet { path, values } => GuardV::InSet {
                path: path@,
                values: json_seq_view(values@),
            },
            Guard::NotInSet { path, values } => GuardV::NotInSet {
                path: path@,
                values: json_seq_view(values@),
            },
        }
    }
}

pub open spec fn fits_i64(x: int) -> bool {
    i64::MIN <= x <= i64::MAX
}

/// The scan of `OccurredWithin` over `hist[0..i]`, latest first: `None`
/// where a difference of timestamps leaves `i64`.
pub open spec fn occurred_scan(
    target: Seq<char>,
    window: i64,
    now: i64,
    hist: Seq<VpeEvent>,
    i: int,
) -> Option<bool>
    decreases i,
{
    if i <= 0 {
        Some(false)
    } else if hist[i - 1].action@ == target {
        let d = now - hist[i - 1].timestamp;
        if !fits_i64(d) {
            None
        } else if d <= window {
            Some(true)
        } else {
            occurred_scan(target, window, now, hist, i - 1)
        }
    } else {
        occurred_scan(target, window, now, hist, i - 1)
    }
}

/// `sys.now` as a signed integer, 0 when absent or not an integer.
pub open spec fn context_now(ctx: Seq<(Seq<char>, JsonV)>) -> i64 {
    match lookup(ctx, "sys.now"@) {
        Some(v) => match as_i64_v(v) {
            Some(n) => n,
            None => 0,
        },
        None => 0,
    }
}

/// The timestamp of the latest event, 0 when there is none.
pub open spec fn last_timestamp(hist: Seq<VpeEvent>) -> i64 {
    if hist.len() == 0 {
        0
    } else {
        hist.last().timestamp
    }
}

/// Whether one of `values` equals `actual`.
pub open spec fn json_member(values: Seq<JsonV>, actual: JsonV) -> bool {
    exists|i: int| 0 <= i < values.len() && json_eq(#[trigger] values[i], actual)
}

/// The outcome of a guard on a context and a history: `Some` of whether it
/// passes, or `None` where the check's `i64` arithmetic would overflow.
pub open spec fn guard_outcome(g: GuardV, ctx: Seq<(Seq<char>, JsonV)>, hist: Seq<VpeEvent>) -> Option<
    bool,
> {
    match g {
        GuardV::Default => Some(true),
        GuardV::GreaterThan { path, value } => match lookup(ctx, path) {
            Some(JsonV::Number(a)) => Some(number_order(a) > number_order(value)),
            _ => Some(false),
        },
        GuardV::Equals { path, value } => match lookup(ctx, path) {
            Some(v) => Some(json_eq(v, value)),
            None => Some(false),
        },
        GuardV::OccurredWithin { target_action, window_seconds } => if hist.len() == 0 {
            Some(false)
        } else {
            occurred_scan(
                target_action,
                window_seconds as i64,
                hist.last().timestamp,
                hist,
                hist.len() as int,
            )
        },
        GuardV::TimeElapsed { seconds } => {
            let d = context_now(ctx) - last_timestamp(hist);
            if fits_i64(d) {
                Some(d >= seconds as i64)
            } else {
                None
            }
        },
        GuardV::FieldsEqual { left_path, right_path } => match (
            lookup(ctx, left_path),
            lookup(ctx, right_path),
        ) {
            (Some(l), Some(r)) => Some(json_eq(l, r)),
            _ => Some(false),
        },
        GuardV::Exists { path } => match lookup(ctx, path) {
            Some(v) => Some(!(v is Null)),
            None => Some(false),
        },
        GuardV::MissingField { path } => match lookup(ctx, path) {
            Some(v) => Some(v is Null),
            None => Some(true),
        },
        GuardV::InSet { path, values } => match lookup(ctx, path) {
            Some(actual) => Some(json_member(values, actual)),
            None => Some(false),
        },
        GuardV::NotInSet { path, values } => match lookup(ctx, path) {
            Some(actual) => Some(!json_member(values, actual)),
            None => Some(true),
        },
    }
}

/// What a guard reads.
pub open spec fn guard_requirements(g: GuardV) -> GuardRequirementsV {
    match g {
        GuardV::Default => GuardRequirementsV { history: seq![], context: seq![] },
        GuardV::GreaterThan { path, .. } => GuardRequirementsV {
            history: seq![],
            context: seq![ContextRequirementV::Field(path)],
        },
        GuardV::Equals { path, .. } => GuardRequirementsV {
            history: seq![],
            context: seq![ContextRequirementV::Field(path)],
        },
        GuardV::OccurredWithin { target_action, window_seconds } => GuardRequirementsV {
            history: seq![
                HistoryRequirementV::EventsInWindow {
                    action: target_action,
                    duration_seconds: window_seconds,
                },
            ],
            context: seq![],
        },
        GuardV::TimeElapsed { .. } => GuardRequirementsV {
            history: seq![HistoryRequirementV::LastTransition],
            context: seq![ContextRequirementV::SystemField("sys.now"@)],
        },
        GuardV::FieldsEqual { left_path, right_path } => GuardRequirementsV {
            history: seq![],
            context: seq![
                ContextRequirementV::Field(left_path),
                ContextRequirementV::Field(right_path),
            ],
        },
        GuardV::Exists { path } => GuardRequirementsV {
            history: seq![],
            context: seq![ContextRequirementV::Field(path)],
        },
        GuardV::MissingField { path } => GuardRequirementsV {
            history: seq![],
            context: seq![ContextRequirementV::Field(path)],
        },
        GuardV::InSet { path, .. } => GuardRequirementsV {
            history: seq![],
            context: seq![ContextRequirementV::Field(path)],
        },
        GuardV::NotInSet { path, .. } => GuardRequirementsV {
            history: seq![],
            context: seq![ContextRequirementV::Field(path)],
        },
    }
}

/// The name of a guard's type.
pub open spec fn guard_name(g: GuardV) -> Seq<char> {
    match g {
        GuardV::Default => "Default"@,
        GuardV::GreaterThan { .. } => "GreaterThan"@,
        GuardV::Equals { .. } => "Equals"@,
        GuardV::OccurredWithin { .. } => "OccurredWithin"@,
        GuardV::TimeElapsed { .. } => "TimeElapsed"@,
        GuardV::FieldsEqual { .. } => "FieldsEqual"@,
        GuardV::Exists { .. } => "Exists"@,
        GuardV::MissingField { .. } => "MissingField"@,
        GuardV::InSet { .. } => "InSet"@,
        GuardV::NotInSet { .. } => "NotInSet"@,
    }
}

fn occurred_within_check(
    target_action: &String,
    window_seconds: u64,
    history: &[VpeEvent],
) -> (r: bool)
    requires
        history@.len() > 0 ==> occurred_scan(
            target_action@,
            window_seconds as i64,
            history@.last().timestamp,
            history@,
            history@.len() as int,
        ) is Some,
    ensures
        Some(r) == (if history@.len() == 0 {
            Some(false)
        } else {
            occurred_scan(
                target_action@,
                window_seconds as i64,
                history@.last().timestamp,
                history@,
                history@.len() as int,
            )
        }),
{
    let n = history.len();
    if n == 0 {
        return false;
    }
    let now = history[n - 1].timestamp;
    let window = window_seconds as i64;
    let mut i: usize = n;
    while i > 0
        invariant
            i <= n == history@.len(),
            now == history@.last().timestamp,
            window == window_seconds as i64,
            occurred_scan(target_action@, window, now, history@, n as int) == occurred_scan(
                target_action@,
                window,
                now,
                history@,
                i as int,
            ),
            occurred_scan(target_action@, window, now, history@, i as int) is Some,
        decreases i,
    {
        let e = &history[i - 1];
        if e.action == *target_action {
            let d = now as i128 - e.timestamp as i128;
            assert(fits_i64(d as int));
            if (d as i64) <= window {
                return true;
            }
        }
        i = i - 1;
    }
    false
}

fn occurred_within_outcome(
    target_action: &String,
    window_seconds: u64,
    history: &[VpeEvent],
) -> (r: Option<bool>)
    ensures
        r == (if history@.len() == 0 {
            Some(false)
        } else {
            occurred_scan(
                target_action@,
                window_seconds as i64,
                history@.last().timestamp,
                history@,
                history@.len() as int,
            )
        }),
{
    let n = history.len();
    if n == 0 {
        return Some(false);
    }
    let now = history[n - 1].timestamp;
    let window = window_seconds as i64;
    let mut i: usize = n;
    while i > 0
        invariant
            i <= n == history@.len(),
            now == history@.last().timestamp,
            window == window_seconds as i64,
            occurred_scan(target_action@, window, now, history@, n as int) == occurred_scan(
                target_action@,
                window,
                now,
                history@,
                i as int,
            ),
        decreases i,
    {
        let e = &history[i - 1];
        if e.action == *target_action {
            let d = now as i128 - e.timestamp as i128;
            if d < -0x8000_0000_0000_0000i128 || d > 0x7fff_ffff_ffff_ffffi128 {
                return None;
            }
            if (d as i64) <= window {
                return Some(true);
            }
        }
        i = i - 1;
    }
    Some(false)
}

impl Guard {
    /// Whether the guard passes on `context` and `history`.
    pub fn check(&self, context: &ContextMap, history: &[VpeEvent]) -> (r: bool)
        requires
            guard_outcome(self@, context@, history@) is Some,
        ensures
            Some(r) == guard_outcome(self@, context@, history@),
    {
        match self {
            Guard::Default => true,
            Guard::GreaterThan { path, value } => match context.get(path.as_str()) {
                Some(JsonValue::Number(actual)) => actual.greater_than(value),
                _ => false,
            },
            Guard::Equals { path, value } => match context.get(path.as_str()) {
                Some(v) => json_equal(v, value),
                None => false,
            },
            Guard::OccurredWithin { target_action, window_seconds } => occurred_within_check(
                target_action,
                *window_seconds,
                history,
            ),
            Guard::TimeElapsed { seconds } => {
                let now: i64 = match context.get("sys.now") {
                    Some(v) => match v.as_i64() {
                        Some(n) => n,
                        None => 0,
                    },
                    None => 0,
                };
                let last: i64 = if history.len() == 0 {
                    0
                } else {
                    history[history.len() - 1].timestamp
                };
                let d = now as i128 - last as i128;
                (d as i64) >= (#[verifier::truncate] (*seconds as i64))
            },
            Guard::FieldsEqual { left_path, right_path } => match (
                context.get(left_path.as_str()),
                context.get(right_path.as_str()),
            ) {
                (Some(left), Some(right)) => json_equal(left, right),
                _ => false,
            },
            Guard::Exists { path } => match context.get(path.as_str()) {
                Some(v) => !v.is_null(),
                None => false,
            },
            Guard::MissingField { path } => match context.get(path.as_str()) {
                Some(v) => v.is_null(),
                None => true,
            },
            Guard::InSet { path, values } => match context.get(path.as_str()) {
                Some(actual) => {
                    let mut i: usize = 0;
                    proof {
                        lemma_json_seq_view(values@);
                    }
                    while i < values.len()
                        invariant
                            i <= values.len(),
                            self@ == (GuardV::InSet { path: path@, values: json_seq_view(values@) }),
                            lookup(context@, path@) == Some(actual@),
                            json_seq_view(values@).len() == values.len(),
                            forall|j: int|
                                0 <= j < values.len() ==> json_seq_view(values@)[j]
                                    == #[trigger] values@[j]@,
                            forall|j: int|
                                0 <= j < i ==> !json_eq(#[trigger] values@[j]@, actual@),
                        decreases values.len() - i,
                    {
                        if json_equal(&values[i], actual) {
                            assert(json_seq_view(values@)[i as int] == values@[i as int]@);
                            assert(json_eq(json_seq_view(values@)[i as int], actual@));
                            return true;
                        }
                        i = i + 1;
                    }
                    assert forall|j: int|
                        0 <= j < json_seq_view(values@).len() implies !json_eq(
                        #[trigger] json_seq_view(values@)[j],
                        actual@,
                    ) by {
                        assert(json_seq_view(values@)[j] == values@[j]@);
                    }
                    false
                },
                None => false,
            },
            Guard::NotInSet { path, values } => match context.get(path.as_str()) {
                Some(actual) => {
                    let mut i: usize = 0;
                    proof {
                        lemma_json_seq_view(values@);
                    }
                    while i < values.len()
                        invariant
                            i <= values.len(),
                            self@ == (GuardV::NotInSet { path: path@, values: json_seq_view(values@) }),
                            lookup(context@, path@) == Some(actual@),
                            json_seq_view(values@).len() == values.len(),
                            forall|j: int|
                                0 <= j < values.len() ==> json_seq_view(values@)[j]
                                    == #[trigger] values@[j]@,
                            forall|j: int|
                                0 <= j < i ==> !json_eq(#[trigger] values@[j]@, actual@),
                        decreases values.len() - i,
                    {
                        if json_equal(&values[i], actual) {
                            assert(json_seq_view(values@)[i as int] == values@[i as int]@);
                            assert(json_eq(json_seq_view(values@)[i as int], actual@));
                            return false;
                        }
                        i = i + 1;
                    }
                    assert forall|j: int|
                        0 <= j < json_seq_view(values@).len() implies !json_eq(
                        #[trigger] json_seq_view(values@)[j],
                        actual@,
                    ) by {
                        assert(json_seq_view(values@)[j] == values@[j]@);
                    }
                    true
                },
                None => true,
            },
        }
    }

    /// Whether the guard passes on `context` and `history`, or `None` where
    /// its `i64` arithmetic would overflow.
    pub fn outcome(&self, context: &ContextMap, history: &[VpeEvent]) -> (r: Option<bool>)
        ensures
            r == guard_outcome(self@, context@, history@),
    {
        match self {
            Guard::OccurredWithin { target_action, window_seconds } => occurred_within_outcome(
                target_action,
                *window_seconds,
                history,
            ),
            Guard::TimeElapsed { seconds } => {
                let now: i64 = match context.get("sys.now") {
                    Some(v) => match v.as_i64() {
                        Some(n) => n,
                        None => 0,
                    },
                    None => 0,
                };
                let last: i64 = if history.len() == 0 {
                    0
                } else {
                    history[history.len() - 1].timestamp
                };
                let d = now as i128 - last as i128;
                if d < -0x8000_0000_0000_0000i128 || d > 0x7fff_ffff_ffff_ffffi128 {
                    None
                } else {
                    Some(self.check(context, history))
                }
            },
            _ => Some(self.check(context, history)),
        }
    }

    /// What the guard reads.
    pub fn requirements(&self) -> (r: GuardRequirements)
        ensures
            r@ == guard_requirements(self@),
    {
        let r = match self {
            Guard::Default => GuardRequirements { history: vec![], context: vec![] },
            Guard::GreaterThan { path, .. } => GuardRequirements {
                history: vec![],
                context: vec![ContextRequirement::Field(path.clone())],
            },
            Guard::Equals { path, .. } => GuardRequirements {
                history: vec![],
                context: vec![ContextRequirement::Field(path.clone())],
            },
            Guard::OccurredWithin { target_action, window_seconds } => GuardRequirements {
                history: vec![
                    HistoryRequirement::EventsInWindow {
                        action: target_action.clone(),
                        duration_seconds: *window_seconds,
                    },
                ],
                context: vec![],
            },
            Guard::TimeElapsed { .. } => GuardRequirements {
                history: vec![HistoryRequirement::LastTransition],
                context: vec![ContextRequirement::SystemField(String::from_str("sys.now"))],
            },
            Guard::FieldsEqual { left_path, right_path } => GuardRequirements {
                history: vec![],
                context: vec![
                    ContextRequirement::Field(left_path.clone()),
                    ContextRequirement::Field(right_path.clone()),
                ],
            },
            Guard::Exists { path } => GuardRequirements {
                history: vec![],
                context: vec![ContextRequirement::Field(path.clone())],
            },
            Guard::MissingField { path } => GuardRequirements {
                history: vec![],
                context: vec![ContextRequirement::Field(path.clone())],
            },
            Guard::InSet { path, .. } => GuardRequirements {
                history: vec![],
                context: vec![ContextRequirement::Field(path.clone())],
            },
            Guard::NotInSet { path, .. } => GuardRequirements {
                history: vec![],
                context: vec![ContextRequirement::Field(path.clone())],
            },
        };
        assert(r@.history =~= guard_requirements(self@).history);
        assert(r@.context =~= guard_requirements(self@).context);
        r
    }

    /// The name of the guard's type.
    pub fn name(&self) -> (r: &'static str)
        ensures
            r@ == guard_name(self@),
    {
        match self {
            Guard::Default => "Default",
            Guard::GreaterThan { .. } => "GreaterThan",
            Guard::Equals { .. } => "Equals",
            Guard::OccurredWithin { .. } => "OccurredWithin",
            Guard::TimeElapsed { .. } => "TimeElapsed",
            Guard::FieldsEqual { .. } => "FieldsEqual",
            Guard::Exists { .. } => "Exists",
            Guard::MissingField { .. } => "MissingField",
            Guard::InSet { .. } => "InSet",
            Guard::NotInSet { .. } => "NotInSet",
        }
    }
}

/// How a guard is built from its parameters: one kind per built-in guard.
#[derive(Clone, Copy, Debug, PartialEq, Eq, Structural)]
pub enum GuardFactory {
    Default,
    GreaterThan,
    Equals,
    OccurredWithin,
    TimeElapsed,
    FieldsEqual,
    Exists,
    MissingField,
    InSet,
    NotInSet,
}

/// The string parameter `key`, when it is one.
pub open spec fn str_param(params: Seq<(Seq<char>, JsonV)>, key: Seq<char>) -> Option<Seq<char>> {
    match lookup(params, key) {
        Some(v) => as_str_v(v),
        None => None,
    }
}

/// The unsigned integer parameter `key`, when it is one.
pub open spec fn u64_param(params: Seq<(Seq<char>, JsonV)>, key: Seq<char>) -> Option<u64> {
    match lookup(params, key) {
        Some(v) => as_u64_v(v),
        None => None,
    }
}

/// The numeric parameter `key`, when it is one.
pub open spec fn number_param(params: Seq<(Seq<char>, JsonV)>, key: Seq<char>) -> Option<
    JsonNumber,
> {
    match lookup(params, key) {
        Some(JsonV::Number(n)) => Some(n),
        _ => None,
    }
}

/// The array parameter `key`, when it is one.
pub open spec fn array_param(params: Seq<(Seq<char>, JsonV)>, key: Seq<char>) -> Option<
    Seq<JsonV>,
> {
    match lookup(params, key) {
        Some(v) => as_array_v(v),
        None => None,
    }
}

/// What a factory builds from `params`: the guard, or the message of the
/// parameter it misses.
pub open spec fn build_result(f: GuardFactory, params: Seq<(Seq<char>, JsonV)>) -> Result<
    GuardV,
    Seq<char>,
> {
    match f {
        GuardFactory::Default => Ok(GuardV::Default),
        GuardFactory::GreaterThan => match str_param(params, "path"@) {
            None => Err("GreaterThan requires string field 'path'"@),
            Some(path) => match number_param(params, "value"@) {
                None => Err("GreaterThan requires numeric field 'value'"@),
                Some(value) => Ok(GuardV::GreaterThan { path, value }),
            },
        },
        GuardFactory::Equals => match str_param(params, "path"@) {
            None => Err("Equals requires string field 'path'"@),
            Some(path) => match lookup(params, "value"@) {
                None => Err("Equals requires field 'value'"@),
                Some(value) => Ok(GuardV::Equals { path, value }),
            },
        },
        GuardFactory::OccurredWithin => match str_param(params, "target_action"@) {
            None => Err("OccurredWithin requires string field 'target_action'"@),
            Some(target_action) => match u64_param(params, "window_seconds"@) {
                None => Err("OccurredWithin requires numeric field 'window_seconds'"@),
                Some(window_seconds) => Ok(GuardV::OccurredWithin { target_action, window_seconds }),
            },
        },
        GuardFactory::TimeElapsed => match u64_param(params, "seconds"@) {
            None => Err("TimeElapsed requires field 'seconds'"@),
            Some(seconds) => Ok(GuardV::TimeElapsed { seconds }),
        },
        GuardFactory::FieldsEqual => match str_param(params, "left_path"@) {
            None => Err("FieldsEqual requires string field 'left_path'"@),
            Some(left_path) => match str_param(params, "right_path"@) {
                None => Err("FieldsEqual requires string field 'right_path'"@),
                Some(right_path) => Ok(GuardV::FieldsEqual { left_path, right_path }),
            },
        },
        GuardFactory::Exists => match str_param(params, "path"@) {
            None => Err("Exists requires string field 'path'"@),
            Some(path) => Ok(GuardV::Exists { path }),
        },
        GuardFactory::MissingField => match str_param(params, "path"@) {
            None => Err("MissingField requires string field 'path'"@),
            Some(path) => Ok(GuardV::MissingField { path }),
        },
        GuardFactory::InSet => match str_param(params, "path"@) {
            None => Err("InSet requires string field 'path'"@),
            Some(path) => match array_param(params, "values"@) {
                None => Err("InSet requires array field 'values'"@),
                Some(values) => Ok(GuardV::InSet { path, values }),
            },
        },
        GuardFactory::NotInSet => match str_param(params, "path"@) {
            None => Err("NotInSet requires string field 'path'"@),
            Some(path) => match array_param(params, "values"@) {
                None => Err("NotInSet requires array field 'values'"@),
                Some(values) => Ok(GuardV::NotInSet { path, values }),
            },
        },
    }
}

pub(crate) fn get_u64_param(params: &JsonMap, key: &str) -> (r: Option<u64>)
    ensures
        r == u64_param(params@, key@),
{
    match params.get(key) {
        Some(v) => v.as_u64(),
        None => None,
    }
}

pub(crate) fn get_str_param(params: &JsonMap, key: &str) -> (r: Option<String>)
    ensures
        match r {
            Some(s) => str_param(params@, key@) == Some(s@),
            None => str_param(params@, key@) is None,
        },
{
    match params.get(key) {
        Some(v) => match v.as_str() {
            Some(s) => Some(s.to_owned()),
            None => None,
        },
        None => None,
    }
}

fn copy_values(values: &Vec<JsonValue>) -> (r: Vec<JsonValue>)
    ensures
        json_seq_view(r@) == json_seq_view(values@),
{
    let mut out: Vec<JsonValue> = Vec::new();
    let mut i: usize = 0;
    while i < values.len()
        invariant
            i <= values.len(),
            out.len() == i,
            forall|j: int| 0 <= j < i ==> (#[trigger] out@[j])@ == values@[j]@,
        decreases values.len() - i,
    {
        out.push(copy_json(&values[i]));
        i = i + 1;
    }
    proof {
        lemma_json_seq_view(out@);
        lemma_json_seq_view(values@);
        assert forall|j: int| 0 <= j < values.len() implies json_seq_view(out@)[j]
            == json_seq_view(values@)[j] by {
            assert(out@[j]@ == values@[j]@);
        }
    }
    assert(json_seq_view(out@) =~= json_seq_view(values@));
    out
}

fn unsupported(msg: &str) -> (r: VpeError)
    ensures
        r@ == VpeErrorV::Unsupported(msg@),
{
    VpeError::Unsupported(String::from_str(msg))
}

impl GuardFactory {
    /// Builds a guard from its parameters.
    pub fn build(&self, params: &JsonMap) -> (r: Result<Guard, VpeError>)
        ensures
            match r {
                Ok(g) => build_result(*self, params@) == Ok::<GuardV, Seq<char>>(g@),
                Err(e) => build_result(*self, params@) matches Err(m) && e@
                    == VpeErrorV::Unsupported(m),
            },
    {
        match self {
            GuardFactory::Default => Ok(Guard::Default),
            GuardFactory::GreaterThan => {
                let path = match get_str_param(params, "path") {
                    Some(p) => p,
                    None => {
                        return Err(unsupported("GreaterThan requires string field 'path'"));
                    },
                };
                let value = match params.get("value") {
                    Some(JsonValue::Number(n)) => *n,
                    _ => {
                        return Err(unsupported("GreaterThan requires numeric field 'value'"));
                    },
                };
                Ok(Guard::GreaterThan { path, value })
            },
            GuardFactory::Equals => {
                let path = match get_str_param(params, "path") {
                    Some(p) => p,
                    None => {
                        return Err(unsupported("Equals requires string field 'path'"));
                    },
                };
                let value = match params.get("value") {
                    Some(v) => copy_json(v),
                    None => {
                        return Err(unsupported("Equals requires field 'value'"));
                    },
                };
                Ok(Guard::Equals { path, value })
            },
            GuardFactory::OccurredWithin => {
                let target_action = match get_str_param(params, "target_action") {
                    Some(p) => p,
                    None => {
                        return Err(
                            unsupported("OccurredWithin requires string field 'target_action'"),
                        );
                    },
                };
                let window_seconds = match params.get("window_seconds") {
                    Some(v) => match v.as_u64() {
                        Some(n) => n,
                        None => {
                            return Err(
                                unsupported(
                                    "OccurredWithin requires numeric field 'window_seconds'",
                                ),
                            );
                        },
                    },
                    None => {
                        return Err(
                            unsupported("OccurredWithin requires numeric field 'window_seconds'"),
                        );
                    },
                };
                Ok(Guard::OccurredWithin { target_action, window_seconds })
            },
            GuardFactory::TimeElapsed => {
                let seconds = match params.get("seconds") {
                    Some(v) => match v.as_u64() {
                        Some(n) => n,
                        None => {
                            return Err(unsupported("TimeElapsed requires field 'seconds'"));
                        },
                    },
                    None => {
                        return Err(unsupported("TimeElapsed requires field 'seconds'"));
                    },
                };
                Ok(Guard::TimeElapsed { seconds })
            },
            GuardFactory::FieldsEqual => {
                let left_path = match get_str_param(params, "left_path") {
                    Some(p) => p,
                    None => {
                        return Err(unsupported("FieldsEqual requires string field 'left_path'"));
                    },
                };
                let right_path = match get_str_param(params, "right_path") {
                    Some(p) => p,
                    None => {
                        return Err(unsupported("FieldsEqual requires string field 'right_path'"));
                    },
                };
                Ok(Guard::FieldsEqual { left_path, right_path })
            },
            GuardFactory::Exists => {
                let path = match get_str_param(params, "path") {
                    Some(p) => p,
                    None => {
                        return Err(unsupported("Exists requires string field 'path'"));
                    },
                };
                Ok(Guard::Exists { path })
            },
            GuardFactory::MissingField => {
                let path = match get_str_param(params, "path") {
                    Some(p) => p,
                    None => {
                        return Err(unsupported("MissingField requires string field 'path'"));
                    },
                };
                Ok(Guard::MissingField { path })
            },
            GuardFactory::InSet => {
                let path = match get_str_param(params, "path") {
                    Some(p) => p,
                    None => {
                        return Err(unsupported("InSet requires string field 'path'"));
                    },
                };
                let values = match params.get("values") {
                    Some(v) => match v.as_array() {
                        Some(a) => copy_values(a),
                        None => {
                            return Err(unsupported("InSet requires array field 'values'"));
                        },
                    },
                    None => {
                        return Err(unsupported("InSet requires array field 'values'"));
                    },
                };
                Ok(Guard::InSet { path, values })
            },
            GuardFactory::NotInSet => {
                let path = match get_str_param(params, "path") {
                    Some(p) => p,
                    None => {
                        return Err(unsupported("NotInSet requires string field 'path'"));
                    },
                };
                let values = match params.get("values") {
                    Some(v) => match v.as_array() {
                        Some(a) => copy_values(a),
                        None => {
                            return Err(unsupported("NotInSet requires array field 'values'"));
                        },
                    },
                    None => {
                        return Err(unsupported("NotInSet requires array field 'values'"));
                    },
                };
                Ok(Guard::NotInSet { path, values })
            },
        }
    }
}

/// The factories of the built-in guard types, by type name.
pub open spec fn builtin_factory(id: Seq<char>) -> Option<GuardFactory> {
    if id == "Default"@ {
        Some(GuardFactory::Default)
    } else if id == "GreaterThan"@ {
        Some(GuardFactory::GreaterThan)
    } else if id == "Equals"@ {
        Some(GuardFactory::Equals)
    } else if id == "OccurredWithin"@ {
        Some(GuardFactory::OccurredWithin)
    } else if id == "TimeElapsed"@ {
        Some(GuardFactory::TimeElapsed)
    } else if id == "FieldsEqual"@ {
        Some(GuardFactory::FieldsEqual)
    } else if id == "Exists"@ {
        Some(GuardFactory::Exists)
    } else if id == "MissingField"@ {
        Some(GuardFactory::MissingField)
    } else if id == "InSet"@ {
        Some(GuardFactory::InSet)
    } else if id == "NotInSet"@ {
        Some(GuardFactory::NotInSet)
    } else {
        None
    }
}

pub open spec fn factories_view(s: Seq<(String, GuardFactory)>) -> Seq<(Seq<char>, GuardFactory)> {
    s.map_values(|e: (String, GuardFactory)| (e.0@, e.1))
}

/// The guard types a compiler knows, and how each is built.
#[derive(Clone)]
pub struct GuardRegistry {
    factories: Vec<(String, GuardFactory)>,
}

impl View for GuardRegistry {
    type V = Seq<(Seq<char>, GuardFactory)>;

    closed spec fn view(&self) -> Seq<(Seq<char>, GuardFactory)> {
        factories_view(self.factories@)
    }
}

/// Collects guard types before a registry is built.
pub struct GuardRegistryBuilder {
    factories: Vec<(String, GuardFactory)>,
}

impl View for GuardRegistryBuilder {
    type V = Seq<(Seq<char>, GuardFactory)>;

    closed spec fn view(&self) -> Seq<(Seq<char>, GuardFactory)> {
        factories_view(self.factories@)
    }
}

fn find_factory(factories: &Vec<(String, GuardFactory)>, id: &str) -> (r: usize)
    ensures
        r == key_index(factories_view(factories@), id@),
        r <= factories@.len(),
{
    let ghost v = factories_view(factories@);
    let mut i: usize = 0;
    while i < factories.len()
        invariant
            i <= factories.len(),
            v == factories_view(factories@),
            v.len() == factories.len(),
            forall|j: int| 0 <= j < i ==> #[trigger] v[j].0 != id@,
        decreases factories.len() - i,
    {
        assert(v[i as int].0 == factories@[i as int].0@);
        if str_eq(factories[i].0.as_str(), id) {
            proof {
                lemma_key_index_found(v, id@, i as int);
            }
            return i;
        }
        i = i + 1;
    }
    proof {
        lemma_key_index_absent(v, id@);
    }
    i
}

impl Default for GuardRegistry {
    /// A registry that knows no guard type.
    fn default() -> (r: GuardRegistry)
        ensures
            r@ == Seq::<(Seq<char>, GuardFactory)>::empty(),
    {
        let r = GuardRegistry { factories: Vec::new() };
        assert(r@ =~= Seq::<(Seq<char>, GuardFactory)>::empty());
        r
    }
}

impl GuardRegistry {
    pub fn builder() -> (r: GuardRegistryBuilder)
        ensures
            r@ == Seq::<(Seq<char>, GuardFactory)>::empty(),
    {
        GuardRegistryBuilder::new()
    }

    /// The factory registered for the guard type `id`.
    pub fn get(&self, id: &str) -> (r: Option<&GuardFactory>)
        ensures
            match r {
                Some(f) => lookup(self@, id@) == Some(*f),
                None => lookup(self@, id@) is None,
            },
    {
        let i = find_factory(&self.factories, id);
        if i < self.factories.len() {
            Some(&self.factories[i].1)
        } else {
            None
        }
    }
}

impl GuardRegistryBuilder {
    pub fn new() -> (r: GuardRegistryBuilder)
        ensures
            r@ == Seq::<(Seq<char>, GuardFactory)>::empty(),
    {
        let r = GuardRegistryBuilder { factories: Vec::new() };
        assert(r@ =~= Seq::<(Seq<char>, GuardFactory)>::empty());
        r
    }

    /// Registers `factory` for the guard type `id`, in place of any factory
    /// registered for it before.
    pub fn register_guard(&mut self, id: &str, factory: GuardFactory) -> (r: &mut GuardRegistryBuilder)
        ensures
            forall|k: Seq<char>|
                #[trigger] lookup((*r)@, k) == if k == id@ {
                    Some(factory)
                } else {
                    lookup(old(self)@, k)
                },
            *final(self) == *final(r),
    {
        let i = find_factory(&self.factories, id);
        let ghost old_v = self@;
        proof {
            lemma_key_index_bounds(old_v, id@);
        }
        if i < self.factories.len() {
            self.factories.set(i, (id.to_owned(), factory));
            assert(self@ =~= old_v.update(i as int, (id@, factory)));
        } else {
            self.factories.push((id.to_owned(), factory));
            assert(self@ =~= old_v.push((id@, factory)));
        }
        let ghost new_v = self@;
        assert forall|k: Seq<char>| #[trigger]
            lookup(new_v, k) == if k == id@ {
                Some(factory)
            } else {
                lookup(old_v, k)
            } by {
            lemma_key_index_bounds(old_v, k);
            lemma_key_index_bounds(new_v, k);
            if k == id@ {
                lemma_key_index_found(new_v, k, i as int);
            } else {
                let ki = key_index(old_v, k);
                if ki < old_v.len() {
                    lemma_key_index_found(new_v, k, ki);
                } else {
                    assert forall|j: int| 0 <= j < new_v.len() implies #[trigger] new_v[j].0
                        != k by {
                        if j != i {
                            assert(new_v[j] == old_v[j]);
                        }
                    }
                    lemma_key_index_absent(new_v, k);
                }
            }
        }
        self
    }

    /// Registers the built-in guard types.
    pub fn with_builtins(self) -> (r: GuardRegistryBuilder)
        ensures
            forall|k: Seq<char>|
                #[trigger] lookup(r@, k) == match builtin_factory(k) {
                    Some(f) => Some(f),
                    None => lookup(self@, k),
                },
    {
        let mut b = self;
        register_builtins(&mut b);
        b
    }

    pub fn build(self) -> (r: Result<GuardRegistry, VpeError>)
        ensures
            r matches Ok(reg) && reg@ == self@,
    {
        Ok(GuardRegistry { factories: self.factories })
    }
}

proof fn lemma_builtin_names()
    ensures
        "Default"@.len() == 7,
        "GreaterThan"@.len() == 11,
        "Equals"@.len() == 6,
        "OccurredWithin"@.len() == 14,
        "TimeElapsed"@.len() == 11,
        "FieldsEqual"@.len() == 11,
        "Exists"@.len() == 6,
        "MissingField"@.len() == 12,
        "InSet"@.len() == 5,
        "NotInSet"@.len() == 8,
        "GreaterThan"@[0] == 'G',
        "TimeElapsed"@[0] == 'T',
        "FieldsEqual"@[0] == 'F',
        "Equals"@[1] == 'q',
        "Exists"@[1] == 'x',
{
    reveal_strlit("Default");
    reveal_strlit("GreaterThan");
    reveal_strlit("Equals");
    reveal_strlit("OccurredWithin");
    reveal_strlit("TimeElapsed");
    reveal_strlit("FieldsEqual");
    reveal_strlit("Exists");
    reveal_strlit("MissingField");
    reveal_strlit("InSet");
    reveal_strlit("NotInSet");
}

/// Registers the ten built-in guard types on `builder`.
pub fn register_builtins(builder: &mut GuardRegistryBuilder)
    ensures
        forall|k: Seq<char>|
            #[trigger] lookup(final(builder)@, k) == match builtin_factory(k) {
                Some(f) => Some(f),
                None => lookup(old(builder)@, k),
            },
{
    let ghost b0 = builder@;
    builder.register_guard("Default", GuardFactory::Default);
    let ghost b1 = builder@;
    builder.register_guard("GreaterThan", GuardFactory::GreaterThan);
    let ghost b2 = builder@;
    builder.register_guard("Equals", GuardFactory::Equals);
    let ghost b3 = builder@;
    builder.register_guard("OccurredWithin", GuardFactory::OccurredWithin);
    let ghost b4 = builder@;
    builder.register_guard("TimeElapsed", GuardFactory::TimeElapsed);
    let ghost b5 = builder@;
    builder.register_guard("FieldsEqual", GuardFactory::FieldsEqual);
    let ghost b6 = builder@;
    builder.register_guard("Exists", GuardFactory::Exists);
    let ghost b7 = builder@;
    builder.register_guard("MissingField", GuardFactory::MissingField);
    let ghost b8 = builder@;
    builder.register_guard("InSet", GuardFactory::InSet);
    let ghost b9 = builder@;
    builder.register_guard("NotInSet", GuardFactory::NotInSet);
    let ghost b10 = builder@;
    assert forall|k: Seq<char>| #[trigger]
        lookup(b10, k) == match builtin_factory(k) {
            Some(f) => Some(f),
            None => lookup(b0, k),
        } by {
        lemma_builtin_names();
        assert(lookup(b10, k) == if k == "NotInSet"@ { Some(GuardFactory::NotInSet) } else { lookup(b9, k) });
        assert(lookup(b9, k) == if k == "InSet"@ { Some(GuardFactory::InSet) } else { lookup(b8, k) });
        assert(lookup(b8, k) == if k == "MissingField"@ { Some(GuardFactory::MissingField) } else { lookup(b7, k) });
        assert(lookup(b7, k) == if k == "Exists"@ { Some(GuardFactory::Exists) } else { lookup(b6, k) });
        assert(lookup(b6, k) == if k == "FieldsEqual"@ { Some(GuardFactory::FieldsEqual) } else { lookup(b5, k) });
        assert(lookup(b5, k) == if k == "TimeElapsed"@ { Some(GuardFactory::TimeElapsed) } else { lookup(b4, k) });
        assert(lookup(b4, k) == if k == "OccurredWithin"@ { Some(GuardFactory::OccurredWithin) } else { lookup(b3, k) });
        assert(lookup(b3, k) == if k == "Equals"@ { Some(GuardFactory::Equals) } else { lookup(b2, k) });
        assert(lookup(b2, k) == if k == "GreaterThan"@ { Some(GuardFactory::GreaterThan) } else { lookup(b1, k) });
        assert(lookup(b1, k) == if k == "Default"@ { Some(GuardFactory::Default) } else { lookup(b0, k) });
    }
}

/// The parameters `p` that a guard `g` holds: each field of the guard is the
/// parameter of the same name.
pub open spec fn holds_params(g: GuardV, p: Seq<(Seq<char>, JsonV)>) -> bool {
    match g {
        GuardV::Default => true,
        GuardV::GreaterThan { path, value } => str_param(p, "path"@) == Some(path) && lookup(
            p,
            "value"@,
        ) == Some(JsonV::Number(value)),
        GuardV::Equals { path, value } => str_param(p, "path"@) == Some(path) && lookup(p, "value"@)
            == Some(value),
        GuardV::OccurredWithin { target_action, window_seconds } => str_param(p, "target_action"@)
            == Some(target_action) && u64_param(p, "window_seconds"@) == Some(window_seconds),
        GuardV::TimeElapsed { seconds } => u64_param(p, "seconds"@) == Some(seconds),
        GuardV::FieldsEqual { left_path, right_path } => str_param(p, "left_path"@) == Some(left_path)
            && str_param(p, "right_path"@) == Some(right_path),
        GuardV::Exists { path } => str_param(p, "path"@) == Some(path),
        GuardV::MissingField { path } => str_param(p, "path"@) == Some(path),
        GuardV::InSet { path, values } => str_param(p, "path"@) == Some(path) && lookup(p, "values"@)
            == Some(JsonV::Array(values)),
        GuardV::NotInSet { path, values } => str_param(p, "path"@) == Some(path) && lookup(
            p,
            "values"@,
        ) == Some(JsonV::Array(values)),
    }
}

/// A factory builds a guard of its own type: the built-in factory
/// registered under the guard's name is the factory that built it, and the
/// guard holds the parameters it was built from.
pub proof fn law_factory_builds_its_own_guard(f: GuardFactory, p: Seq<(Seq<char>, JsonV)>)
    ensures
        build_result(f, p) matches Ok(g) ==> builtin_factory(guard_name(g)) == Some(f) && holds_params(
            g,
            p,
        ),
{
    lemma_builtin_names();
}

/// A `Default` guard passes on every context and history.
pub proof fn law_default_guard_passes(ctx: Seq<(Seq<char>, JsonV)>, hist: Seq<VpeEvent>)
    ensures
        guard_outcome(GuardV::Default, ctx, hist) == Some(true),
{
}

/// A `GreaterThan` guard passes exactly when the field at its path is a
/// number that orders above the guard's value.
pub proof fn law_greater_than_guard(
    path: Seq<char>,
    value: JsonNumber,
    ctx: Seq<(Seq<char>, JsonV)>,
    hist: Seq<VpeEvent>,
)
    ensures
        guard_outcome(GuardV::GreaterThan { path, value }, ctx, hist) == Some(
            exists|a: JsonNumber| lookup(ctx, path) == Some(JsonV::Number(a)) && number_order(a) > number_order(value),
        ),
{
    if let Some(JsonV::Number(a)) = lookup(ctx, path) {
        if number_order(a) > number_order(value) {
            assert(lookup(ctx, path) == Some(JsonV::Number(a)) && number_order(a) > number_order(value));
        }
    }
}

/// An `Equals` guard passes exactly when the field at its path is present
/// and equal to the guard's value.
pub proof fn law_equals_guard(path: Seq<char>, value: JsonV, ctx: Seq<(Seq<char>, JsonV)>, hist: Seq<VpeEvent>)
    ensures
        guard_outcome(GuardV::Equals { path, value }, ctx, hist) == Some(
            lookup(ctx, path) matches Some(a) && json_eq(a, value),
        ),
{
}

/// An `InSet` guard passes exactly when the field at its path is present
/// and equal to one of the guard's values; a `NotInSet` guard passes
/// exactly when the field is absent or equal to none of them.  On the same
/// path and values, one passes exactly when the other fails.
pub proof fn law_set_guards(
    path: Seq<char>,
    values: Seq<JsonV>,
    ctx: Seq<(Seq<char>, JsonV)>,
    hist: Seq<VpeEvent>,
)
    ensures
        guard_outcome(GuardV::InSet { path, values }, ctx, hist) == Some(
            lookup(ctx, path) matches Some(a) && exists|i: int| 0 <= i < values.len() && json_eq(#[trigger] values[i], a),
        ),
        guard_outcome(GuardV::NotInSet { path, values }, ctx, hist) == Some(
            !(lookup(ctx, path) matches Some(a) && exists|i: int| 0 <= i < values.len() && json_eq(#[trigger] values[i], a)),
        ),
        guard_outcome(GuardV::InSet { path, values }, ctx, hist) matches Some(x)
            && guard_outcome(GuardV::NotInSet { path, values }, ctx, hist) == Some(!x),
{
}

/// A `FieldsEqual` guard passes exactly when both fields are present and
/// equal.
pub proof fn law_fields_equal_guard(
    left_path: Seq<char>,
    right_path: Seq<char>,
    ctx: Seq<(Seq<char>, JsonV)>,
    hist: Seq<VpeEvent>,
)
    ensures
        guard_outcome(GuardV::FieldsEqual { left_path, right_path }, ctx, hist) == Some(
            lookup(ctx, left_path) matches Some(l) && lookup(ctx, right_path) matches Some(r) && json_eq(l, r),
        ),
{
}

/// An `Exists` guard passes exactly when the field at its path is present
/// and not null, and a `MissingField` guard on the same path passes exactly
/// when the `Exists` guard fails.
pub proof fn law_presence_guards(path: Seq<char>, ctx: Seq<(Seq<char>, JsonV)>, hist: Seq<VpeEvent>)
    ensures
        guard_outcome(GuardV::Exists { path }, ctx, hist) == Some(
            lookup(ctx, path) matches Some(v) && v != JsonV::Null,
        ),
        guard_outcome(GuardV::MissingField { path }, ctx, hist) == Some(
            !(lookup(ctx, path) matches Some(v) && v != JsonV::Null),
        ),
{
}

/// A `TimeElapsed` guard compares the time from the latest event to
/// `sys.now`: where that difference fits in `i64` the guard passes exactly
/// when it is at least the guard's seconds, and otherwise it has no
/// answer.  With an integer `sys.now` and some history, the difference is
/// `sys.now` minus the latest event's timestamp.
pub proof fn law_time_elapsed_guard(seconds: u64, ctx: Seq<(Seq<char>, JsonV)>, hist: Seq<VpeEvent>)
    ensures
        ({
            let d = context_now(ctx) - last_timestamp(hist);
            guard_outcome(GuardV::TimeElapsed { seconds }, ctx, hist) == if i64::MIN <= d <= i64::MAX {
                Some(d >= seconds as i64)
            } else {
                None
            }
        }),
{
}

/// With an integer `sys.now` and some history, a `TimeElapsed` guard
/// passes exactly when `sys.now` lies at least its seconds after the latest
/// event.
pub proof fn law_time_elapsed_reads_now(
    seconds: u64,
    now: i64,
    ctx: Seq<(Seq<char>, JsonV)>,
    hist: Seq<VpeEvent>,
)
    requires
        lookup(ctx, "sys.now"@) matches Some(v) && as_i64_v(v) == Some(now),
        hist.len() > 0,
        i64::MIN <= now - hist.last().timestamp <= i64::MAX,
    ensures
        guard_outcome(GuardV::TimeElapsed { seconds }, ctx, hist) == Some(
            now - hist.last().timestamp >= seconds as i64,
        ),
{
}

proof fn lemma_occurred_scan(target: Seq<char>, window: i64, now: i64, hist: Seq<VpeEvent>, i: int)
    requires
        0 <= i <= hist.len(),
    ensures
        occurred_scan(target, window, now, hist, i) == Some(true) ==> exists|j: int|
            0 <= j < i && (#[trigger] hist[j]).action@ == target && now - hist[j].timestamp <= window,
        occurred_scan(target, window, now, hist, i) == Some(false) ==> forall|j: int|
            0 <= j < i && (#[trigger] hist[j]).action@ == target ==> now - hist[j].timestamp > window,
        (forall|j: int|
            0 <= j < i && (#[trigger] hist[j]).action@ == target ==> i64::MIN <= now - hist[j].timestamp
                <= i64::MAX) ==> occurred_scan(target, window, now, hist, i) is Some,
    decreases i,
{
    if i > 0 {
        lemma_occurred_scan(target, window, now, hist, i - 1);
    }
}

/// An `OccurredWithin` guard passes only when some event of its target
/// action lies at most its window before the latest event, and fails only
/// when no such event does; it has an answer whenever the time from each
/// event of the target action to the latest event fits in `i64`.  With no
/// history it fails.
pub proof fn law_occurred_within_guard(
    target_action: Seq<char>,
    window_seconds: u64,
    ctx: Seq<(Seq<char>, JsonV)>,
    hist: Seq<VpeEvent>,
)
    ensures
        ({
            let o = guard_outcome(GuardV::OccurredWithin { target_action, window_seconds }, ctx, hist);
            &&& o == Some(true) ==> exists|j: int|
                0 <= j < hist.len() && (#[trigger] hist[j]).action@ == target_action && hist.last().timestamp
                    - hist[j].timestamp <= window_seconds as i64
            &&& o == Some(false) ==> forall|j: int|
                0 <= j < hist.len() && (#[trigger] hist[j]).action@ == target_action ==> hist.last().timestamp
                    - hist[j].timestamp > window_seconds as i64
            &&& (forall|j: int|
                0 <= j < hist.len() && (#[trigger] hist[j]).action@ == target_action ==> i64::MIN
                    <= hist.last().timestamp - hist[j].timestamp <= i64::MAX) ==> o is Some
            &&& hist.len() == 0 ==> o == Some(false)
        }),
{
    if hist.len() > 0 {
        lemma_occurred_scan(target_action, window_seconds as i64, hist.last().timestamp, hist, hist.len() as int);
    }
}

} // verus!
