//! The errors of schema checking, law compilation and evaluation.
use vstd::prelude::*;

verus! {

/// A schema that breaks the schema rules.
#[derive(Debug)]
pub enum SchemaError {
    Invalid(String),
}

/// A law that cannot be compiled.
#[derive(Debug)]
pub enum CompileError {
    InvalidLaw(String),
    UnknownGuardType(String),
    TypeMismatch(String),
    UnresolvedReference(String),
    DuplicateState(String),
    InitialStateNotFound(String),
    UnknownTargetState(String),
    EmptyTargetState,
}

/// A turn that cannot be evaluated.
#[derive(Debug)]
pub enum RuntimeError {
    AnchorMissing,
    Desync { expected: String, provided: String },
    NoTransitionFound { state: String, action: String },
    MissingContextField { field: String },
    AutoTransitionLimitExceeded,
    UnknownState(String),
}

/// Any error of the engine.
#[derive(Debug)]
pub enum VpeError {
    Schema(SchemaError),
    Compile(CompileError),
    Runtime(RuntimeError),
    ProcessNotFound(String),
    Unsupported(String),
}

pub enum SchemaErrorV {
    Invalid(Seq<char>),
}

pub enum CompileErrorV {
    InvalidLaw(Seq<char>),
    UnknownGuardType(Seq<char>),
    TypeMismatch(Seq<char>),
    UnresolvedReference(Seq<char>),
    DuplicateState(Seq<char>),
    InitialStateNotFound(Seq<char>),
    UnknownTargetState(Seq<char>),
    EmptyTargetState,
}

pub enum RuntimeErrorV {
    AnchorMissing,
    Desync { expected: Seq<char>, provided: Seq<char> },
    NoTransitionFound { state: Seq<char>, action: Seq<char> },
    MissingContextField { field: Seq<char> },
    AutoTransitionLimitExceeded,
    UnknownState(Seq<char>),
}

pub enum VpeErrorV {
    Schema(SchemaErrorV),
    Compile(CompileErrorV),
    Runtime(RuntimeErrorV),
    ProcessNotFound(Seq<char>),
    Unsupported(Seq<char>),
}

impl View for SchemaError {
    type V = SchemaErrorV;

    open spec fn view(&self) -> SchemaErrorV {
        match self {
            SchemaError::Invalid(m) => SchemaErrorV::Invalid(m@),
        }
    }
}

impl View for CompileError {
    type V = CompileErrorV;

    open spec fn view(&self) -> CompileErrorV {
        match self {
            CompileError::InvalidLaw(m) => CompileErrorV::InvalidLaw(m@),
            CompileError::UnknownGuardType(m) => CompileErrorV::UnknownGuardType(m@),
            CompileError::TypeMismatch(m) => CompileErrorV::TypeMismatch(m@),
            CompileError::UnresolvedReference(m) => CompileErrorV::UnresolvedReference(m@),
            CompileError::DuplicateState(m) => CompileErrorV::DuplicateState(m@),
            CompileError::InitialStateNotFound(m) => CompileErrorV::InitialStateNotFound(m@),
            CompileError::UnknownTargetState(m) => CompileErrorV::UnknownTargetState(m@),
            CompileError::EmptyTargetState => CompileErrorV::EmptyTargetState,
        }
    }
}

impl View for RuntimeError {
    type V = RuntimeErrorV;

    open spec fn view(&self) -> RuntimeErrorV {
        match self {
            RuntimeError::AnchorMissing => RuntimeErrorV::AnchorMissing,
            RuntimeError::Desync { expected, provided } => RuntimeErrorV::Desync {
                expected: expected@,
                provided: provided@,
            },
            RuntimeError::NoTransitionFound { state, action } => RuntimeErrorV::NoTransitionFound {
                state: state@,
                action: action@,
            },
            RuntimeError::MissingContextField { field } => RuntimeErrorV::MissingContextField {
                field: field@,
            },
            RuntimeError::AutoTransitionLimitExceeded => RuntimeErrorV::AutoTransitionLimitExceeded,
            RuntimeError::UnknownState(s) => RuntimeErrorV::UnknownState(s@),
        }
    }
}

impl View for VpeError {
    type V = VpeErrorV;

    open spec fn view(&self) -> VpeErrorV {
        match self {
            VpeError::Schema(e) => VpeErrorV::Schema(e@),
            VpeError::Compile(e) => VpeErrorV::Compile(e@),
            VpeError::Runtime(e) => VpeErrorV::Runtime(e@),
            VpeError::ProcessNotFound(p) => VpeErrorV::ProcessNotFound(p@),
            VpeError::Unsupported(m) => VpeErrorV::Unsupported(m@),
        }
    }
}

/// A string made of two parts.
pub fn concat2(a: &str, b: &str) -> (r: String)
    ensures
        r@ == a@ + b@,
{
    let mut r = String::from_str(a);
    r.append(b);
    r
}

/// A string made of three parts.
pub fn concat3(a: &str, b: &str, c: &str) -> (r: String)
    ensures
        r@ == a@ + b@ + c@,
{
    let mut r = String::from_str(a);
    r.append(b);
    r.append(c);
    r
}

/// A string made of five parts.
pub fn concat5(a: &str, b: &str, c: &str, d: &str, e: &str) -> (r: String)
    ensures
        r@ == a@ + b@ + c@ + d@ + e@,
{
    let mut r = String::from_str(a);
    r.append(b);
    r.append(c);
    r.append(d);
    r.append(e);
    r
}

pub open spec fn schema_message(e: SchemaErrorV) -> Seq<char> {
    match e {
        SchemaErrorV::Invalid(m) => "invalid schema: "@ + m,
    }
}

pub open spec fn compile_message(e: CompileErrorV) -> Seq<char> {
    match e {
        CompileErrorV::InvalidLaw(m) => "invalid law: "@ + m,
        CompileErrorV::UnknownGuardType(m) => "unknown guard type: "@ + m,
        CompileErrorV::TypeMismatch(m) => "type mismatch: "@ + m,
        CompileErrorV::UnresolvedReference(m) => "unresolved reference: "@ + m,
        CompileErrorV::DuplicateState(m) => "duplicate state: "@ + m,
        CompileErrorV::InitialStateNotFound(m) => "initial state not found: "@ + m,
        CompileErrorV::UnknownTargetState(m) => "unknown transition target state: "@ + m,
        CompileErrorV::EmptyTargetState => "empty target not allowed"@,
    }
}

pub open spec fn runtime_message(e: RuntimeErrorV) -> Seq<char> {
    match e {
        RuntimeErrorV::AnchorMissing => "anchor missing"@,
        RuntimeErrorV::Desync { expected, provided } => "desync: expected state '"@ + expected
            + "', got '"@ + provided + "'"@,
        RuntimeErrorV::NoTransitionFound { state, action } => "no transition found from state '"@
            + state + "' for action '"@ + action + "'"@,
        RuntimeErrorV::MissingContextField { field } => "missing required context field: "@
            + field,
        RuntimeErrorV::AutoTransitionLimitExceeded => "maximum auto-transition depth exceeded"@,
        RuntimeErrorV::UnknownState(s) => "unknown state: "@ + s,
    }
}

pub open spec fn vpe_message(e: VpeErrorV) -> Seq<char> {
    match e {
        VpeErrorV::Schema(s) => schema_message(s),
        VpeErrorV::Compile(c) => compile_message(c),
        VpeErrorV::Runtime(r) => runtime_message(r),
        VpeErrorV::ProcessNotFound(p) => "process not found: "@ + p,
        VpeErrorV::Unsupported(m) => "unsupported: "@ + m,
    }
}

impl SchemaError {
    /// The error's message.
    pub fn message(&self) -> (r: String)
        ensures
            r@ == schema_message(self@),
    {
        match self {
            SchemaError::Invalid(m) => concat2("invalid schema: ", m.as_str()),
        }
    }
}

impl CompileError {
    /// The error's message.
    pub fn message(&self) -> (r: String)
        ensures
            r@ == compile_message(self@),
    {
        match self {
            CompileError::InvalidLaw(m) => concat2("invalid law: ", m.as_str()),
            CompileError::UnknownGuardType(m) => concat2("unknown guard type: ", m.as_str()),
            CompileError::TypeMismatch(m) => concat2("type mismatch: ", m.as_str()),
            CompileError::UnresolvedReference(m) => concat2("unresolved reference: ", m.as_str()),
            CompileError::DuplicateState(m) => concat2("duplicate state: ", m.as_str()),
            CompileError::InitialStateNotFound(m) => concat2("initial state not found: ", m.as_str()),
            CompileError::UnknownTargetState(m) => concat2("unknown transition target state: ", m.as_str()),
            CompileError::EmptyTargetState => String::from_str("empty target not allowed"),
        }
    }
}

impl RuntimeError {
    /// The error's message.
    pub fn message(&self) -> (r: String)
        ensures
            r@ == runtime_message(self@),
    {
        match self {
            RuntimeError::AnchorMissing => String::from_str("anchor missing"),
            RuntimeError::Desync { expected, provided } => concat5(
                "desync: expected state '",
                expected.as_str(),
                "', got '",
                provided.as_str(),
                "'",
            ),
            RuntimeError::NoTransitionFound { state, action } => concat5(
                "no transition found from state '",
                state.as_str(),
                "' for action '",
                action.as_str(),
                "'",
            ),
            RuntimeError::MissingContextField { field } => concat2("missing required context field: ", field.as_str()),
            RuntimeError::AutoTransitionLimitExceeded => String::from_str(
                "maximum auto-transition depth exceeded",
            ),
            RuntimeError::UnknownState(s) => concat2("unknown state: ", s.as_str()),
        }
    }
}

impl VpeError {
    /// The error's message.
    pub fn message(&self) -> (r: String)
        ensures
            r@ == vpe_message(self@),
    {
        match self {
            VpeError::Schema(e) => e.message(),
            VpeError::Compile(e) => e.message(),
            VpeError::Runtime(e) => e.message(),
            VpeError::ProcessNotFound(p) => concat2("process not found: ", p.as_str()),
            VpeError::Unsupported(m) => concat2("unsupported: ", m.as_str()),
        }
    }
}

} // verus!
