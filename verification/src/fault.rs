//! Failures of one step of execution and how they are classified.

use vstd::prelude::*;

verus! {

/// What a script did wrong.
#[derive(Clone, Copy, PartialEq, Eq, Debug, Structural)]
pub enum ScriptFaultKind {
    Parse,
    Resolve,
    Argument,
    Bounds,
    Arithmetic,
    Operation,
}

/// Who is answerable for a failure.
#[derive(Clone, Copy, PartialEq, Eq, Debug, Structural)]
pub enum FaultCategory {
    Script(ScriptFaultKind),
    ResourceLimit,
    Permission,
    HostContract,
    InternalInvariant,
}

/// The kind of operation that failed.
#[derive(Clone, Copy, PartialEq, Eq, Debug, Structural)]
pub enum VmFaultCode {
    InvalidInstruction,
    StackUnderflow,
    TypeMismatch,
    MissingSymbol,
    Bounds,
    DivideByZero,
    Native,
    Host,
    ResourceLimit,
    Trap,
}

/// A failed step.
#[derive(PartialEq, Eq, Debug)]
pub struct StepError {
    pub category: FaultCategory,
    pub code: VmFaultCode,
    pub message: String,
}

/// Mathematical content of a [`StepError`].
pub struct Failure {
    pub category: FaultCategory,
    pub code: VmFaultCode,
    pub message: Seq<char>,
}

impl Clone for StepError {
    fn clone(&self) -> (r: StepError)
        ensures
            r@ == self@,
    {
        StepError { category: self.category, code: self.code, message: self.message.clone() }
    }
}

impl View for StepError {
    type V = Failure;

    open spec fn view(&self) -> Failure {
        Failure { category: self.category, code: self.code, message: self.message@ }
    }
}

/// The category a code has when nothing more is known about the failure.
pub open spec fn default_category(code: VmFaultCode) -> FaultCategory {
    match code {
        VmFaultCode::ResourceLimit => FaultCategory::ResourceLimit,
        _ => FaultCategory::InternalInvariant,
    }
}

impl Failure {
    /// An unclassified failure.
    pub open spec fn of(code: VmFaultCode, message: Seq<char>) -> Failure {
        Failure { category: default_category(code), code, message }
    }

    /// A failure that the script itself caused.
    pub open spec fn script(kind: ScriptFaultKind, code: VmFaultCode, message: Seq<char>) -> Failure {
        Failure { category: FaultCategory::Script(kind), code, message }
    }

    /// A malformed instruction or machine state.
    pub open spec fn invalid(message: Seq<char>) -> Failure {
        Failure::of(VmFaultCode::InvalidInstruction, message)
    }
}

impl StepError {
    pub fn new(code: VmFaultCode, message: &str) -> (r: StepError)
        ensures
            r@ == Failure::of(code, message@),
    {
        let category = match code {
            VmFaultCode::ResourceLimit => FaultCategory::ResourceLimit,
            _ => FaultCategory::InternalInvariant,
        };
        StepError { category, code, message: message.to_owned() }
    }

    pub fn script(kind: ScriptFaultKind, code: VmFaultCode, message: &str) -> (r: StepError)
        ensures
            r@ == Failure::script(kind, code, message@),
    {
        StepError { category: FaultCategory::Script(kind), code, message: message.to_owned() }
    }

    pub fn classified(category: FaultCategory, code: VmFaultCode, message: &str) -> (r: StepError)
        ensures
            r@ == (Failure { category, code, message: message@ }),
    {
        StepError { category, code, message: message.to_owned() }
    }

    /// Tells whether the script itself caused the failure.
    pub fn is_script(&self) -> (r: bool)
        ensures
            r == (self.category is Script),
    {
        match self.category {
            FaultCategory::Script(_) => true,
            _ => false,
        }
    }
}

/// A failed operation of the machine outside the instruction stream.
#[derive(PartialEq, Eq, Debug)]
pub enum VmError {
    InvalidState(String),
    InvalidArguments(String),
    Bounds(String),
    Snapshot(String),
}

/// Mathematical content of a [`VmError`].
pub enum Trouble {
    InvalidState(Seq<char>),
    InvalidArguments(Seq<char>),
    Bounds(Seq<char>),
    Snapshot(Seq<char>),
}

impl View for VmError {
    type V = Trouble;

    open spec fn view(&self) -> Trouble {
        match self {
            VmError::InvalidState(m) => Trouble::InvalidState(m@),
            VmError::InvalidArguments(m) => Trouble::InvalidArguments(m@),
            VmError::Bounds(m) => Trouble::Bounds(m@),
            VmError::Snapshot(m) => Trouble::Snapshot(m@),
        }
    }
}

impl VmError {
    pub fn invalid_state(message: &str) -> (r: VmError)
        ensures
            r@ == Trouble::InvalidState(message@),
    {
        VmError::InvalidState(message.to_owned())
    }

    pub fn invalid_arguments(message: &str) -> (r: VmError)
        ensures
            r@ == Trouble::InvalidArguments(message@),
    {
        VmError::InvalidArguments(message.to_owned())
    }

    pub fn bounds(message: &str) -> (r: VmError)
        ensures
            r@ == Trouble::Bounds(message@),
    {
        VmError::Bounds(message.to_owned())
    }
}

/// How a machine error shows as a failed step.
pub open spec fn mapped(error: Trouble) -> Failure {
    match error {
        Trouble::InvalidState(m) => Failure::of(VmFaultCode::InvalidInstruction, m),
        Trouble::InvalidArguments(m) => Failure::script(
            ScriptFaultKind::Argument,
            VmFaultCode::TypeMismatch,
            m,
        ),
        Trouble::Bounds(m) => Failure::script(ScriptFaultKind::Bounds, VmFaultCode::Bounds, m),
        Trouble::Snapshot(m) => Failure::of(VmFaultCode::InvalidInstruction, m),
    }
}

/// Turns a machine error into a failed step.
pub fn map_vm_error(error: VmError) -> (r: StepError)
    ensures
        r@ == mapped(error@),
{
    match error {
        VmError::InvalidState(m) => StepError::new(VmFaultCode::InvalidInstruction, m.as_str()),
        VmError::InvalidArguments(m) => StepError::script(
            ScriptFaultKind::Argument,
            VmFaultCode::TypeMismatch,
            m.as_str(),
        ),
        VmError::Bounds(m) => StepError::script(
            ScriptFaultKind::Bounds,
            VmFaultCode::Bounds,
            m.as_str(),
        ),
        VmError::Snapshot(m) => StepError::new(VmFaultCode::InvalidInstruction, m.as_str()),
    }
}

/// Mathematical content of the outcome of a step.
pub open spec fn outcome<T: View>(r: Result<T, StepError>) -> Result<T::V, Failure> {
    match r {
        Ok(v) => Ok(v@),
        Err(e) => Err(e@),
    }
}

/// Mathematical content of the outcome of a machine operation.
pub open spec fn result<T: View>(r: Result<T, VmError>) -> Result<T::V, Trouble> {
    match r {
        Ok(v) => Ok(v@),
        Err(e) => Err(e@),
    }
}

} // verus!
