//! What the calls in a formatted text may be bound to.

use vstd::prelude::*;
use std::rc::Rc;
use crate::ast::{self, Expr, Tree};
use crate::bit_calls;
use crate::existvar::invalid;
use crate::fault::{
    self, Failure, FaultCategory, ScriptFaultKind, StepError, Trouble, VmError, VmFaultCode,
};
use crate::forms::{self, BoundService, InputOperation, Resolved};
use crate::lookup;
use crate::program::{
    BitOperation, BoundRuntimeHost, BoundRuntimeNative, HostBinding, HostImport, HostPlaceRanks,
    HostStageImport, MapOperation, NativeBinding, ProgramGeneration, RuntimeBuiltin,
    RuntimeExpressionShape, RuntimeHostAuthorization, RuntimeHostStage, RuntimeNativeAuthorization,
    RuntimeStagedKind, StagedAuthorization, UserArgumentSpec, UserCallMode, UserResolution,
    UserResolutionOutcome,
};
use crate::state::ResolvedUserCall;
use crate::text;
use crate::value::{BytecodeType, SymbolKey};

verus! {

/// The services that are there: registered ones, and those of the machine itself by name.
#[derive(PartialEq, Eq, Debug)]
pub struct NativeProviders {
    pub registered: Vec<SymbolKey>,
    pub machine: Vec<String>,
}

/// An operation that is not allowed.
pub fn permission_denied(message: &str) -> (r: StepError)
    ensures
        r@ == bit_calls::forbidden(message@),
{
    StepError::classified(FaultCategory::Permission, VmFaultCode::InvalidInstruction, message)
}

/// An argument of the wrong type.
pub open spec fn argument_failure(message: Seq<char>) -> Failure {
    Failure::script(ScriptFaultKind::Argument, VmFaultCode::TypeMismatch, message)
}

/// An argument of the wrong type.
pub fn bad_type(message: &str) -> (r: StepError)
    ensures
        r@ == argument_failure(message@),
{
    StepError::script(ScriptFaultKind::Argument, VmFaultCode::TypeMismatch, message)
}

/// An operation that the evaluation does not support.
pub open spec fn unsupported_failure(message: Seq<char>) -> Failure {
    Failure::of(VmFaultCode::Native, message)
}

/// An operation that the evaluation does not support.
pub fn unsupported(message: &str) -> (r: StepError)
    ensures
        r@ == unsupported_failure(message@),
{
    StepError::new(VmFaultCode::Native, message)
}

pub open spec fn native_named(name: Seq<char>) -> spec_fn(RuntimeNativeAuthorization) -> bool {
    |f: RuntimeNativeAuthorization| text::same_ignoring_case(f.name@, name)
}

pub open spec fn checked_forms_denied() -> Failure {
    bit_calls::forbidden("STRFORMCHECK is unavailable in this compatibility identity"@)
}

/// The service family that a name grants.
pub open spec fn authorized(program: ProgramGeneration, name: Seq<char>) -> Result<
    RuntimeNativeAuthorization,
    Failure,
> {
    if text::same_ignoring_case(name, "STRFORMCHECK"@) && !program.checked_runtime_forms {
        Err(checked_forms_denied())
    } else {
        match lookup::first_index(program.native_authorizations@, native_named(name)) {
            Some(i) => Ok(program.native_authorizations@[i]),
            None => Err(
                bit_calls::forbidden(
                    "runtime callable "@ + name + " lacks a Native authorization"@,
                ),
            ),
        }
    }
}

pub open spec fn family_result(r: Result<&RuntimeNativeAuthorization, StepError>) -> Result<
    RuntimeNativeAuthorization,
    Failure,
> {
    match r {
        Ok(f) => Ok(*f),
        Err(e) => Err(e@),
    }
}

/// The service family that a name grants.
pub fn authorization<'a>(program: &'a ProgramGeneration, name: &str) -> (r: Result<
    &'a RuntimeNativeAuthorization,
    StepError,
>)
    ensures
        family_result(r) == authorized(*program, name@),
{
    if text::eq_ignore_ascii_case(name, "STRFORMCHECK") && !program.checked_runtime_forms {
        return Err(
            permission_denied("STRFORMCHECK is unavailable in this compatibility identity"),
        );
    }
    let mut i: usize = 0;
    while i < program.native_authorizations.len()
        invariant
            i <= program.native_authorizations.len(),
            forall|j: int|
                0 <= j < i ==> !native_named(name@)(#[trigger] program.native_authorizations@[j]),
            !(text::same_ignoring_case(name@, "STRFORMCHECK"@) && !program.checked_runtime_forms),
        decreases program.native_authorizations.len() - i,
    {
        if text::eq_ignore_ascii_case(program.native_authorizations[i].name.as_str(), name) {
            proof {
                lookup::lemma_first_found(
                    program.native_authorizations@,
                    native_named(name@),
                    i as int,
                );
            }
            return Ok(&program.native_authorizations[i]);
        }
        i = i + 1;
    }
    proof {
        lookup::lemma_first_none(program.native_authorizations@, native_named(name@));
    }
    let message = text::join3("runtime callable ", name, " lacks a Native authorization");
    Err(permission_denied(message.as_str()))
}

pub open spec fn has_text(names: Seq<String>, name: Seq<char>) -> bool {
    exists|i: int| 0 <= i < names.len() && (#[trigger] names[i])@ == name
}

pub(crate) fn contains_text(names: &Vec<String>, name: &str) -> (r: bool)
    ensures
        r == has_text(names@, name@),
{
    let mut i: usize = 0;
    while i < names.len()
        invariant
            i <= names.len(),
            forall|j: int| 0 <= j < i ==> (#[trigger] names@[j])@ != name@,
        decreases names.len() - i,
    {
        if text::same_text(names[i].as_str(), name) {
            assert(names@[i as int]@ == name@);
            return true;
        }
        i = i + 1;
    }
    false
}

pub open spec fn has_text_ignoring_case(names: Seq<String>, name: Seq<char>) -> bool {
    exists|i: int|
        0 <= i < names.len() && text::same_ignoring_case((#[trigger] names[i])@, name)
}

pub(crate) fn contains_text_ignoring_case(names: &Vec<String>, name: &str) -> (r: bool)
    ensures
        r == has_text_ignoring_case(names@, name@),
{
    let mut i: usize = 0;
    while i < names.len()
        invariant
            i <= names.len(),
            forall|j: int|
                0 <= j < i ==> !text::same_ignoring_case((#[trigger] names@[j])@, name@),
        decreases names.len() - i,
    {
        if text::eq_ignore_ascii_case(names[i].as_str(), name) {
            assert(text::same_ignoring_case(names@[i as int]@, name@));
            return true;
        }
        i = i + 1;
    }
    false
}

/// A service that the evaluation itself provides.
pub open spec fn provided_here(name: Seq<char>) -> bool {
    name == "strform"@ || name == "strformcheck"@ || name == "existmeth"@ || name == "existvar"@
}

fn is_provided_here(name: &str) -> (r: bool)
    ensures
        r == provided_here(name@),
{
    text::same_text(name, "strform") || text::same_text(name, "strformcheck") || text::same_text(
        name,
        "existmeth",
    ) || text::same_text(name, "existvar")
}

/// A family has its canonical contract and a provider.
pub open spec fn provider_checked(providers: NativeProviders, family: RuntimeNativeAuthorization) -> Result<
    (),
    Failure,
> {
    if !family.canonical {
        Err(
            bit_calls::forbidden(
                "runtime Native provider contract differs from canonical contract"@,
            ),
        )
    } else if !providers.registered@.contains(family.key) && !has_text(
        providers.machine@,
        family.name@,
    ) && !provided_here(family.name@) {
        Err(
            Failure {
                category: FaultCategory::HostContract,
                code: VmFaultCode::Native,
                message: "runtime native provider "@ + family.name@ + " is missing"@,
            },
        )
    } else {
        Ok(())
    }
}

/// Tells whether a key is among the registered services.
fn is_registered(registered: &Vec<SymbolKey>, key: SymbolKey) -> (r: bool)
    ensures
        r == registered@.contains(key),
{
    let mut i: usize = 0;
    while i < registered.len()
        invariant
            i <= registered.len(),
            forall|j: int| 0 <= j < i ==> registered@[j] != key,
        decreases registered.len() - i,
    {
        if registered[i] == key {
            assert(registered@[i as int] == key);
            return true;
        }
        i = i + 1;
    }
    false
}

/// Checks that a family has its canonical contract and a provider.
pub fn require_provider(providers: &NativeProviders, family: &RuntimeNativeAuthorization) -> (r:
    Result<(), StepError>)
    ensures
        crate::form_resources::unit_result(r) == provider_checked(*providers, *family),
{
    if !family.canonical {
        return Err(
            permission_denied("runtime Native provider contract differs from canonical contract"),
        );
    }
    if !is_registered(&providers.registered, family.key) && !contains_text(
        &providers.machine,
        family.name.as_str(),
    ) && !is_provided_here(family.name.as_str()) {
        let message = text::join3("runtime native provider ", family.name.as_str(), " is missing");
        return Err(
            StepError::classified(
                FaultCategory::HostContract,
                VmFaultCode::Native,
                message.as_str(),
            ),
        );
    }
    Ok(())
}

pub open spec fn builtin_named(name: Seq<char>) -> spec_fn(RuntimeBuiltin) -> bool {
    |b: RuntimeBuiltin| text::same_ignoring_case(b.name@, name)
}

/// The callable name of the language that a name means.
pub fn find_builtin<'a>(program: &'a ProgramGeneration, name: &str) -> (r: Option<
    &'a RuntimeBuiltin,
>)
    ensures
        match r {
            Some(b) => lookup::first_index(program.builtins@, builtin_named(name@)) matches Some(i)
                && *b == program.builtins@[i],
            None => lookup::first_index(program.builtins@, builtin_named(name@)) is None,
        },
{
    let mut i: usize = 0;
    while i < program.builtins.len()
        invariant
            i <= program.builtins.len(),
            forall|j: int| 0 <= j < i ==> !builtin_named(name@)(#[trigger] program.builtins@[j]),
        decreases program.builtins.len() - i,
    {
        if text::eq_ignore_ascii_case(program.builtins[i].name.as_str(), name) {
            proof {
                lookup::lemma_first_found(program.builtins@, builtin_named(name@), i as int);
            }
            return Some(&program.builtins[i]);
        }
        i = i + 1;
    }
    proof {
        lookup::lemma_first_none(program.builtins@, builtin_named(name@));
    }
    None
}

/// Tells whether a list of accepted shapes holds some shapes.
pub fn is_accepted(
    accepted: &Vec<Vec<Option<RuntimeExpressionShape>>>,
    shapes: &Vec<Option<RuntimeExpressionShape>>,
) -> (r: bool)
    ensures
        r == bit_calls::accepts(accepted@, shapes@),
{
    let mut i: usize = 0;
    while i < accepted.len()
        invariant
            i <= accepted.len(),
            forall|j: int| 0 <= j < i ==> (#[trigger] accepted@[j])@ != shapes@,
        decreases accepted.len() - i,
    {
        if bit_calls::same_shapes(&accepted[i], shapes) {
            assert(accepted@[i as int]@ == shapes@);
            return true;
        }
        i = i + 1;
    }
    false
}

pub open spec fn native_shaped(shapes: Seq<Option<RuntimeExpressionShape>>) -> spec_fn(
    NativeBinding,
) -> bool {
    |b: NativeBinding| b.shapes@ == shapes
}

/// The service call that a family makes of arguments of some shapes.
pub open spec fn family_bound(
    family: RuntimeNativeAuthorization,
    shapes: Seq<Option<RuntimeExpressionShape>>,
) -> Option<BoundService> {
    match lookup::first_index(family.bindings@, native_shaped(shapes)) {
        Some(i) => Some(family.bindings@[i].bound@),
        None => None,
    }
}

pub(crate) fn bind_family(
    family: &RuntimeNativeAuthorization,
    shapes: &Vec<Option<RuntimeExpressionShape>>,
) -> (r: Option<Rc<BoundRuntimeNative>>)
    ensures
        match r {
            Some(b) => family_bound(*family, shapes@) == Some(b@),
            None => family_bound(*family, shapes@) is None,
        },
{
    let mut i: usize = 0;
    while i < family.bindings.len()
        invariant
            i <= family.bindings.len(),
            forall|j: int| 0 <= j < i ==> !native_shaped(shapes@)(#[trigger] family.bindings@[j]),
        decreases family.bindings.len() - i,
    {
        if bit_calls::same_shapes(&family.bindings[i].shapes, shapes) {
            proof {
                lookup::lemma_first_found(family.bindings@, native_shaped(shapes@), i as int);
            }
            return Some(family.bindings[i].bound.clone());
        }
        i = i + 1;
    }
    proof {
        lookup::lemma_first_none(family.bindings@, native_shaped(shapes@));
    }
    None
}

/// A family makes a bound call.
pub open spec fn makes(family: RuntimeNativeAuthorization, bound: BoundService) -> bool {
    exists|i: int| 0 <= i < family.bindings@.len() && (#[trigger] family.bindings@[i]).bound@ == bound
}

/// Tells whether a family makes a bound call.
pub fn family_makes(family: &RuntimeNativeAuthorization, bound: &BoundRuntimeNative) -> (r: bool)
    ensures
        r == makes(*family, bound@),
{
    let mut i: usize = 0;
    while i < family.bindings.len()
        invariant
            i <= family.bindings.len(),
            forall|j: int| 0 <= j < i ==> (#[trigger] family.bindings@[j]).bound@ != bound@,
        decreases family.bindings.len() - i,
    {
        if forms::same_native(&family.bindings[i].bound, bound) {
            assert(family.bindings@[i as int].bound@ == bound@);
            return true;
        }
        i = i + 1;
    }
    false
}

/// What a service call in a source is bound to.
pub open spec fn native_bound(
    program: ProgramGeneration,
    name: Seq<char>,
    shapes: Seq<Option<RuntimeExpressionShape>>,
    providers: Option<NativeProviders>,
) -> Result<BoundService, Failure> {
    if has_text_ignoring_case(program.internal_columns@, name) {
        Err(
            bit_calls::forbidden("runtime text cannot invoke an internal column operation"@),
        )
    } else {
        match lookup::first_index(program.builtins@, builtin_named(name)) {
            None => Err(
                Failure::script(
                    ScriptFaultKind::Resolve,
                    VmFaultCode::MissingSymbol,
                    "runtime callable "@ + name + " is missing"@,
                ),
            ),
            Some(symbol) => match authorized(program, name) {
                Err(e) => Err(e),
                Ok(family) => match family_bound(family, shapes) {
                    None => Err(
                        argument_failure(
                            "runtime callable "@ + program.builtins@[symbol].name@
                                + " has incompatible source arguments"@,
                        ),
                    ),
                    Some(bound) => match providers {
                        None => Ok(bound),
                        Some(p) => match provider_checked(p, family) {
                            Err(e) => Err(e),
                            Ok(_) => Ok(bound),
                        },
                    },
                },
            },
        }
    }
}

pub open spec fn provider_view(providers: Option<&NativeProviders>) -> Option<NativeProviders> {
    match providers {
        Some(p) => Some(*p),
        None => None,
    }
}

/// Binds a service call in a source.
pub fn bind(
    program: &ProgramGeneration,
    name: &str,
    shapes: &Vec<Option<RuntimeExpressionShape>>,
    providers: Option<&NativeProviders>,
) -> (r: Result<Rc<BoundRuntimeNative>, StepError>)
    ensures
        fault::outcome(r) == native_bound(*program, name@, shapes@, provider_view(providers)),
{
    if contains_text_ignoring_case(&program.internal_columns, name) {
        return Err(permission_denied("runtime text cannot invoke an internal column operation"));
    }
    let symbol = match find_builtin(program, name) {
        Some(s) => s,
        None => {
            let message = text::join3("runtime callable ", name, " is missing");
            return Err(
                StepError::script(
                    ScriptFaultKind::Resolve,
                    VmFaultCode::MissingSymbol,
                    message.as_str(),
                ),
            );
        },
    };
    let family = match authorization(program, name) {
        Ok(f) => f,
        Err(e) => {
            return Err(e);
        },
    };
    let bound = match bind_family(family, shapes) {
        Some(b) => b,
        None => {
            let message = text::join3(
                "runtime callable ",
                symbol.name.as_str(),
                " has incompatible source arguments",
            );
            return Err(bad_type(message.as_str()));
        },
    };
    match providers {
        Some(p) => match require_provider(p, family) {
            Err(e) => Err(e),
            Ok(_) => Ok(bound),
        },
        None => Ok(bound),
    }
}

pub open spec fn staged_named(name: Seq<char>, kind: RuntimeStagedKind) -> spec_fn(
    StagedAuthorization,
) -> bool {
    |a: StagedAuthorization| text::same_ignoring_case(a.name@, name) && a.kind == kind
}

/// A program may do a staged operation on arguments of some shapes.
pub open spec fn staged_authorized(
    program: ProgramGeneration,
    name: Seq<char>,
    kind: RuntimeStagedKind,
    shapes: Seq<Option<RuntimeExpressionShape>>,
) -> Result<(), Failure> {
    if !program.snake_data_apis {
        Err(bit_calls::forbidden("staged array operation is unavailable in this identity"@))
    } else {
        match lookup::first_index(program.staged_authorizations@, staged_named(name, kind)) {
            None => Err(
                bit_calls::forbidden(
                    "runtime staged operation "@ + name + " lacks trusted authorization"@,
                ),
            ),
            Some(i) => if bit_calls::accepts(program.staged_authorizations@[i].accepted@, shapes) {
                Ok(())
            } else {
                Err(
                    argument_failure(
                        "runtime staged operation "@ + name + " has incompatible arguments"@,
                    ),
                )
            },
        }
    }
}

/// Checks that a program may do a staged operation on arguments of some shapes.
pub fn authorize(
    program: &ProgramGeneration,
    name: &str,
    kind: RuntimeStagedKind,
    shapes: &Vec<Option<RuntimeExpressionShape>>,
) -> (r: Result<(), StepError>)
    ensures
        crate::form_resources::unit_result(r) == staged_authorized(*program, name@, kind, shapes@),
{
    if !program.snake_data_apis {
        return Err(permission_denied("staged array operation is unavailable in this identity"));
    }
    let ghost p = staged_named(name@, kind);
    let mut i: usize = 0;
    while i < program.staged_authorizations.len()
        invariant
            i <= program.staged_authorizations.len(),
            program.snake_data_apis,
            p == staged_named(name@, kind),
            forall|j: int| 0 <= j < i ==> !p(#[trigger] program.staged_authorizations@[j]),
        decreases program.staged_authorizations.len() - i,
    {
        let a = &program.staged_authorizations[i];
        if text::eq_ignore_ascii_case(a.name.as_str(), name) && a.kind == kind {
            proof {
                lookup::lemma_first_found(program.staged_authorizations@, p, i as int);
            }
            if is_accepted(&a.accepted, shapes) {
                return Ok(());
            }
            let message = text::join3(
                "runtime staged operation ",
                name,
                " has incompatible arguments",
            );
            return Err(bad_type(message.as_str()));
        }
        i = i + 1;
    }
    proof {
        lookup::lemma_first_none(program.staged_authorizations@, p);
    }
    let message = text::join3("runtime staged operation ", name, " lacks trusted authorization");
    Err(permission_denied(message.as_str()))
}

/// The BIT operation that a name means.
pub open spec fn bit_named(name: Seq<char>) -> Option<BitOperation> {
    if text::same_ignoring_case(name, "BITSET"@) {
        Some(BitOperation::SetBits)
    } else if text::same_ignoring_case(name, "BITGET"@) {
        Some(BitOperation::GetBit)
    } else if text::same_ignoring_case(name, "BITTOGGLE"@) {
        Some(BitOperation::ToggleBits)
    } else if text::same_ignoring_case(name, "BITINDEXOFFIRST"@) {
        Some(BitOperation::IndexOfFirst)
    } else {
        None
    }
}

/// The BIT operation that a name means.
pub fn bit_operation(name: &str) -> (r: Option<BitOperation>)
    ensures
        r == bit_named(name@),
{
    if text::eq_ignore_ascii_case(name, "BITSET") {
        Some(BitOperation::SetBits)
    } else if text::eq_ignore_ascii_case(name, "BITGET") {
        Some(BitOperation::GetBit)
    } else if text::eq_ignore_ascii_case(name, "BITTOGGLE") {
        Some(BitOperation::ToggleBits)
    } else if text::eq_ignore_ascii_case(name, "BITINDEXOFFIRST") {
        Some(BitOperation::IndexOfFirst)
    } else {
        None
    }
}

pub open spec fn host_named(name: Seq<char>) -> spec_fn(RuntimeHostAuthorization) -> bool {
    |f: RuntimeHostAuthorization| text::same_ignoring_case(f.name@, name)
}

pub open spec fn host_keyed(key: SymbolKey) -> spec_fn(RuntimeHostAuthorization) -> bool {
    |f: RuntimeHostAuthorization| f.key == key
}

/// The host family that a name grants.
pub open spec fn host_family_named(program: ProgramGeneration, name: Seq<char>) -> Option<
    RuntimeHostAuthorization,
> {
    match lookup::first_index(program.host_authorizations@, host_named(name)) {
        Some(i) => Some(program.host_authorizations@[i]),
        None => None,
    }
}

/// The host family that a name grants.
pub fn find_host_family<'a>(program: &'a ProgramGeneration, name: &str) -> (r: Option<
    &'a RuntimeHostAuthorization,
>)
    ensures
        match r {
            Some(f) => host_family_named(*program, name@) == Some(*f),
            None => host_family_named(*program, name@) is None,
        },
{
    let mut i: usize = 0;
    while i < program.host_authorizations.len()
        invariant
            i <= program.host_authorizations.len(),
            forall|j: int|
                0 <= j < i ==> !host_named(name@)(#[trigger] program.host_authorizations@[j]),
        decreases program.host_authorizations.len() - i,
    {
        if text::eq_ignore_ascii_case(program.host_authorizations[i].name.as_str(), name) {
            proof {
                lookup::lemma_first_found(
                    program.host_authorizations@,
                    host_named(name@),
                    i as int,
                );
            }
            return Some(&program.host_authorizations[i]);
        }
        i = i + 1;
    }
    proof {
        lookup::lemma_first_none(program.host_authorizations@, host_named(name@));
    }
    None
}

/// The host family with a key.
pub open spec fn host_family(program: ProgramGeneration, key: SymbolKey) -> Result<
    RuntimeHostAuthorization,
    Failure,
> {
    match lookup::first_index(program.host_authorizations@, host_keyed(key)) {
        Some(i) => Ok(program.host_authorizations@[i]),
        None => Err(Failure::invalid("Host family is missing from its owning generation"@)),
    }
}

pub open spec fn host_family_result(r: Result<&RuntimeHostAuthorization, StepError>) -> Result<
    RuntimeHostAuthorization,
    Failure,
> {
    match r {
        Ok(f) => Ok(*f),
        Err(e) => Err(e@),
    }
}

/// The host family with a key.
pub fn family<'a>(program: &'a ProgramGeneration, key: SymbolKey) -> (r: Result<
    &'a RuntimeHostAuthorization,
    StepError,
>)
    ensures
        host_family_result(r) == host_family(*program, key),
{
    let mut i: usize = 0;
    while i < program.host_authorizations.len()
        invariant
            i <= program.host_authorizations.len(),
            forall|j: int|
                0 <= j < i ==> !host_keyed(key)(#[trigger] program.host_authorizations@[j]),
        decreases program.host_authorizations.len() - i,
    {
        if program.host_authorizations[i].key == key {
            proof {
                lookup::lemma_first_found(
                    program.host_authorizations@,
                    host_keyed(key),
                    i as int,
                );
            }
            return Ok(&program.host_authorizations[i]);
        }
        i = i + 1;
    }
    proof {
        lookup::lemma_first_none(program.host_authorizations@, host_keyed(key));
    }
    Err(invalid("Host family is missing from its owning generation"))
}

pub open spec fn host_shaped(shapes: Seq<Option<RuntimeExpressionShape>>) -> spec_fn(
    HostBinding,
) -> bool {
    |b: HostBinding| b.shapes@ == shapes
}

/// What a host call in a source is bound to.
pub open spec fn host_bound(
    program: ProgramGeneration,
    name: Seq<char>,
    shapes: Seq<Option<RuntimeExpressionShape>>,
) -> Result<BoundService, Failure> {
    match host_family_named(program, name) {
        None => Err(
            bit_calls::forbidden("runtime callable "@ + name + " lacks a Host authorization"@),
        ),
        Some(family) => match lookup::first_index(family.bindings@, host_shaped(shapes)) {
            Some(i) => Ok(family.bindings@[i].bound@),
            None => Err(
                argument_failure(
                    "Host callable "@ + name + " has incompatible source arguments"@,
                ),
            ),
        },
    }
}

/// Binds a host call in a source.
pub fn bind_host(
    program: &ProgramGeneration,
    name: &str,
    shapes: &Vec<Option<RuntimeExpressionShape>>,
) -> (r: Result<Rc<BoundRuntimeHost>, StepError>)
    ensures
        fault::outcome(r) == host_bound(*program, name@, shapes@),
{
    let family = match find_host_family(program, name) {
        Some(f) => f,
        None => {
            let message = text::join3("runtime callable ", name, " lacks a Host authorization");
            return Err(permission_denied(message.as_str()));
        },
    };
    let mut i: usize = 0;
    while i < family.bindings.len()
        invariant
            i <= family.bindings.len(),
            host_family_named(*program, name@) == Some(*family),
            forall|j: int| 0 <= j < i ==> !host_shaped(shapes@)(#[trigger] family.bindings@[j]),
        decreases family.bindings.len() - i,
    {
        if bit_calls::same_shapes(&family.bindings[i].shapes, shapes) {
            proof {
                lookup::lemma_first_found(family.bindings@, host_shaped(shapes@), i as int);
            }
            return Ok(family.bindings[i].bound.clone());
        }
        i = i + 1;
    }
    proof {
        lookup::lemma_first_none(family.bindings@, host_shaped(shapes@));
    }
    let message = text::join3("Host callable ", name, " has incompatible source arguments");
    Err(bad_type(message.as_str()))
}

pub open spec fn stage_of(stage: RuntimeHostStage, call: SymbolKey) -> spec_fn(
    HostStageImport,
) -> bool {
    |s: HostStageImport| s.stage == stage && s.call == call
}

/// The host service that a stage of a bound call asks.
pub open spec fn staged_import(
    family: RuntimeHostAuthorization,
    call: SymbolKey,
    stage: RuntimeHostStage,
) -> Option<HostImport> {
    match lookup::first_index(family.stages@, stage_of(stage, call)) {
        Some(i) => Some(*family.stages@[i].target),
        None => None,
    }
}

impl RuntimeHostAuthorization {
    /// The host service that a stage of a bound call asks.
    pub fn stage_import(&self, bound: &BoundRuntimeHost, stage: RuntimeHostStage) -> (r: Option<
        Rc<HostImport>,
    >)
        ensures
            match r {
                Some(t) => staged_import(*self, bound@.import.key, stage) == Some(*t),
                None => staged_import(*self, bound@.import.key, stage) is None,
            },
    {
        let call = bound.import.key;
        let mut i: usize = 0;
        while i < self.stages.len()
            invariant
                i <= self.stages.len(),
                call == bound@.import.key,
                forall|j: int| 0 <= j < i ==> !stage_of(stage, call)(#[trigger] self.stages@[j]),
            decreases self.stages.len() - i,
        {
            if self.stages[i].stage == stage && self.stages[i].call == call {
                proof {
                    lookup::lemma_first_found(self.stages@, stage_of(stage, call), i as int);
                }
                return Some(self.stages[i].target.clone());
            }
            i = i + 1;
        }
        proof {
            lookup::lemma_first_none(self.stages@, stage_of(stage, call));
        }
        None
    }
}

pub open spec fn rank_slot(slot: int) -> spec_fn(HostPlaceRanks) -> bool {
    |p: HostPlaceRanks| p.slot == slot
}

/// What an argument of a host call must be, where it must be a variable.
pub open spec fn place_ranks(family: RuntimeHostAuthorization, slot: int) -> Option<
    HostPlaceRanks,
> {
    match lookup::first_index(family.places@, rank_slot(slot)) {
        Some(i) => Some(family.places@[i]),
        None => None,
    }
}

pub(crate) fn find_ranks(family: &RuntimeHostAuthorization, slot: usize) -> (r: Option<&HostPlaceRanks>)
    ensures
        match r {
            Some(p) => place_ranks(*family, slot as int) == Some(*p),
            None => place_ranks(*family, slot as int) is None,
        },
{
    let mut i: usize = 0;
    while i < family.places.len()
        invariant
            i <= family.places.len(),
            forall|j: int| 0 <= j < i ==> !rank_slot(slot as int)(#[trigger] family.places@[j]),
        decreases family.places.len() - i,
    {
        if family.places[i].slot == slot {
            proof {
                lookup::lemma_first_found(family.places@, rank_slot(slot as int), i as int);
            }
            return Some(&family.places[i]);
        }
        i = i + 1;
    }
    proof {
        lookup::lemma_first_none(family.places@, rank_slot(slot as int));
    }
    None
}

pub(crate) fn has_rank(ranks: &Vec<usize>, rank: usize) -> (r: bool)
    ensures
        r == ranks@.contains(rank),
{
    let mut i: usize = 0;
    while i < ranks.len()
        invariant
            i <= ranks.len(),
            forall|j: int| 0 <= j < i ==> ranks@[j] != rank,
        decreases ranks.len() - i,
    {
        if ranks[i] == rank {
            assert(ranks@[i as int] == rank);
            return true;
        }
        i = i + 1;
    }
    false
}

/// One argument of a host call is what it must be.
pub open spec fn token_checked(
    program: ProgramGeneration,
    function: SymbolKey,
    family: RuntimeHostAuthorization,
    slot: int,
    argument: Option<Tree>,
) -> Result<(), Failure> {
    match (place_ranks(family, slot), argument) {
        (Some(ranks), Some(t)) => match ast::variable_in(t) {
            None => Err(argument_failure("Host array argument requires a variable token"@)),
            Some(name) => match program.spec_scoped_variable(function, name) {
                None => Err(Failure::invalid("analyzed Host variable disappeared"@)),
                Some(g) => if g.value_type != ranks.value_type || !ranks.ranks@.contains(
                    g.dimensions.len(),
                ) {
                    Err(argument_failure("Host array argument rank or scalar type differs"@))
                } else {
                    Ok(())
                },
            },
        },
        _ => Ok(()),
    }
}

pub open spec fn tokens_checked(
    program: ProgramGeneration,
    function: SymbolKey,
    family: RuntimeHostAuthorization,
    source: Seq<Option<Tree>>,
) -> Result<(), Failure>
    decreases source.len(),
{
    if source.len() == 0 {
        Ok(())
    } else {
        match tokens_checked(program, function, family, source.drop_last()) {
            Err(e) => Err(e),
            Ok(_) => token_checked(program, function, family, source.len() - 1, source.last()),
        }
    }
}

/// The arguments of a host call are variables where they must be.
pub open spec fn source_tokens(
    program: ProgramGeneration,
    function: SymbolKey,
    name: Seq<char>,
    source: Seq<Option<Tree>>,
) -> Result<(), Failure> {
    match host_family_named(program, name) {
        None => Ok(()),
        Some(family) => tokens_checked(program, function, family, source),
    }
}

proof fn lemma_tokens_stop(
    program: ProgramGeneration,
    function: SymbolKey,
    family: RuntimeHostAuthorization,
    source: Seq<Option<Tree>>,
    n: int,
)
    requires
        0 <= n <= source.len(),
        tokens_checked(program, function, family, source.take(n)) is Err,
    ensures
        tokens_checked(program, function, family, source) == tokens_checked(
            program,
            function,
            family,
            source.take(n),
        ),
    decreases source.len() - n,
{
    if n == source.len() {
        assert(source.take(n) =~= source);
    } else {
        assert(source.take(n + 1).drop_last() =~= source.take(n));
        lemma_tokens_stop(program, function, family, source, n + 1);
    }
}

/// Checks that the arguments of a host call are variables where they must be.
pub fn validate_source_tokens(
    program: &ProgramGeneration,
    function: SymbolKey,
    name: &str,
    source: &Vec<Option<Rc<Expr>>>,
) -> (r: Result<(), StepError>)
    ensures
        crate::form_resources::unit_result(r) == source_tokens(
            *program,
            function,
            name@,
            ast::argument_trees(source@),
        ),
{
    let family = match find_host_family(program, name) {
        Some(f) => f,
        None => {
            return Ok(());
        },
    };
    let ghost all = ast::argument_trees(source@);
    proof {
        ast::lemma_argument_trees(source@);
        assert(all.take(0) =~= Seq::<Option<Tree>>::empty());
    }
    let mut i: usize = 0;
    while i < source.len()
        invariant
            i <= source.len(),
            host_family_named(*program, name@) == Some(*family),
            all == ast::argument_trees(source@),
            all.len() == source@.len(),
            forall|j: int|
                0 <= j < source@.len() ==> #[trigger] all[j] == ast::argument_tree(source@[j]),
            tokens_checked(*program, function, *family, all.take(i as int)) is Ok,
        decreases source.len() - i,
    {
        let ghost upto = all.take(i + 1);
        proof {
            assert(upto.drop_last() =~= all.take(i as int));
            assert(upto.last() == all[i as int]);
            if tokens_checked(*program, function, *family, upto) is Err {
                lemma_tokens_stop(*program, function, *family, all, i + 1);
            }
        }
        match (find_ranks(family, i), &source[i]) {
            (Some(ranks), Some(e)) => {
                let token = match ast::variable_name(e) {
                    Some(n) => n,
                    None => {
                        return Err(bad_type("Host array argument requires a variable token"));
                    },
                };
                let g = match program.scoped_variable(function, token.as_str()) {
                    Some(g) => g,
                    None => {
                        return Err(invalid("analyzed Host variable disappeared"));
                    },
                };
                if g.value_type != ranks.value_type || !has_rank(
                    &ranks.ranks,
                    g.dimensions.len(),
                ) {
                    return Err(bad_type("Host array argument rank or scalar type differs"));
                }
            },
            _ => {},
        }
        i = i + 1;
    }
    assert(all.take(i as int) =~= all);
    Ok(())
}

pub open spec fn map_named(name: Seq<char>) -> spec_fn(MapOperation) -> bool {
    |m: MapOperation| text::same_ignoring_case(m.name@, name)
}

/// The position of the map operation that a name means.
pub open spec fn map_kind(program: ProgramGeneration, name: Seq<char>) -> Option<int> {
    lookup::first_index(program.map_operations@, map_named(name))
}

/// The position of the map operation that a name means.
pub fn find_map(program: &ProgramGeneration, name: &str) -> (r: Option<usize>)
    ensures
        match r {
            Some(i) => map_kind(*program, name@) == Some(i as int) && i
                < program.map_operations@.len(),
            None => map_kind(*program, name@) is None,
        },
{
    let mut i: usize = 0;
    while i < program.map_operations.len()
        invariant
            i <= program.map_operations.len(),
            forall|j: int| 0 <= j < i ==> !map_named(name@)(#[trigger] program.map_operations@[j]),
        decreases program.map_operations.len() - i,
    {
        if text::eq_ignore_ascii_case(program.map_operations[i].name.as_str(), name) {
            proof {
                lookup::lemma_first_found(program.map_operations@, map_named(name@), i as int);
            }
            return Some(i);
        }
        i = i + 1;
    }
    proof {
        lookup::lemma_first_none(program.map_operations@, map_named(name@));
    }
    None
}

/// A map operation takes parameters of some types.
pub open spec fn map_takes(m: MapOperation, parameters: Seq<BytecodeType>) -> bool {
    exists|i: int| 0 <= i < m.parameters@.len() && (#[trigger] m.parameters@[i])@ == parameters
}

impl MapOperation {
    /// Tells whether this operation takes parameters of some types.
    pub fn valid_parameters(&self, parameters: &Vec<BytecodeType>) -> (r: bool)
        ensures
            r == map_takes(*self, parameters@),
    {
        let mut i: usize = 0;
        while i < self.parameters.len()
            invariant
                i <= self.parameters.len(),
                forall|j: int| 0 <= j < i ==> (#[trigger] self.parameters@[j])@ != parameters@,
            decreases self.parameters.len() - i,
        {
            if forms::same_types(&self.parameters[i], parameters) {
                assert(self.parameters@[i as int]@ == parameters@);
                return true;
            }
            i = i + 1;
        }
        false
    }
}

/// The input operation that a name means.
pub open spec fn input_named(name: Seq<char>) -> Option<InputOperation> {
    if text::same_ignoring_case(name, "GETKEY"@) {
        Some(InputOperation::GetKey)
    } else if text::same_ignoring_case(name, "GETKEYTRIGGERED"@) {
        Some(InputOperation::GetKeyTriggered)
    } else if text::same_ignoring_case(name, "SEQUENCEINPUT"@) {
        Some(InputOperation::SequenceInput)
    } else if text::same_ignoring_case(name, "DISABLE_INPUT_MACRO"@) {
        Some(InputOperation::DisableInputMacro)
    } else if text::same_ignoring_case(name, "ENABLE_INPUT_MACRO"@) {
        Some(InputOperation::EnableInputMacro)
    } else if text::same_ignoring_case(name, "ENV_HAS_CAPABILITY"@) {
        Some(InputOperation::EnvHasCapability)
    } else if text::same_ignoring_case(name, "GETPLATFORM"@) {
        Some(InputOperation::GetPlatform)
    } else {
        None
    }
}

/// The input operation that a name means; only these may stand in a formatted text.
pub fn allowed(name: &str) -> (r: Option<InputOperation>)
    ensures
        r == input_named(name@),
{
    if text::eq_ignore_ascii_case(name, "GETKEY") {
        Some(InputOperation::GetKey)
    } else if text::eq_ignore_ascii_case(name, "GETKEYTRIGGERED") {
        Some(InputOperation::GetKeyTriggered)
    } else if text::eq_ignore_ascii_case(name, "SEQUENCEINPUT") {
        Some(InputOperation::SequenceInput)
    } else if text::eq_ignore_ascii_case(name, "DISABLE_INPUT_MACRO") {
        Some(InputOperation::DisableInputMacro)
    } else if text::eq_ignore_ascii_case(name, "ENABLE_INPUT_MACRO") {
        Some(InputOperation::EnableInputMacro)
    } else if text::eq_ignore_ascii_case(name, "ENV_HAS_CAPABILITY") {
        Some(InputOperation::EnvHasCapability)
    } else if text::eq_ignore_ascii_case(name, "GETPLATFORM") {
        Some(InputOperation::GetPlatform)
    } else {
        None
    }
}

/// The name of an input operation.
pub open spec fn input_text(operation: InputOperation) -> Seq<char> {
    match operation {
        InputOperation::GetKey => "GETKEY"@,
        InputOperation::GetKeyTriggered => "GETKEYTRIGGERED"@,
        InputOperation::SequenceInput => "SEQUENCEINPUT"@,
        InputOperation::DisableInputMacro => "DISABLE_INPUT_MACRO"@,
        InputOperation::EnableInputMacro => "ENABLE_INPUT_MACRO"@,
        InputOperation::EnvHasCapability => "ENV_HAS_CAPABILITY"@,
        InputOperation::GetPlatform => "GETPLATFORM"@,
        InputOperation::KeyActive => "__GETKEY_ACTIVE"@,
    }
}

/// The name of an input operation.
pub fn input_name(operation: InputOperation) -> (r: &'static str)
    ensures
        r@ == input_text(operation),
{
    match operation {
        InputOperation::GetKey => "GETKEY",
        InputOperation::GetKeyTriggered => "GETKEYTRIGGERED",
        InputOperation::SequenceInput => "SEQUENCEINPUT",
        InputOperation::DisableInputMacro => "DISABLE_INPUT_MACRO",
        InputOperation::EnableInputMacro => "ENABLE_INPUT_MACRO",
        InputOperation::EnvHasCapability => "ENV_HAS_CAPABILITY",
        InputOperation::GetPlatform => "GETPLATFORM",
        InputOperation::KeyActive => "__GETKEY_ACTIVE",
    }
}

/// A host service of the input controller with a signature.
pub open spec fn input_import(name: Seq<char>, parameters: Seq<BytecodeType>) -> spec_fn(
    HostImport,
) -> bool {
    |h: HostImport|
        h.import.namespace@ == "rustyera.input"@ && text::same_ignoring_case(h.import.name@, name)
            && h.import.result == Some(BytecodeType::Integer) && h.import.parameters@
            == parameters
}

/// The input service with a signature.
pub fn find_input_import<'a>(
    program: &'a ProgramGeneration,
    name: &str,
    parameters: &Vec<BytecodeType>,
) -> (r: Option<&'a HostImport>)
    ensures
        match r {
            Some(h) => lookup::first_index(
                program.host_imports@,
                input_import(name@, parameters@),
            ) matches Some(i) && *h == program.host_imports@[i],
            None => lookup::first_index(program.host_imports@, input_import(name@, parameters@))
                is None,
        },
{
    let ghost p = input_import(name@, parameters@);
    let mut i: usize = 0;
    while i < program.host_imports.len()
        invariant
            i <= program.host_imports.len(),
            p == input_import(name@, parameters@),
            forall|j: int| 0 <= j < i ==> !p(#[trigger] program.host_imports@[j]),
        decreases program.host_imports.len() - i,
    {
        let import = &program.host_imports[i].import;
        let integer = match import.result {
            Some(t) => t == BytecodeType::Integer,
            None => false,
        };
        if integer && text::same_text(import.namespace.as_str(), "rustyera.input")
            && text::eq_ignore_ascii_case(import.name.as_str(), name) && forms::same_types(
            &import.parameters,
            parameters,
        ) {
            proof {
                lookup::lemma_first_found(program.host_imports@, p, i as int);
            }
            return Some(&program.host_imports[i]);
        }
        i = i + 1;
    }
    proof {
        lookup::lemma_first_none(program.host_imports@, p);
    }
    None
}

pub open spec fn resolution_of(
    name: Seq<char>,
    mode: UserCallMode,
    arguments: Seq<UserArgumentSpec>,
) -> spec_fn(UserResolution) -> bool {
    |r: UserResolution|
        text::same_ignoring_case(r.name@, name) && r.mode == mode && r.arguments@ == arguments
}

/// What calling a user function with some arguments comes to; nothing where there is no target.
pub open spec fn user_resolved(
    program: ProgramGeneration,
    name: Seq<char>,
    mode: UserCallMode,
    arguments: Seq<UserArgumentSpec>,
) -> Result<Option<Resolved>, Trouble> {
    match lookup::first_index(program.user_resolutions@, resolution_of(name, mode, arguments)) {
        None => Ok(None),
        Some(i) => match program.user_resolutions@[i].outcome {
            UserResolutionOutcome::Found(call) => Ok(Some(call@)),
            UserResolutionOutcome::Refused(m) => Err(Trouble::InvalidArguments(m@)),
        },
    }
}

pub open spec fn resolved_result(r: Result<Option<Rc<ResolvedUserCall>>, VmError>) -> Result<
    Option<Resolved>,
    Trouble,
> {
    match r {
        Ok(Some(c)) => Ok(Some(c@)),
        Ok(None) => Ok(None),
        Err(e) => Err(e@),
    }
}

/// Compares two lists of argument positions.
pub fn same_specs(a: &Vec<UserArgumentSpec>, b: &Vec<UserArgumentSpec>) -> (r: bool)
    ensures
        r == (a@ == b@),
{
    if a.len() != b.len() {
        return false;
    }
    let mut i: usize = 0;
    while i < a.len()
        invariant
            i <= a.len(),
            a.len() == b.len(),
            forall|j: int| 0 <= j < i ==> a@[j] == b@[j],
        decreases a.len() - i,
    {
        if a[i] != b[i] {
            assert(a@[i as int] != b@[i as int]);
            return false;
        }
        i = i + 1;
    }
    assert(a@ =~= b@);
    true
}

/// Finds what calling a user function with some arguments comes to.
pub fn resolve_user_call(
    program: &ProgramGeneration,
    name: &str,
    mode: UserCallMode,
    arguments: &Vec<UserArgumentSpec>,
) -> (r: Result<Option<Rc<ResolvedUserCall>>, VmError>)
    ensures
        resolved_result(r) == user_resolved(*program, name@, mode, arguments@),
{
    let ghost p = resolution_of(name@, mode, arguments@);
    let mut i: usize = 0;
    while i < program.user_resolutions.len()
        invariant
            i <= program.user_resolutions.len(),
            p == resolution_of(name@, mode, arguments@),
            forall|j: int| 0 <= j < i ==> !p(#[trigger] program.user_resolutions@[j]),
        decreases program.user_resolutions.len() - i,
    {
        let entry = &program.user_resolutions[i];
        if text::eq_ignore_ascii_case(entry.name.as_str(), name) && entry.mode == mode
            && same_specs(&entry.arguments, arguments) {
            proof {
                lookup::lemma_first_found(program.user_resolutions@, p, i as int);
            }
            return match &entry.outcome {
                UserResolutionOutcome::Found(call) => Ok(Some(call.clone())),
                UserResolutionOutcome::Refused(m) => Err(VmError::invalid_arguments(m.as_str())),
            };
        }
        i = i + 1;
    }
    proof {
        lookup::lemma_first_none(program.user_resolutions@, p);
    }
    Ok(None)
}

} // verus!
