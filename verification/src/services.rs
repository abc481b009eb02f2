//! Services that a program calls, and what comes back from them.

use vstd::prelude::*;
use crate::basic;
use crate::character_ops;
use crate::character_query;
use crate::extended_ops::{self, PlaceWrite};
use crate::fault::{self, Failure, FaultCategory, StepError, Trouble, VmError, VmFaultCode};
use crate::memo;
use crate::state::{self, Fiber, FiberModel, StepOutcome, Vm, VmModel};
use crate::text;
use crate::value::{self, BytecodeType, Place, Val, VmValue};

verus! {

/// What serves a call of a machine service.
#[derive(Clone, Copy, PartialEq, Eq, Debug, Structural)]
pub enum NativeService {
    ExistMethod,
    RuntimeForm,
    RandomState,
    IntegerMutation,
    Swap,
    BitMutation,
    Split,
    GetNum,
    ErdName,
    IndexByName,
    SetVar,
    GetVar,
    EncodeToUni,
    StrJoin,
    ArrayMutation,
    ArrayCopy,
    VariableFill,
    ArrayMultiSort,
    ArrayMultiSortEx,
    FindElement,
    RegexMatch,
    ArrayQuery,
    CharacterQuery,
    CharacterMutation,
    /// A service of the registry.
    Registered,
}

pub open spec fn is_array_query(name: Seq<char>) -> bool {
    name == "sumarray"@ || name == "sumcarray"@ || name == "maxarray"@ || name == "maxcarray"@
        || name == "minarray"@ || name == "mincarray"@ || name == "match"@ || name == "cmatch"@
        || name == "inrangearray"@ || name == "inrangecarray"@ || name == "groupmatch"@ || name
        == "nosames"@ || name == "allsames"@
}

fn names_array_query(name: &str) -> (r: bool)
    ensures
        r == is_array_query(name@),
{
    text::same_text(name, "sumarray") || text::same_text(name, "sumcarray") || text::same_text(
        name,
        "maxarray",
    ) || text::same_text(name, "maxcarray") || text::same_text(name, "minarray")
        || text::same_text(name, "mincarray") || text::same_text(name, "match")
        || text::same_text(name, "cmatch") || text::same_text(name, "inrangearray")
        || text::same_text(name, "inrangecarray") || text::same_text(name, "groupmatch")
        || text::same_text(name, "nosames") || text::same_text(name, "allsames")
}

/// Services on single variables and texts.
pub open spec fn scalar_service(name: Seq<char>) -> Option<NativeService> {
    if name == "existmeth"@ {
        Some(NativeService::ExistMethod)
    } else if name == "strform"@ {
        Some(NativeService::RuntimeForm)
    } else if name == "initrand"@ || name == "dumprand"@ {
        Some(NativeService::RandomState)
    } else if name == "__mutate_integer"@ {
        Some(NativeService::IntegerMutation)
    } else if name == "swap"@ || name == "swapvar"@ {
        Some(NativeService::Swap)
    } else if name == "setbit"@ || name == "clearbit"@ || name == "invertbit"@ {
        Some(NativeService::BitMutation)
    } else if name == "split"@ {
        Some(NativeService::Split)
    } else if name == "getnum"@ {
        Some(NativeService::GetNum)
    } else if name == "erdname"@ {
        Some(NativeService::ErdName)
    } else if name == "__indexbyname"@ {
        Some(NativeService::IndexByName)
    } else if name == "setvar"@ {
        Some(NativeService::SetVar)
    } else if name == "getvar"@ || name == "getvars"@ {
        Some(NativeService::GetVar)
    } else if name == "__encodetouni_result"@ {
        Some(NativeService::EncodeToUni)
    } else if name == "strjoin"@ {
        Some(NativeService::StrJoin)
    } else {
        None
    }
}

fn find_scalar_service(name: &str) -> (r: Option<NativeService>)
    ensures
        r == scalar_service(name@),
{
    if text::same_text(name, "existmeth") {
        Some(NativeService::ExistMethod)
    } else if text::same_text(name, "strform") {
        Some(NativeService::RuntimeForm)
    } else if text::same_text(name, "initrand") || text::same_text(name, "dumprand") {
        Some(NativeService::RandomState)
    } else if text::same_text(name, "__mutate_integer") {
        Some(NativeService::IntegerMutation)
    } else if text::same_text(name, "swap") || text::same_text(name, "swapvar") {
        Some(NativeService::Swap)
    } else if text::same_text(name, "setbit") || text::same_text(name, "clearbit")
        || text::same_text(name, "invertbit") {
        Some(NativeService::BitMutation)
    } else if text::same_text(name, "split") {
        Some(NativeService::Split)
    } else if text::same_text(name, "getnum") {
        Some(NativeService::GetNum)
    } else if text::same_text(name, "erdname") {
        Some(NativeService::ErdName)
    } else if text::same_text(name, "__indexbyname") {
        Some(NativeService::IndexByName)
    } else if text::same_text(name, "setvar") {
        Some(NativeService::SetVar)
    } else if text::same_text(name, "getvar") || text::same_text(name, "getvars") {
        Some(NativeService::GetVar)
    } else if text::same_text(name, "__encodetouni_result") {
        Some(NativeService::EncodeToUni)
    } else if text::same_text(name, "strjoin") {
        Some(NativeService::StrJoin)
    } else {
        None
    }
}

/// Services on arrays.
pub open spec fn array_service(name: Seq<char>) -> Option<NativeService> {
    if name == "arrayremove"@ || name == "arrayshift"@ || name == "arraysort"@ {
        Some(NativeService::ArrayMutation)
    } else if name == "arraycopy"@ {
        Some(NativeService::ArrayCopy)
    } else if name == "varset"@ || name == "cvarset"@ {
        Some(NativeService::VariableFill)
    } else if name == "arraymsort"@ {
        Some(NativeService::ArrayMultiSort)
    } else if name == "arraymsortex"@ {
        Some(NativeService::ArrayMultiSortEx)
    } else if name == "findelement"@ || name == "findlastelement"@ {
        Some(NativeService::FindElement)
    } else if name == "regexpmatch"@ {
        Some(NativeService::RegexMatch)
    } else if is_array_query(name) {
        Some(NativeService::ArrayQuery)
    } else {
        None
    }
}

fn find_array_service(name: &str) -> (r: Option<NativeService>)
    ensures
        r == array_service(name@),
{
    if text::same_text(name, "arrayremove") || text::same_text(name, "arrayshift")
        || text::same_text(name, "arraysort") {
        Some(NativeService::ArrayMutation)
    } else if text::same_text(name, "arraycopy") {
        Some(NativeService::ArrayCopy)
    } else if text::same_text(name, "varset") || text::same_text(name, "cvarset") {
        Some(NativeService::VariableFill)
    } else if text::same_text(name, "arraymsort") {
        Some(NativeService::ArrayMultiSort)
    } else if text::same_text(name, "arraymsortex") {
        Some(NativeService::ArrayMultiSortEx)
    } else if text::same_text(name, "findelement") || text::same_text(name, "findlastelement") {
        Some(NativeService::FindElement)
    } else if text::same_text(name, "regexpmatch") {
        Some(NativeService::RegexMatch)
    } else if names_array_query(name) {
        Some(NativeService::ArrayQuery)
    } else {
        None
    }
}

/// What serves the calls of a name.
pub open spec fn service_named(name: Seq<char>) -> NativeService {
    match scalar_service(name) {
        Some(s) => s,
        None => match array_service(name) {
            Some(s) => s,
            None => if character_query::query_named(name) is Some {
                NativeService::CharacterQuery
            } else if character_ops::mutation_named(name) is Some {
                NativeService::CharacterMutation
            } else {
                NativeService::Registered
            },
        },
    }
}

/// What serves the calls of a name.
pub fn native_service(name: &str) -> (r: NativeService)
    ensures
        r == service_named(name@),
{
    match find_scalar_service(name) {
        Some(s) => s,
        None => match find_array_service(name) {
            Some(s) => s,
            None => match character_query::parse_query(name) {
                Some(_) => NativeService::CharacterQuery,
                None => match character_ops::parse_mutation(name) {
                    Some(_) => NativeService::CharacterMutation,
                    None => NativeService::Registered,
                },
            },
        },
    }
}

/// What a service gives back: a value, and values for places.
pub struct NativeReady {
    pub value: Option<VmValue>,
    pub writes: Vec<PlaceWrite>,
}

impl NativeReady {
    /// Nothing to give back.
    pub fn nothing() -> (r: NativeReady)
        ensures
            r.value is None,
            extended_ops::writes_of(r.writes@) == Seq::<(Place, Val)>::empty(),
    {
        let r = NativeReady { value: None, writes: Vec::new() };
        assert(extended_ops::writes_of(r.writes@) =~= Seq::<(Place, Val)>::empty());
        r
    }

    /// A value alone.
    pub fn value(v: VmValue) -> (r: NativeReady)
        ensures
            r.value == Some(v),
            extended_ops::writes_of(r.writes@) == Seq::<(Place, Val)>::empty(),
    {
        let r = NativeReady { value: Some(v), writes: Vec::new() };
        assert(extended_ops::writes_of(r.writes@) =~= Seq::<(Place, Val)>::empty());
        r
    }
}

/// The type of an optional value.
pub open spec fn type_of(v: Option<Val>) -> Option<BytecodeType> {
    match v {
        Some(x) => Some(x.value_type()),
        None => None,
    }
}

/// Machine and fiber after a service's reply was taken: its value must have the declared type, its
/// writes are made, and its value goes to the operand stack.
pub open spec fn delivered(
    vm: VmModel,
    fiber: FiberModel,
    result: Option<BytecodeType>,
    value: Option<Val>,
    writes: Seq<(Place, Val)>,
) -> (VmModel, FiberModel, Result<(), Trouble>) {
    if type_of(value) != result {
        (
            vm,
            fiber,
            Err(Trouble::InvalidState("service result does not match its declared type"@)),
        )
    } else {
        let done = extended_ops::writes_done(vm, fiber, writes);
        if done.2 is Err {
            done
        } else {
            (
                done.0,
                match value {
                    Some(v) => done.1.with_stack(done.1.top().stack.push(v)),
                    None => done.1,
                },
                Ok(()),
            )
        }
    }
}

/// The text of a machine error.
pub open spec fn trouble_text(e: Trouble) -> Seq<char> {
    match e {
        Trouble::InvalidState(m) => m,
        Trouble::InvalidArguments(m) => m,
        Trouble::Bounds(m) => m,
        Trouble::Snapshot(m) => m,
    }
}

/// How a refused reply shows.
pub open spec fn refused(code: VmFaultCode, e: Trouble) -> Failure {
    Failure { category: FaultCategory::HostContract, code, message: trouble_text(e) }
}

pub fn refusal(code: VmFaultCode, e: VmError) -> (r: StepError)
    ensures
        r@ == refused(code, e@),
{
    match e {
        VmError::InvalidState(m) => StepError::classified(
            FaultCategory::HostContract,
            code,
            m.as_str(),
        ),
        VmError::InvalidArguments(m) => StepError::classified(
            FaultCategory::HostContract,
            code,
            m.as_str(),
        ),
        VmError::Bounds(m) => StepError::classified(FaultCategory::HostContract, code, m.as_str()),
        VmError::Snapshot(m) => StepError::classified(
            FaultCategory::HostContract,
            code,
            m.as_str(),
        ),
    }
}

/// A step that takes a service's reply.
pub open spec fn taken(
    vm: VmModel,
    fiber: FiberModel,
    result: Option<BytecodeType>,
    value: Option<Val>,
    writes: Seq<(Place, Val)>,
    code: VmFaultCode,
) -> basic::Step {
    let done = delivered(vm, fiber, result, value, writes);
    match done.2 {
        Ok(_) => basic::go(done.0, done.1),
        Err(e) => basic::fail(done.0, done.1, refused(code, e)),
    }
}

impl Vm {
    /// Takes the reply of a service.
    pub fn apply_host_ready(
        &mut self,
        fiber: &mut Fiber,
        result: Option<BytecodeType>,
        ready: NativeReady,
    ) -> (r: Result<(), VmError>)
        requires
            old(fiber)@.frames.len() > 0,
        ensures
            (final(self)@, final(fiber)@, fault::result(r)) == delivered(
                old(self)@,
                old(fiber)@,
                result,
                state::optional_val(ready.value),
                extended_ops::writes_of(ready.writes@),
            ),
    {
        let given: Option<BytecodeType> = match &ready.value {
            Some(v) => Some(v.value_type()),
            None => None,
        };
        let depth: usize = fiber.frames.len();
        if given != result {
            return Err(VmError::invalid_state("service result does not match its declared type"));
        }
        match memo::write_places(self, fiber, &ready.writes) {
            Ok(_) => {},
            Err(e) => {
                return Err(e);
            },
        }
        proof {
            extended_ops::lemma_done_keeps_frames(
                old(self)@,
                old(fiber)@,
                extended_ops::writes_of(ready.writes@),
            );
        }
        match ready.value {
            Some(v) => {
                basic::push(&mut fiber.top_mut().stack, v);
            },
            None => {},
        }
        Ok(())
    }

    pub(crate) fn take_reply(
        &mut self,
        fiber: &mut Fiber,
        result: Option<BytecodeType>,
        ready: NativeReady,
        code: VmFaultCode,
    ) -> (r: Result<StepOutcome, StepError>)
        requires
            old(fiber)@.frames.len() > 0,
        ensures
            (final(self)@, final(fiber)@, fault::outcome(r)) == taken(
                old(self)@,
                old(fiber)@,
                result,
                state::optional_val(ready.value),
                extended_ops::writes_of(ready.writes@),
                code,
            ),
    {
        match self.apply_host_ready(fiber, result, ready) {
            Ok(_) => Ok(StepOutcome::Continue),
            Err(e) => Err(refusal(code, e)),
        }
    }
}

/// What a registered service and its state came to: the reply, and the state to go back to.
pub struct RegisteredReply {
    pub ready: NativeReady,
    pub checkpoint: Option<Vec<u8>>,
}

/// The failure of going back to an earlier state of a service.
pub open spec fn rollback_failure(failure: Seq<char>) -> Failure {
    Failure {
        category: FaultCategory::HostContract,
        code: VmFaultCode::Native,
        message: "native rollback failed: "@ + failure,
    }
}

pub fn failed_rollback(failure: &str) -> (r: StepError)
    ensures
        r@ == rollback_failure(failure@),
{
    let message = text::join2("native rollback failed: ", failure);
    StepError::classified(FaultCategory::HostContract, VmFaultCode::Native, message.as_str())
}

/// What a call of a registered service comes to. `places` and `implicit` tell whether the arrays that
/// the service may see could be read, `names` whether the service named its implicit arrays,
/// `checkpoint` is the state it gave before the call, `reply` what the call gave, and `rollback`
/// what going back to the state gives, where that is asked for.
pub open spec fn registered(
    places: Result<(), Trouble>,
    names: Result<(), Seq<char>>,
    implicit: Result<(), Trouble>,
    checkpoint: Result<Option<Seq<u8>>, Seq<char>>,
    reply: Result<(), Failure>,
    rollback: Result<(), Seq<char>>,
) -> Result<(), Failure> {
    match places {
        Err(e) => Err(fault::mapped(e)),
        Ok(_) => match names {
            Err(m) => Err(Failure::of(VmFaultCode::Native, m)),
            Ok(_) => match implicit {
                Err(e) => Err(fault::mapped(e)),
                Ok(_) => match checkpoint {
                    Err(m) => Err(Failure::of(VmFaultCode::Native, m)),
                    Ok(state) => match reply {
                        Ok(_) => Ok(()),
                        Err(e) => match (state, rollback) {
                            (Some(_), Err(m)) => Err(rollback_failure(m)),
                            _ => Err(e),
                        },
                    },
                },
            },
        },
    }
}

/// What a call of a registered service comes to, from what each step of it gave. The state of the
/// service is put back where the call fails.
pub fn call_registered_native(
    places: Result<(), VmError>,
    names: Result<(), String>,
    implicit: Result<(), VmError>,
    checkpoint: Result<Option<Vec<u8>>, String>,
    reply: Result<NativeReady, StepError>,
    rollback: Result<(), String>,
) -> (r: Result<RegisteredReply, StepError>)
    ensures
        match r {
            Ok(done) => registered(
                fault::result(places),
                text_result(names),
                fault::result(implicit),
                checkpoint_result(checkpoint),
                reply_result(reply),
                text_result(rollback),
            ) is Ok && reply == Ok::<NativeReady, StepError>(done.ready) && checkpoint == Ok::<
                Option<Vec<u8>>,
                String,
            >(done.checkpoint),
            Err(e) => registered(
                fault::result(places),
                text_result(names),
                fault::result(implicit),
                checkpoint_result(checkpoint),
                reply_result(reply),
                text_result(rollback),
            ) == Err::<(), Failure>(e@),
        },
{
    match places {
        Err(e) => {
            return Err(fault::map_vm_error(e));
        },
        Ok(_) => {},
    }
    match names {
        Err(m) => {
            return Err(StepError::new(VmFaultCode::Native, m.as_str()));
        },
        Ok(_) => {},
    }
    match implicit {
        Err(e) => {
            return Err(fault::map_vm_error(e));
        },
        Ok(_) => {},
    }
    match checkpoint {
        Err(m) => Err(StepError::new(VmFaultCode::Native, m.as_str())),
        Ok(state) => match reply {
            Ok(ready) => Ok(RegisteredReply { ready, checkpoint: state }),
            Err(e) => match (state, rollback) {
                (Some(_), Err(m)) => Err(failed_rollback(m.as_str())),
                _ => Err(e),
            },
        },
    }
}

pub open spec fn text_result(r: Result<(), String>) -> Result<(), Seq<char>> {
    match r {
        Ok(_) => Ok(()),
        Err(m) => Err(m@),
    }
}

pub open spec fn checkpoint_result(r: Result<Option<Vec<u8>>, String>) -> Result<
    Option<Seq<u8>>,
    Seq<char>,
> {
    match r {
        Ok(Some(v)) => Ok(Some(v@)),
        Ok(None) => Ok(None),
        Err(m) => Err(m@),
    }
}

pub open spec fn reply_result(r: Result<NativeReady, StepError>) -> Result<(), Failure> {
    match r {
        Ok(_) => Ok(()),
        Err(e) => Err(e@),
    }
}

} // verus!
