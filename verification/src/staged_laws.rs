//! How calls that capture something first go on: methods by name, maps and BIT calls.

use vstd::prelude::*;
use crate::ast::Tree;
use crate::bit_calls::BitReplyModel;
use crate::fault::Failure;
use crate::form_binding;
use crate::form_effects::{self, AskedMap, MapReplied};
use crate::form_methods;
use crate::form_queries;
use crate::form_staged;
use crate::forms::{BitCall, BoundService, Form, RuntimeCallSite, Task};
use crate::lookup;
use crate::program::{BitCallSpec, BitOperation, ProgramGeneration};
use crate::reduction_laws;
use crate::scheduling_laws;
use crate::source_laws;
use crate::state::{self, VmModel};
use crate::text;
use crate::value::{ArrayLeaseId, BytecodeType, FiberId, Val};

verus! {

proof fn lemma_method_names(name: Seq<char>)
    ensures
        !(text::same_ignoring_case(name, "GETMETH"@) && text::same_ignoring_case(
            name,
            "GETMETHS"@,
        )),
        !(text::same_ignoring_case(name, "GETMETH"@) && text::same_ignoring_case(
            name,
            "EXISTMETH"@,
        )),
        !(text::same_ignoring_case(name, "GETMETHS"@) && text::same_ignoring_case(
            name,
            "EXISTMETH"@,
        )),
{
    reveal_strlit("GETMETH");
    reveal_strlit("GETMETHS");
    reveal_strlit("EXISTMETH");
    assert("GETMETH"@.len() == 7 && "GETMETHS"@.len() == 8 && "EXISTMETH"@.len() == 9);
}

/// A method by name evaluates the name first; its fallback is the second argument, and the method
/// gets those behind it. GETMETH asks for an integer and GETMETHS for a text; EXISTMETH only asks
/// whether there is such a method.
pub proof fn law_method_by_name(form: Form, name: Seq<char>, arguments: Seq<Option<Tree>>)
    requires
        form_methods::method_scheduled(form, name, arguments).1 == Ok::<bool, Failure>(true),
    ensures
        ({
            let after = form_methods::method_scheduled(form, name, arguments).0;
            let integer = text::same_ignoring_case(name, "GETMETH"@);
            let string = text::same_ignoring_case(name, "GETMETHS"@);
            let exists_only = text::same_ignoring_case(name, "EXISTMETH"@);
            let n = form.work.len() as int;
            &&& integer || string || exists_only
            &&& arguments.len() > 0 && arguments[0] is Some
            &&& after.values == form.values
            &&& after.work.len() == n + 2 && after.work.take(n) == form.work
            &&& after.work.last() == Task::Evaluate(arguments[0]->Some_0)
            &&& exists_only ==> arguments.len() == 1 && after.work[n] is ExistsMethod
            &&& integer || string ==> (after.work[n] matches Task::ResolveMethod(
                plan,
                result,
                fallback,
                passed,
            ) && form.current_plan == Some(plan) && (result is Integer <==> integer) && (
            fallback is Some <==> arguments.len() > 1 && arguments[1] is Some) && (fallback is Some
                ==> fallback == arguments[1]) && (arguments.len() >= 2 ==> passed
                == arguments.skip(2)))
        }),
{
    lemma_method_names(name);
    let after = form_methods::method_scheduled(form, name, arguments).0;
    assert(after.work.take(form.work.len() as int) =~= form.work);
}

/// A call of a user function by its own name resolves that name, with no fallback and with all
/// arguments.
pub proof fn law_direct_method(
    vm: VmModel,
    form: Form,
    name: Seq<char>,
    arguments: Seq<Option<Tree>>,
)
    requires
        form_methods::direct_scheduled(vm, form, name, arguments).1 is Ok,
    ensures
        ({
            let after = form_methods::direct_scheduled(vm, form, name, arguments).0;
            &&& vm.program(form.generation) matches Some(program) && program.spec_function_by_name(
                name,
            ) matches Some(f) && after.work.len() == form.work.len() + 1 && (
            after.work.last() matches Task::ResolveMethod(plan, result, fallback, passed)
                && form.current_plan == Some(plan) && fallback is None && passed == arguments && (
            result is Integer <==> f.result == Some(BytecodeType::Integer)) && (result is String
                <==> f.result == Some(BytecodeType::String)))
            &&& after.values == form.values.push(Val::Text(name))
        }),
{
}

/// The names of the BIT operations.
pub proof fn law_bit_names(name: Seq<char>)
    ensures
        ({
            let operation = form_binding::bit_named(name);
            let is = |word: &str| text::same_ignoring_case(name, word@);
            &&& is("BITSET") <==> operation == Some(BitOperation::SetBits)
            &&& is("BITGET") <==> operation == Some(BitOperation::GetBit)
            &&& is("BITTOGGLE") <==> operation == Some(BitOperation::ToggleBits)
            &&& is("BITINDEXOFFIRST") <==> operation == Some(BitOperation::IndexOfFirst)
        }),
{
    reveal_strlit("BITSET");
    reveal_strlit("BITGET");
    reveal_strlit("BITTOGGLE");
    reveal_strlit("BITINDEXOFFIRST");
    assert("BITSET"@.len() == 6 && "BITGET"@.len() == 6 && "BITTOGGLE"@.len() == 9);
    assert("BITINDEXOFFIRST"@.len() == 15);
    assert("BITSET"@[3] == 'S' && "BITGET"@[3] == 'G');
    source_laws::law_letter_case('S');
    source_laws::law_letter_case('G');
    if name.len() == 6 {
        assert(text::same_ignoring_case(name, "BITSET"@) ==> text::lower(name[3]) == text::lower(
            'S',
        ));
        assert(text::same_ignoring_case(name, "BITGET"@) ==> text::lower(name[3]) == text::lower(
            'G',
        ));
    }
}

/// A MAP call takes its name off the values and asks for that map, under a number of its own.
pub proof fn law_map_is_asked_for(
    vm: VmModel,
    fiber: FiberId,
    form: Form,
    bound: BoundService,
    site: RuntimeCallSite,
    arguments: Seq<Option<Tree>>,
    provided: bool,
)
    requires
        form_effects::map_opened(vm, fiber, form, bound, site, arguments, provided).1 is Ok,
    ensures
        ({
            let (after, r) = form_effects::map_opened(
                vm,
                fiber,
                form,
                bound,
                site,
                arguments,
                provided,
            );
            let ask = r->Ok_0;
            &&& provided
            &&& form.values.len() > 0 && form.values.last() == Val::Text(ask.name)
            &&& after.values == form.values.drop_last()
            &&& after.next_map_call == form.next_map_call + 1
            &&& ask.owner.slot == form.next_map_call && ask.owner.fiber == fiber && ask.owner.frame
                == form.frame
        }),
{
}

/// A map that is missing gives its value at once. For one that was captured the arguments behind the
/// name are evaluated in their order; only where values are handed out, the switch that comes last
/// is evaluated first.
pub proof fn law_map_goes_on(
    program: ProgramGeneration,
    form: Form,
    bound: BoundService,
    site: RuntimeCallSite,
    arguments: Seq<Option<Tree>>,
    ask: AskedMap,
    reply: MapReplied,
)
    requires
        arguments.len() > 0,
        forall|i: int| 0 <= i < arguments.len() ==> #[trigger] arguments[i] is Some,
    ensures
        ({
            let (after, r) = form_effects::map_started(
                program,
                form,
                bound,
                site,
                arguments,
                ask,
                Ok(reply),
            );
            let hands_out = program.map_operations@[ask.kind as int].values && arguments.len() > 1;
            let n = form.work.len() as int;
            &&& r is Ok
            &&& reply matches MapReplied::Missing(v) ==> after.values == form.values.push(v)
                && after.work == form.work
            &&& reply is Captured && hands_out ==> after.work.len() == n + 2 && after.work.last()
                == Task::Evaluate(arguments[arguments.len() - 1]->Some_0) && (
            after.work[n] matches Task::MapValuesEnabled(call, output) && (arguments.len() == 3
                ==> output == arguments[1]) && (arguments.len() != 3 ==> output is None)
                && call.name == ask.name && call.source == arguments)
            &&& reply is Captured && !hands_out ==> (after.work[n] matches Task::MapFinish(call)
                && call.name == ask.name && call.source == arguments && call.value_depth
                == form.values.len() as usize && scheduling_laws::scheduled(
                form.work,
                after.work,
                Task::MapFinish(call),
                arguments.skip(1),
            ))
        }),
{
    let after = form_effects::map_started(
        program,
        form,
        bound,
        site,
        arguments,
        ask,
        Ok(reply),
    ).0;
    let rest = arguments.skip(1);
    assert forall|i: int| 0 <= i < rest.len() implies #[trigger] rest[i] is Some by {
        assert(rest[i] == arguments[i + 1]);
    }
    assert(arguments[arguments.len() - 1] is Some);
    scheduling_laws::lemma_present_order(rest);
    let n = form.work.len() as int;
    assert(form_methods::from(arguments, 1) =~= rest);
    if reply is Captured {
        if !(program.map_operations@[ask.kind as int].values && arguments.len() > 1) {
            assert(after.work.take(n) =~= form.work);
            assert(after.work.skip(n + 1) =~= form_staged::present_tasks(rest));
        }
    }
}

/// A BIT call whose array was captured evaluates the arguments behind it in their order.
pub proof fn law_bit_call_goes_on(
    form: Form,
    slot: u64,
    spec: BitCallSpec,
    site: RuntimeCallSite,
    source: Seq<Option<Tree>>,
    lease: ArrayLeaseId,
)
    requires
        source.len() > 0,
        forall|i: int| 0 <= i < source.len() ==> #[trigger] source[i] is Some,
    ensures
        ({
            let (after, r) = form_staged::bit_started(form, slot, spec, site, source, Ok(lease));
            let n = form.work.len() as int;
            r is Ok && after.values == form.values && (after.work[n] matches Task::BitFinish(call)
                && call.lease == lease && call.slot == slot && call.spec == spec && call.work is None
                && scheduling_laws::scheduled(
                form.work,
                after.work,
                Task::BitFinish(call),
                source.skip(1),
            ))
        }),
{
    let after = form_staged::bit_started(form, slot, spec, site, source, Ok(lease)).0;
    let rest = source.skip(1);
    assert forall|i: int| 0 <= i < rest.len() implies #[trigger] rest[i] is Some by {
        assert(rest[i] == source[i + 1]);
    }
    scheduling_laws::lemma_present_order(rest);
    let n = form.work.len() as int;
    assert(form_methods::from(source, 1) =~= rest);
    assert(after.work.take(n) =~= form.work);
    assert(after.work.skip(n + 1) =~= form_staged::present_tasks(rest));
}

/// The operands of a BIT call are the values above those that were there when its array was
/// captured, and the array is the one that was captured.
pub proof fn law_bit_operands_of_evaluation(vm: VmModel, form: Form, call: BitCall)
    requires
        form_staged::bit_operands(vm, form, call) is Ok,
    ensures
        ({
            let (values, length) = form_staged::bit_operands(vm, form, call)->Ok_0;
            let depth = call.value_depth as int;
            &&& values.len() == form.values.len() - depth
            &&& forall|i: int|
                0 <= i < values.len() ==> form.values[depth + i] == Val::Integer(
                    #[trigger] values[i],
                )
            &&& exists|l: int|
                0 <= l < vm.store.leases.len() && (#[trigger] vm.store.leases[l]).id == call.lease
                    && vm.store.leases[l].length == length
        }),
{
    reduction_laws::lemma_integers_from(form.values, call.value_depth as int);
    let p = state::lease_is(call.lease);
    lookup::lemma_first_index(vm.store.leases, p);
    let l = lookup::first_index(vm.store.leases, p)->Some_0;
    assert(p(vm.store.leases[l]));
}

/// A BIT call that is not done keeps its values, and goes on from what it has reached.
pub proof fn law_bit_call_is_resumed(vm: VmModel, form: Form, call: BitCall, reply: BitReplyModel)
    ensures
        ({
            let (vm1, after, r) = form_staged::bit_resumed(vm, form, call, reply);
            reply matches BitReplyModel::Continue { work, visited } ==> vm1 == vm && r is Ok
                && after.values == form.values && after.work == form.work.push(
                Task::BitFinish(BitCall { work: Some(work), ..call }),
            )
        }),
{
}

/// EXISTVAR evaluates its name first; its mode is the second argument.
pub proof fn law_existvar_is_scheduled(form: Form, arguments: Seq<Option<Tree>>)
    requires
        form_queries::existvar_scheduled(form, arguments).1 is Ok,
    ensures
        ({
            let after = form_queries::existvar_scheduled(form, arguments).0;
            let n = form.work.len() as int;
            &&& arguments.len() > 0 && arguments[0] is Some
            &&& after.work.len() == n + 2 && after.work.last() == Task::Evaluate(
                arguments[0]->Some_0,
            )
            &&& after.work[n] matches Task::ExistVarFirst(plan, source, mode) && form.current_plan
                == Some(plan) && source == arguments[0]->Some_0 && mode == if arguments.len() > 1 {
                arguments[1]
            } else {
                None
            }
        }),
{
}

} // verus!
