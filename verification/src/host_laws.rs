//! How evaluated texts call the host, and how call texts go on.

use vstd::prelude::*;
use crate::ast::Tree;
use crate::call_laws;
use crate::fault::Failure;
use crate::faults;
use crate::form_binding::{self, NativeProviders};
use crate::form_call_text::{self, CallText, TextArgument};
use crate::form_hosts::{self, Asked};
use crate::form_resources;
use crate::form_support;
use crate::forms::{BoundService, Form, HostCall, Phase, RuntimeCallSite, RuntimeFormRoot, Task};
use crate::lookup;
use crate::operand;
use crate::program::{CallTextSpec, ProgramGeneration, RuntimeHostStage};
use crate::state::{self, At, FiberModel, VmModel};
use crate::value::{BytecodeType, SymbolKey, Val};

verus! {

/// The values of a stage are taken off in their order and stand behind what the call has kept; an
/// empty text has no lines, so that the call ends with zero at once.
pub proof fn law_host_operands(
    form: Form,
    call: HostCall,
    stage: RuntimeHostStage,
    below: Seq<Val>,
    values: Seq<Val>,
)
    requires
        form.values == below + values,
        form.host_calls.len() > 0,
    ensures
        ({
            let (after, r) = form_hosts::collected(form, call, stage, values.len());
            let empty = stage is LinesBegin && values.len() == 1 && values[0] == Val::Text(
                Seq::empty(),
            );
            &&& r is Ok
            &&& empty ==> after.values == below.push(Val::Integer(0)) && after.host_calls
                == form.host_calls.drop_last() && after.work == form.work
            &&& !empty ==> after.values == below && after.work == form.work.push(
                Task::HostAdvance(call.id),
            ) && after.host_calls.len() == form.host_calls.len() && after.host_calls.last().phase
                == Phase::Ready(stage, call.prefix + values) && after.host_calls.last().id
                == call.id
        }),
{
    let n = form.values.len() - values.len();
    assert(form.values.take(n) =~= below);
    assert(form.values.skip(n) =~= values);
    if values.len() == 1 {
        assert(values =~= seq![values[0]]);
    }
}

/// The host is asked with the values of the stage, which have the types that the service declares;
/// the call waits for one value more than lies on the stack. What was left out is told for a plain
/// call only.
pub proof fn law_host_is_asked(
    vm: VmModel,
    fiber: FiberModel,
    form: Form,
    call: HostCall,
    stage: RuntimeHostStage,
    arguments: Seq<Val>,
)
    requires
        form.host_calls.len() > 0,
        form_hosts::host_asked(vm, fiber, form, call, stage, arguments).1 is Ok,
    ensures
        ({
            let (after, r) = form_hosts::host_asked(vm, fiber, form, call, stage, arguments);
            &&& r->Ok_0 matches Asked::Ask { target, arguments: sent, omitted, scope } && {
                &&& sent == arguments
                &&& target.import.parameters@.len() == arguments.len()
                &&& forall|i: int|
                    0 <= i < arguments.len() ==> (#[trigger] arguments[i]).value_type()
                        == target.import.parameters@[i]
                &&& stage is Call ==> omitted == call.bound.omitted
                &&& !(stage is Call) ==> omitted.len() == 0
                &&& scope.occurrence == call.id && scope.frame == form.frame && scope.fiber
                    == fiber.id
            }
            &&& exists|o: int|
                0 <= o < fiber.frames.len() && (#[trigger] fiber.frames[o]).id == form.frame
                    && after.host_calls.last().phase == Phase::Waiting(
                    stage,
                    fiber.frames[o].stack.len() as usize,
                )
            &&& after.values == form.values
        }),
{
    let p = state::frame_is(form.frame);
    lookup::lemma_first_index(fiber.frames, p);
    let o = form_support::owner_at(fiber, form.frame)->Ok_0;
    assert(p(fiber.frames[o]));
}

proof fn lemma_pushed_keeps(
    form: Form,
    program: ProgramGeneration,
    source: Seq<Option<Tree>>,
    parameters: Seq<BytecodeType>,
    n: nat,
)
    ensures
        ({
            let after = form_support::operands_pushed(form, program, source, parameters, n).0;
            after.host_calls == form.host_calls && after.next_host_scope == form.next_host_scope
                && after.values == form.values
        }),
    decreases n,
{
    if n > 0 {
        let tasks = form_support::operand_tasks(
            program,
            form.function,
            source[n - 1],
            parameters[n - 1],
        );
        if let Ok(tasks) = tasks {
            lemma_pushed_keeps(
                form_support::with_tasks(form, tasks),
                program,
                source,
                parameters,
                (n - 1) as nat,
            );
        }
    }
}

/// Each call of the host gets a number of its own, and is the innermost one until it ends.
pub proof fn law_host_call_is_opened(
    vm: VmModel,
    form: Form,
    bound: BoundService,
    source: Seq<Option<Tree>>,
    site: RuntimeCallSite,
)
    requires
        form_hosts::host_scheduled(vm, form, bound, source, site).1 is Ok,
    ensures
        ({
            let after = form_hosts::host_scheduled(vm, form, bound, source, site).0;
            let call = after.host_calls.last();
            &&& after.next_host_scope == form.next_host_scope + 1
            &&& after.host_calls.len() == form.host_calls.len() + 1
            &&& after.host_calls.drop_last() == form.host_calls
            &&& call.id == form.next_host_scope && call.bound == bound && call.source == source
                && call.site == site && call.prefix.len() == 0
            &&& after.values == form.values
        }),
{
    let program = vm.program(form.generation)->Some_0;
    let family = form_binding::host_family(program, bound.key)->Ok_0;
    let (stage, count) = form_hosts::first_stage(family.lowering, source.len());
    let id = form.next_host_scope;
    let call = HostCall {
        id,
        site,
        bound,
        source,
        phase: Phase::Collect(stage, count as usize),
        prefix: Seq::empty(),
    };
    let opened = Form {
        next_host_scope: (id + 1) as u64,
        host_calls: form.host_calls.push(call),
        ..form
    };
    lemma_pushed_keeps(
        opened.with_task(Task::HostAdvance(id)),
        program,
        source,
        bound.import.parameters,
        count,
    );
    assert(form.host_calls.push(call).drop_last() =~= form.host_calls);
}

/// The arguments of a call text stand in their order; one that is left out stays left out.
pub proof fn law_text_arguments_keep_their_order(s: Seq<TextArgument>)
    ensures
        form_call_text::text_arguments(s) matches Ok(arguments) ==> arguments.len() == s.len()
            && forall|i: int|
            0 <= i < s.len() ==> match #[trigger] s[i] {
                TextArgument::Expression(t) => arguments[i] == Some(t),
                TextArgument::Omitted => arguments[i] is None,
                TextArgument::Other => false,
            },
        form_call_text::text_arguments(s) is Err <==> exists|i: int|
            0 <= i < s.len() && #[trigger] s[i] is Other,
    decreases s.len(),
{
    if s.len() > 0 {
        let before = s.drop_last();
        law_text_arguments_keep_their_order(before);
        let last = s[s.len() - 1];
        assert(s.last() == last);
        if form_call_text::text_arguments(before) is Err {
            let i = choose|i: int| 0 <= i < before.len() && #[trigger] before[i] is Other;
            assert(s[i] is Other);
        } else {
            let given = form_call_text::text_arguments(before)->Ok_0;
            assert forall|i: int| 0 <= i < before.len() implies !(#[trigger] s[i] is Other) by {
                assert(before[i] == s[i]);
                assert(!(before[i] is Other));
            }
            if let Ok(arguments) = form_call_text::text_arguments(s) {
                assert forall|i: int| 0 <= i < s.len() implies match #[trigger] s[i] {
                    TextArgument::Expression(t) => arguments[i] == Some(t),
                    TextArgument::Omitted => arguments[i] is None,
                    TextArgument::Other => false,
                } by {
                    if i < before.len() {
                        assert(before[i] == s[i]);
                        assert(arguments[i] == given[i]);
                    }
                }
            }
        }
    }
}

/// A call text is paid for by its bytes out of what an evaluation may still parse, and refused where
/// that is not enough.
pub proof fn law_call_text_is_paid_for(vm: VmModel, form: Form, source: Seq<char>)
    ensures
        ({
            let (after, r) = form_call_text::text_begun(vm, form, source);
            let size = form_resources::size(source);
            &&& size > form.remaining_bytes ==> after == form && (r matches Err(e) && e.code
                is ResourceLimit)
            &&& size <= form.remaining_bytes ==> after.remaining_bytes + size
                == form.remaining_bytes && after.work == form.work
        }),
{
}

/// A parsed call text: a blank one does nothing; one whose arguments do not parse is noted as failed
/// where the call may fail, and one that does not parse otherwise is refused.
pub proof fn law_parsed_call_text(
    vm: VmModel,
    providers: NativeProviders,
    form: Form,
    spec: CallTextSpec,
    parsed: CallText,
    kind: Result<(), Failure>,
)
    requires
        vm.program(form.generation) is Some,
        form.completion matches RuntimeFormRoot::Call { spec: root, .. } && root == spec,
    ensures
        ({
            let (after, r) = form_call_text::text_parsed(vm, providers, form, spec, parsed, kind);
            &&& parsed is Blank ==> after == form && r is Ok
            &&& parsed matches CallText::Failed(in_arguments, _) ==> if in_arguments
                && spec.allow_missing {
                r is Ok && after == (Form {
                    completion: RuntimeFormRoot::Call { spec, failed: true },
                    ..form
                })
            } else {
                r is Err && after == form
            }
        }),
{
}

/// The key of the service that an instruction calls is the number in its first sixteen bytes, the
/// lowest byte first.
pub proof fn law_service_key(payload: Seq<u8>)
    requires
        payload.len() >= 16,
    ensures
        faults::key_of(payload).0 == call_laws::four_bytes(payload, 0) + 0x1_0000_0000
            * call_laws::four_bytes(payload, 4) + 0x1_0000_0000_0000_0000 * (call_laws::four_bytes(
            payload,
            8,
        ) + 0x1_0000_0000 * call_laws::four_bytes(payload, 12)),
{
    reveal_with_fuel(operand::little_endian, 9);
}

/// A command is reported by the name of the service that it calls, and a service of the host stands
/// before one of the machine with the same key.
pub proof fn law_command_is_named(
    vm: VmModel,
    at: At,
    program: ProgramGeneration,
    key: SymbolKey,
    k: int,
)
    requires
        at.opcode is CallHost || at.opcode is CallNative,
        at.payload.len() >= 16,
        vm.program(at.generation) == Some(program),
        faults::key_of(at.payload) == key,
    ensures
        ({
            let host = 0 <= k < program.host_imports@.len() && program.host_imports@[k].import.key
                == key && forall|j: int|
                0 <= j < k ==> (#[trigger] program.host_imports@[j]).import.key != key;
            let native = 0 <= k < program.native_imports@.len()
                && program.native_imports@[k].import.key == key && (forall|j: int|
                0 <= j < k ==> (#[trigger] program.native_imports@[j]).import.key != key) && forall|
                j: int,
            |
                0 <= j < program.host_imports@.len() ==> (
                #[trigger] program.host_imports@[j]).import.key != key;
            &&& host ==> faults::command_text(vm, at) == program.host_imports@[k].import.name@
            &&& native ==> faults::command_text(vm, at) == program.native_imports@[k].import.name@
        }),
{
    let p = faults::host_key(key);
    let q = faults::native_key(key);
    lookup::lemma_first_index(program.host_imports@, p);
    lookup::lemma_first_index(program.native_imports@, q);
    if 0 <= k < program.host_imports@.len() && program.host_imports@[k].import.key == key && forall|
        j: int,
    |
        0 <= j < k ==> (#[trigger] program.host_imports@[j]).import.key != key {
        assert(p(program.host_imports@[k]));
        assert forall|j: int| 0 <= j < k implies !p(#[trigger] program.host_imports@[j]) by {}
        lookup::lemma_first_found(program.host_imports@, p, k);
    }
    if 0 <= k < program.native_imports@.len() && program.native_imports@[k].import.key == key && (
    forall|j: int| 0 <= j < k ==> (#[trigger] program.native_imports@[j]).import.key != key)
        && forall|j: int|
        0 <= j < program.host_imports@.len() ==> (#[trigger] program.host_imports@[j]).import.key
            != key {
        assert forall|j: int| 0 <= j < program.host_imports@.len() implies !p(
            #[trigger] program.host_imports@[j],
        ) by {}
        lookup::lemma_first_none(program.host_imports@, p);
        assert(q(program.native_imports@[k]));
        assert forall|j: int| 0 <= j < k implies !q(#[trigger] program.native_imports@[j]) by {}
        lookup::lemma_first_found(program.native_imports@, q, k);
    }
}

} // verus!
