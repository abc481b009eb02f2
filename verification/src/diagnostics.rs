//! One bounded queue of warnings; each is reported once for each place in the code.

use vstd::prelude::*;
use std::rc::Rc;
use crate::faults::{self, OriginModel};
use crate::program::ExcessArgumentPolicy;
use crate::state::{
    At, CompatibilityWarning, InstructionPosition, IntegerArithmeticWarning, ResolvedUserCall, Vm,
    VmDiagnosticNotification, VmExecutionOrigin, VmModel, WarningSite,
};
use crate::value::FiberId;

verus! {

/// Something a slice of execution reports.
#[derive(PartialEq, Eq, Debug)]
pub enum VmEvent {
    Diagnostic {
        fiber: FiberId,
        code: &'static str,
        message: &'static str,
        origin: Rc<VmExecutionOrigin>,
        notification: VmDiagnosticNotification,
    },
}

/// Mathematical content of a [`VmEvent`].
pub struct Report {
    pub fiber: FiberId,
    pub code: Seq<char>,
    pub message: Seq<char>,
    pub origin: OriginModel,
    pub notification: VmDiagnosticNotification,
}

impl View for VmEvent {
    type V = Report;

    open spec fn view(&self) -> Report {
        match self {
            VmEvent::Diagnostic { fiber, code, message, origin, notification } => Report {
                fiber: *fiber,
                code: code@,
                message: message@,
                origin: origin@,
                notification: *notification,
            },
        }
    }
}

pub open spec fn reports(s: Seq<VmEvent>) -> Seq<Report> {
    s.map_values(|e: VmEvent| e@)
}

/// Number, code and message of a warning.
pub open spec fn described(w: CompatibilityWarning) -> (u8, Seq<char>, Seq<char>) {
    match w {
        CompatibilityWarning::Arithmetic(IntegerArithmeticWarning::Overflow) => (
            0,
            "compat.arithmetic.overflow"@,
            "integer arithmetic overflowed; snake saturation policy applied"@,
        ),
        CompatibilityWarning::Arithmetic(IntegerArithmeticWarning::DivideByZero) => (
            1,
            "compat.arithmetic.divide_by_zero"@,
            "integer division or remainder by zero returned zero under snake policy"@,
        ),
        CompatibilityWarning::ExcessUserArguments => (
            2,
            "compat.call.excess_arguments"@,
            "extra user-call arguments were ignored without evaluation under snake policy"@,
        ),
    }
}

impl CompatibilityWarning {
    /// Number, code and message.
    pub fn descriptor(self) -> (r: (u8, &'static str, &'static str))
        ensures
            (r.0, r.1@, r.2@) == described(self),
    {
        match self {
            CompatibilityWarning::Arithmetic(IntegerArithmeticWarning::Overflow) => (
                0,
                "compat.arithmetic.overflow",
                "integer arithmetic overflowed; snake saturation policy applied",
            ),
            CompatibilityWarning::Arithmetic(IntegerArithmeticWarning::DivideByZero) => (
                1,
                "compat.arithmetic.divide_by_zero",
                "integer division or remainder by zero returned zero under snake policy",
            ),
            CompatibilityWarning::ExcessUserArguments => (
                2,
                "compat.call.excess_arguments",
                "extra user-call arguments were ignored without evaluation under snake policy",
            ),
        }
    }
}

/// The machine with a warning queued; a warning that waits already is not queued again.
pub open spec fn queued(vm: VmModel, w: CompatibilityWarning) -> VmModel {
    if vm.warnings.contains(w) {
        vm
    } else {
        VmModel { warnings: vm.warnings.push(w), ..vm }
    }
}

/// The queue has room for each kind of warning once.
pub open spec fn queue_valid(vm: VmModel) -> bool {
    vm.warnings.no_duplicates()
}

impl Vm {
    /// Queues a warning unless it waits already.
    pub fn queue_compatibility_warning(&mut self, w: CompatibilityWarning)
        ensures
            final(self)@ == queued(old(self)@, w),
    {
        let mut i: usize = 0;
        while i < self.pending_compatibility_warnings.len()
            invariant
                i <= self.pending_compatibility_warnings.len(),
                self@ == old(self)@,
                forall|j: int| 0 <= j < i ==> self.pending_compatibility_warnings@[j] != w,
            decreases self.pending_compatibility_warnings.len() - i,
        {
            if self.pending_compatibility_warnings[i] == w {
                assert(self@.warnings[i as int] == w);
                return;
            }
            i = i + 1;
        }
        assert(!self@.warnings.contains(w));
        self.pending_compatibility_warnings.push(w);
    }
}

/// A warning is due for a user call with more arguments than parameters.
pub open spec fn excess_warned(vm: VmModel, call: ResolvedUserCall, given: nat) -> bool {
    vm.program(call.generation) matches Some(program) && given > call.bindings@.len()
        && program.call_compatibility.excess_arguments is IgnoreWithWarning
}

impl Vm {
    /// Queues the warning that a user call calls for.
    pub fn queue_user_call_diagnostic(
        &mut self,
        call: &ResolvedUserCall,
        syntactic_arguments: usize,
    )
        ensures
            final(self)@ == if excess_warned(old(self)@, *call, syntactic_arguments as nat) {
                queued(old(self)@, CompatibilityWarning::ExcessUserArguments)
            } else {
                old(self)@
            },
    {
        match self.program(call.generation) {
            None => {},
            Some(program) => {
                if syntactic_arguments > call.bindings.len()
                    && program.call_compatibility.excess_arguments
                    == ExcessArgumentPolicy::IgnoreWithWarning {
                    self.queue_compatibility_warning(CompatibilityWarning::ExcessUserArguments);
                }
            },
        }
    }
}

/// The place a warning is reported for.
pub open spec fn site_of(at: At, w: CompatibilityWarning) -> WarningSite {
    WarningSite {
        generation: at.generation,
        function: at.function,
        instruction: at.instruction,
        tag: described(w).0,
    }
}

pub open spec fn report_of(fiber: FiberId, w: CompatibilityWarning, origin: OriginModel) -> Report {
    Report {
        fiber,
        code: described(w).1,
        message: described(w).2,
        origin,
        notification: VmDiagnosticNotification::LogOnly,
    }
}

/// Known places and reports after some warnings were reported at a position.
pub open spec fn reported(
    sites: Seq<WarningSite>,
    before: Seq<Report>,
    warnings: Seq<CompatibilityWarning>,
    fiber: FiberId,
    at: At,
    origin: OriginModel,
) -> (Seq<WarningSite>, Seq<Report>)
    decreases warnings.len(),
{
    if warnings.len() == 0 {
        (sites, before)
    } else {
        let rest = reported(sites, before, warnings.drop_last(), fiber, at, origin);
        let w = warnings.last();
        if rest.0.contains(site_of(at, w)) {
            rest
        } else {
            (rest.0.push(site_of(at, w)), rest.1.push(report_of(fiber, w, origin)))
        }
    }
}

/// The machine and the reports after the queue was drained at a position.
pub open spec fn drained(vm: VmModel, before: Seq<Report>, fiber: FiberId, at: At) -> (
    VmModel,
    Seq<Report>,
) {
    if vm.warnings.len() == 0 {
        (vm, before)
    } else {
        let after = reported(
            vm.warning_sites,
            before,
            vm.warnings,
            fiber,
            at,
            faults::origin_of(vm, at, faults::command_text(vm, at)),
        );
        (
            VmModel {
                warnings: Seq::empty(),
                warning_sites: after.0,
                memo_frames: Seq::empty(),
                ..vm.without_path_memo(fiber)
            },
            after.1,
        )
    }
}

fn knows(sites: &Vec<WarningSite>, site: WarningSite) -> (r: bool)
    ensures
        r == sites@.contains(site),
{
    let mut i: usize = 0;
    while i < sites.len()
        invariant
            i <= sites.len(),
            forall|j: int| 0 <= j < i ==> sites@[j] != site,
        decreases sites.len() - i,
    {
        if sites[i] == site {
            return true;
        }
        i = i + 1;
    }
    false
}

impl Vm {
    /// Reports all queued warnings at a position, each once for each place.
    pub fn drain_compatibility_diagnostics(
        &mut self,
        fiber: FiberId,
        position: &InstructionPosition<'_>,
        events: &mut Vec<VmEvent>,
    )
        ensures
            (final(self)@, reports(final(events)@)) == drained(
                old(self)@,
                reports(old(events)@),
                fiber,
                position@,
            ),
    {
        if self.pending_compatibility_warnings.len() == 0 {
            return;
        }
        let command = self.command_for_position(position);
        let origin = Rc::new(self.execution_origin(position, command.as_str()));
        self.invalidate_path_memo(fiber);
        self.active_function_memos = Vec::new();
        let mut queue: Vec<CompatibilityWarning> = Vec::new();
        std::mem::swap(&mut queue, &mut self.pending_compatibility_warnings);
        let ghost sites = self.compatibility_warning_sites@;
        let ghost before = reports(events@);
        let ghost start = self@;
        let mut i: usize = 0;
        assert(queue@.take(0) =~= Seq::<CompatibilityWarning>::empty());
        while i < queue.len()
            invariant
                i <= queue.len(),
                self@ == (VmModel { warning_sites: self@.warning_sites, ..start }),
                (self@.warning_sites, reports(events@)) == reported(
                    sites,
                    before,
                    queue@.take(i as int),
                    fiber,
                    position@,
                    origin@,
                ),
            decreases queue.len() - i,
        {
            let w = queue[i];
            let (tag, code, message) = w.descriptor();
            let site = WarningSite {
                generation: position.generation,
                function: position.function,
                instruction: position.instruction,
                tag,
            };
            assert(queue@.take(i + 1).drop_last() =~= queue@.take(i as int));
            if !knows(&self.compatibility_warning_sites, site) {
                self.compatibility_warning_sites.push(site);
                let ghost earlier = events@;
                events.push(
                    VmEvent::Diagnostic {
                        fiber,
                        code,
                        message,
                        origin: origin.clone(),
                        notification: VmDiagnosticNotification::LogOnly,
                    },
                );
                assert(reports(events@) =~= reports(earlier).push(events@.last()@));
            }
            i = i + 1;
        }
        proof {
            assert(queue@.take(i as int) =~= queue@);
            assert(self@.memo_frames =~= Seq::empty());
            assert(self@.warnings =~= Seq::empty());
        }
    }
}

/// Queueing keeps every kind of warning in the queue at most once.
pub proof fn law_queue_has_no_duplicates(vm: VmModel, w: CompatibilityWarning)
    requires
        queue_valid(vm),
    ensures
        queue_valid(queued(vm, w)),
        queued(vm, w).warnings.contains(w),
        forall|x: CompatibilityWarning|
            vm.warnings.contains(x) ==> queued(vm, w).warnings.contains(x),
{
    let after = queued(vm, w).warnings;
    if !vm.warnings.contains(w) {
        assert(after[after.len() - 1] == w);
        assert forall|x: CompatibilityWarning| vm.warnings.contains(x) implies after.contains(
            x,
        ) by {
            let i = choose|i: int| 0 <= i < vm.warnings.len() && vm.warnings[i] == x;
            assert(after[i] == x);
        }
    }
}

/// A queue without duplicates holds at most the three kinds of warnings.
pub proof fn law_queue_is_bounded(vm: VmModel)
    requires
        queue_valid(vm),
    ensures
        vm.warnings.len() <= 3,
{
    let s = vm.warnings;
    if s.len() > 3 {
        let a = s[0];
        let b = s[1];
        let c = s[2];
        let d = s[3];
        assert(a != b && a != c && a != d && b != c && b != d && c != d);
        assert(described(a).0 != described(b).0);
    }
}

/// Draining empties the queue, so draining once more reports nothing.
pub proof fn law_drain_happens_once(vm: VmModel, before: Seq<Report>, fiber: FiberId, at: At)
    ensures
        ({
            let once = drained(vm, before, fiber, at);
            &&& once.0.warnings.len() == 0
            &&& drained(once.0, once.1, fiber, at) == once
        }),
{
}

/// A warning whose place is known is not reported again.
pub proof fn law_known_site_is_silent(
    vm: VmModel,
    before: Seq<Report>,
    fiber: FiberId,
    at: At,
    w: CompatibilityWarning,
)
    requires
        vm.warnings == seq![w],
        vm.warning_sites.contains(site_of(at, w)),
    ensures
        drained(vm, before, fiber, at).1 == before,
{
    reveal_with_fuel(reported, 2);
    assert(vm.warnings.drop_last() =~= Seq::<CompatibilityWarning>::empty());
}

} // verus!
