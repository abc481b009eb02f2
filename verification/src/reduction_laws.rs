//! What is known of arguments before they are evaluated, and how BIT calls take their operands.

use vstd::prelude::*;
use crate::ast::Tree;
use crate::bit_calls::{self, BitModel, BitReplyModel};
use crate::fault::Failure;
use crate::form_reduction::{self, ChildRule};
use crate::form_terms;
use crate::form_typing;
use crate::forms::{Edge, Prepared};
use crate::lookup;
use crate::program::{BytecodeGlobal, ProgramGeneration};
use crate::state::{self, At, ExecutionPolicy, FiberModel, Outcome, VmModel};
use crate::terms::{self, Callee, Literal, ReferenceTermArgument, Term};
use crate::text;
use crate::value::{SymbolKey, Val};

verus! {

/// Every operand of a node is a literal.
pub open spec fn all_literal(g: Prepared, node: int) -> bool {
    forall|i: int|
        0 <= i < g.edges[node].len() ==> form_terms::single_of(g, #[trigger] g.edges[node][i])
            is Some
}

/// An operation or a choice is computed ahead of time exactly where all its operands are literals; a
/// sign too, but no increment or decrement; and a formatted text where it names no character. Calls
/// of users are never computed ahead.
pub proof fn law_folding_needs_literals(
    program: ProgramGeneration,
    function: SymbolKey,
    g: Prepared,
    node: int,
    scratch: Seq<Edge>,
)
    ensures
        ({
            let r = form_reduction::folds(program, function, g, node, scratch);
            let yes = r == Ok::<bool, Failure>(true);
            match g.template.nodes[node].term {
                Term::Binary(_, _, _) => r is Ok && (yes <==> all_literal(g, node)),
                Term::Ternary(_, _, _) => r is Ok && (yes <==> all_literal(g, node)),
                Term::Unary(op, _) => r is Ok && (yes <==> all_literal(g, node) && !(op
                    is PreIncrement) && !(op is PreDecrement)),
                Term::Form(parts) => r is Ok && (yes <==> all_literal(g, node) && forall|i: int|
                    0 <= i < parts.len() ==> !((#[trigger] parts[i]) is Triple)),
                Term::Variable(_, _) => yes ==> all_literal(g, node),
                Term::Call(Callee::User(_), _) => !yes && r is Ok,
                Term::Call(Callee::Intrinsic(_), _) => !yes && r is Ok,
                _ => true,
            }
        }),
{
    let edges = g.edges[node];
    if all_literal(g, node) {
        assert(form_reduction::literals_from(g, edges, 0));
    }
    if form_reduction::literals_from(g, edges, 0) {
        assert(all_literal(g, node));
    }
}

/// The arguments of a user function are visited in their order; the one for a parameter that takes
/// a value is replaced by its result, and the one for a reference is not.
pub proof fn law_user_arguments_are_visited(
    program: ProgramGeneration,
    key: SymbolKey,
    arguments: Seq<ReferenceTermArgument>,
    j: int,
)
    requires
        arguments.len() <= usize::MAX,
        0 <= j < arguments.len(),
        arguments[j].node is Some,
        program.spec_function(key) matches Some(f) && j < f.parameters@.len(),
    ensures
        form_reduction::slot_visits(program, ChildRule::Parameters(key), arguments).contains(
            (
                terms::argument_nodes(arguments.take(j)).len() as usize,
                !program.spec_function(key)->Some_0.parameters@[j].by_reference,
            ),
        ),
    decreases arguments.len(),
{
    let rule = ChildRule::Parameters(key);
    let before = arguments.drop_last();
    let visits = form_reduction::slot_visits(program, rule, arguments);
    let visit = (
        terms::argument_nodes(arguments.take(j)).len() as usize,
        !program.spec_function(key)->Some_0.parameters@[j].by_reference,
    );
    if j < before.len() {
        law_user_arguments_are_visited(program, key, before, j);
        assert(before.take(j) =~= arguments.take(j));
        let rest = form_reduction::slot_visits(program, rule, before);
        let k = choose|k: int| 0 <= k < rest.len() && rest[k] == visit;
        assert(visits[k] == visit);
    } else {
        assert(before =~= arguments.take(j));
        assert(visits[visits.len() - 1] == visit);
    }
}

/// The number that a node has as an index.
pub open spec fn literal_index(g: Prepared, node: int, edge: int) -> Option<i64> {
    match form_terms::single_of(g, g.edges[node][edge]) {
        Some(Literal::Integer(n)) => Some(n),
        _ => None,
    }
}

/// A literal index lies inside its dimension.
pub open spec fn inside(g: Prepared, node: int, edge: int, d: BytecodeGlobal) -> bool {
    literal_index(g, node, edge) matches Some(n) ==> edge < d.dimensions@.len() && 0 <= n
        < d.dimensions@[edge]
}

proof fn lemma_first_bad(
    program: ProgramGeneration,
    g: Prepared,
    node: int,
    key: SymbolKey,
    indices: Seq<u32>,
    d: BytecodeGlobal,
    n: nat,
)
    requires
        plain_variable(program, g, node, key, indices, d),
    ensures
        match form_reduction::first_bad(program, g, node, n) {
            Ok(None) => forall|i: int| 0 <= i < n ==> #[trigger] inside(g, node, i, d),
            Ok(Some(k)) => 0 <= k < n && !inside(g, node, k, d) && forall|i: int|
                0 <= i < k ==> #[trigger] inside(g, node, i, d),
            Err(_) => false,
        },
    decreases n,
{
    if n > 0 {
        lemma_first_bad(program, g, node, key, indices, d, (n - 1) as nat);
        assert(inside(g, node, n - 1, d) <==> form_reduction::bad_index(
            program,
            g,
            node,
            n - 1,
        ) == Ok::<bool, Failure>(false));
    }
}

/// A node reads a variable that is no reference, no argument and no variable of characters.
pub open spec fn plain_variable(
    program: ProgramGeneration,
    g: Prepared,
    node: int,
    key: SymbolKey,
    indices: Seq<u32>,
    d: BytecodeGlobal,
) -> bool {
    &&& g.template.nodes[node].term == Term::Variable(key, indices)
    &&& program.spec_global(key) matches Some(found) && *found == d
    &&& form_reduction::variable_facts(program, key) matches Some(facts) && !facts.reference
    &&& d.name@ != "ARG"@ && d.name@ != "ARGS"@
    &&& !(d.storage is Character)
}

/// The first literal index outside its dimension is the one that is found; where none is found, all
/// literal indices lie inside.
pub proof fn law_bad_index_is_found(
    program: ProgramGeneration,
    g: Prepared,
    node: int,
    key: SymbolKey,
    indices: Seq<u32>,
    d: BytecodeGlobal,
)
    requires
        plain_variable(program, g, node, key, indices, d),
    ensures
        ({
            let n = g.edges[node].len();
            &&& form_reduction::indices_checked(program, g, node) is Ok <==> forall|i: int|
                0 <= i < n ==> #[trigger] inside(g, node, i, d)
            &&& form_reduction::indices_checked(program, g, node) matches Err(e) ==> e.code is Bounds
            &&& form_reduction::bad_edge(program, g, node) matches Ok(Some(k)) ==> 0 <= k < n
                && !inside(g, node, k, d) && forall|i: int|
                0 <= i < k ==> #[trigger] inside(g, node, i, d)
        }),
{
    lemma_first_bad(program, g, node, key, indices, d, g.edges[node].len());
}

/// Where the failure of an index is left to the reading of the variable, that index and those in
/// front of it stay, and those behind it are zero.
pub proof fn law_deferred_indices(g: Prepared, node: int, edge: int, i: int)
    requires
        0 <= node < g.edges.len(),
        0 <= i < g.edges[node].len(),
    ensures
        ({
            let after = form_reduction::deferred(g, node, edge);
            &&& after.edges[node].len() == g.edges[node].len()
            &&& i <= edge ==> after.edges[node][i] == g.edges[node][i]
            &&& i > edge ==> after.edges[node][i] == Edge::Single(Literal::Integer(0))
            &&& after.roots == g.roots && after.template == g.template
        }),
{
}

/// A value becomes the literal that holds it; a place does not become one.
pub proof fn law_value_becomes_literal(v: Val)
    ensures
        match form_reduction::literal_of(v) {
            Ok(Edge::Single(Literal::Integer(n))) => v == Val::Integer(n),
            Ok(Edge::Single(Literal::Text(s))) => v == Val::Text(s),
            Ok(Edge::Original(_)) => false,
            Err(_) => !(v is Integer) && !(v is Text),
        },
{
}

/// A variable that is asked about is taken without indices or with all of them, and never with more
/// than it has room for; the generator of random numbers aside.
pub proof fn law_probed_indices(program: ProgramGeneration, g: BytecodeGlobal, indices: Seq<Tree>)
    requires
        !(g.storage is Calculated && text::same_ignoring_case(g.name@, "RAND"@)),
    ensures
        ({
            let r = form_typing::probe_shape(program, g, indices);
            let room = g.dimensions@.len() + if g.storage is Character {
                1int
            } else {
                0int
            };
            &&& indices.len() == 0 || indices.len() == room ==> r is Ok
            &&& indices.len() > room ==> r is Err
            &&& g.dimensions@.len() >= 2 && 0 < indices.len() < room ==> r is Err
            &&& g.storage is Character && g.dimensions@.len() == 1 && indices.len() == 1 ==> (r is Ok
                <==> !program.call_compatibility.system_no_target)
        }),
{
}

pub proof fn lemma_integers_from(stack: Seq<Val>, start: int)
    requires
        0 <= start <= stack.len(),
    ensures
        are_integers(stack, start),
    decreases stack.len() - start,
{
    if start < stack.len() {
        lemma_integers_from(stack, start + 1);
        if let Some(values) = bit_calls::integers_from(stack, start) {
            let rest = bit_calls::integers_from(stack, start + 1)->Some_0;
            assert forall|i: int| 0 <= i < values.len() implies stack[start + i] == Val::Integer(
                #[trigger] values[i],
            ) by {
                if i > 0 {
                    assert(values[i] == rest[i - 1]);
                    assert(stack[start + 1 + (i - 1)] == Val::Integer(rest[i - 1]));
                }
            }
        }
    }
}

/// The integers of a stack from a position on are found where all values there are integers.
pub open spec fn are_integers(stack: Seq<Val>, start: int) -> bool {
    bit_calls::integers_from(stack, start) matches Some(values) ==> values.len() == stack.len()
        - start && forall|i: int|
        0 <= i < values.len() ==> stack[start + i] == Val::Integer(#[trigger] values[i])
}

/// A BIT call works with the integers that lie above its mark on the stack, in their order, on the
/// array that it captured; no step works on more cells than instructions are left, or than the most
/// that one step may do, but on one at least.
pub proof fn law_bit_operands(
    vm: VmModel,
    fiber: FiberModel,
    at: At,
    policy: ExecutionPolicy,
)
    requires
        bit_calls::work_step(vm, fiber, at, policy).2 is Ok,
    ensures
        ({
            let (vm1, after, r) = bit_calls::work_step(vm, fiber, at, policy);
            let stack = fiber.frames.last().stack;
            let pending = fiber.frames.last().bit_calls.last();
            let mark = pending.stack_index as int;
            &&& vm1 == vm && after == fiber
            &&& r->Ok_0 matches BitModel::Work { spec, values, lease, length, work, limit } && {
                &&& spec == pending.spec && lease == pending.lease && work == pending.work
                &&& values.len() == stack.len() - mark - 1
                &&& forall|i: int|
                    0 <= i < values.len() ==> stack[mark + 1 + i] == Val::Integer(
                        #[trigger] values[i],
                    )
                &&& 1 <= limit <= 256
                &&& limit > 1 ==> limit <= policy.remaining_instructions && limit
                    <= policy.remaining_quantum
                &&& exists|l: int|
                    0 <= l < vm.store.leases.len() && (#[trigger] vm.store.leases[l]).id == lease
                        && vm.store.leases[l].length == length
            }
        }),
{
    let stack = fiber.frames.last().stack;
    let pending = fiber.frames.last().bit_calls.last();
    lemma_integers_from(stack, pending.stack_index + 1);
    let p = state::lease_is(pending.lease);
    lookup::lemma_first_index(vm.store.leases, p);
    let l = lookup::first_index(vm.store.leases, p)->Some_0;
    assert(p(vm.store.leases[l]));
}

/// A BIT call that is not done yet comes back to its instruction with what it has reached, and keeps
/// its operands and its array; each step counts as many instructions as cells were visited.
pub proof fn law_bit_work_goes_on(vm: VmModel, fiber: FiberModel, at: At, reply: BitReplyModel)
    requires
        fiber.frames.len() > 0,
        fiber.frames.last().bit_calls.len() > 0,
    ensures
        ({
            let (vm1, after, r) = bit_calls::array_worked(vm, fiber, at, reply);
            let before = fiber.frames.last();
            let now = after.frames.last();
            &&& reply matches BitReplyModel::Continue { work, visited } ==> vm1 == vm
                && now.instruction == at.instruction && now.stack == before.stack
                && now.bit_calls.len() == before.bit_calls.len() && now.bit_calls.last().work
                == Some(work) && now.bit_calls.last().lease == before.bit_calls.last().lease
                && now.bit_calls.drop_last() == before.bit_calls.drop_last() && (visited > 0 ==> r
                == Ok::<Outcome, Failure>(Outcome::BulkProgress((visited - 1) as u64)))
            &&& reply matches BitReplyModel::Complete { value, visited } ==> now.instruction
                == before.instruction && now.stack == before.stack.take(
                before.bit_calls.last().stack_index as int,
            ).push(Val::Integer(value)) && (visited > 0 ==> r == Ok::<Outcome, Failure>(
                Outcome::BulkProgress((visited - 1) as u64),
            ))
        }),
{
    let after = bit_calls::array_worked(vm, fiber, at, reply).1;
    if reply is Continue {
        assert(after.frames.last().bit_calls.drop_last()
            =~= fiber.frames.last().bit_calls.drop_last());
    }
}

} // verus!
