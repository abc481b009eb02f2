//! Plans: the types and the bound calls of one source, found once and kept while it is evaluated.

use vstd::prelude::*;
use std::rc::Rc;
use crate::ast::{
    self, Expr, ExprKind, FormPart, FormTree, FormattedString, PartTree, Span, Tree, TreeKind,
};
use crate::existvar::invalid;
use crate::fault::{self, Failure, StepError};
use crate::form_graph::{self, GraphBuilder};
use crate::form_resources::{self, Count, Tally};
use crate::form_terms;
use crate::form_typing::{self, Found, Rules, TypeAnalysis};
use crate::forms::{
    self, BoundCall, Edge, Form, MatchSource, Plan, Prepared, PreparedReferenceArguments,
    RuntimeBoundCall, RuntimeCallPlan, RuntimeCallSite, RuntimeFormContinuation, RuntimeFormTask,
    RuntimePlanSource, Source, Task, TermRef, MAX_RUNTIME_FORM_NESTING,
};
use crate::lookup;
use crate::program::{MatchInput, ProgramGeneration, UserArgumentSpec};
use crate::state::{Vm, VmModel};
use crate::terms::{self, Graph, Literal, Node, ReferenceTermGraph, ReferenceTermKind};
use crate::value::{BytecodeType, SymbolKey};

verus! {

/// Something in a source that is still to be looked at.
#[derive(PartialEq, Eq, Debug)]
pub enum SourceNode {
    Expression(Rc<Expr>),
    Form(Rc<FormattedString>),
}

/// Mathematical content of a [`SourceNode`].
pub enum Item {
    Expression(Tree),
    Form(FormTree),
}

impl View for SourceNode {
    type V = Item;

    open spec fn view(&self) -> Item {
        match self {
            SourceNode::Expression(e) => Item::Expression(e@),
            SourceNode::Form(f) => Item::Form(f@),
        }
    }
}

pub open spec fn items(s: Seq<SourceNode>) -> Seq<Item> {
    s.map_values(|n: SourceNode| n@)
}

pub open spec fn argument_items(arguments: Seq<Option<Tree>>) -> Seq<Item>
    decreases arguments.len(),
{
    if arguments.len() == 0 {
        Seq::empty()
    } else {
        argument_items(arguments.drop_last()) + match arguments.last() {
            Some(t) => seq![Item::Expression(t)],
            None => Seq::empty(),
        }
    }
}

pub open spec fn index_items(indices: Seq<Tree>) -> Seq<Item> {
    indices.map_values(|t: Tree| Item::Expression(t))
}

/// What stands directly below an expression.
pub open spec fn expr_items(t: Tree) -> Seq<Item> {
    match t.kind {
        TreeKind::Variable(_, indices) => index_items(indices),
        TreeKind::Call(_, arguments) => argument_items(arguments),
        TreeKind::Group(x) => seq![Item::Expression(*x)],
        TreeKind::Unary(_, x) => seq![Item::Expression(*x)],
        TreeKind::Postfix(_, x) => seq![Item::Expression(*x)],
        TreeKind::Binary(_, x, y) => seq![Item::Expression(*x), Item::Expression(*y)],
        TreeKind::Ternary(x, y, z) => seq![
            Item::Expression(*x),
            Item::Expression(*y),
            Item::Expression(*z),
        ],
        TreeKind::Formatted(f) => seq![Item::Form(f)],
        _ => Seq::empty(),
    }
}

pub open spec fn part_items(p: PartTree) -> Seq<Item> {
    match p {
        PartTree::Interpolation(_, e, width, _) => match width {
            Some(w) => seq![Item::Expression(*e), Item::Expression(*w)],
            None => seq![Item::Expression(*e)],
        },
        PartTree::Conditional(c, then_value, else_value) => match else_value {
            Some(f) => seq![Item::Expression(*c), Item::Form(then_value), Item::Form(f)],
            None => seq![Item::Expression(*c), Item::Form(then_value)],
        },
        _ => Seq::empty(),
    }
}

/// What stands directly below a formatted text.
pub open spec fn form_items(parts: Seq<PartTree>) -> Seq<Item>
    decreases parts.len(),
{
    if parts.len() == 0 {
        Seq::empty()
    } else {
        form_items(parts.drop_last()) + part_items(parts.last())
    }
}

/// The number of nodes in and below some items.
pub open spec fn heft(s: Seq<Item>) -> nat
    decreases s.len(),
{
    if s.len() == 0 {
        0
    } else {
        heft(s.drop_last()) + match s.last() {
            Item::Expression(t) => form_resources::expr_weight(t).slots,
            Item::Form(f) => form_resources::form_weight(f).slots,
        }
    }
}

proof fn lemma_heft_join(a: Seq<Item>, b: Seq<Item>)
    ensures
        heft(a + b) == heft(a) + heft(b),
    decreases b.len(),
{
    if b.len() == 0 {
        assert(a + b =~= a);
    } else {
        assert((a + b).drop_last() =~= a + b.drop_last());
        lemma_heft_join(a, b.drop_last());
    }
}

proof fn lemma_index_heft(indices: Seq<Tree>)
    ensures
        heft(index_items(indices)) == form_resources::list_weight(indices).slots,
    decreases indices.len(),
{
    if indices.len() > 0 {
        lemma_index_heft(indices.drop_last());
        assert(index_items(indices).drop_last() =~= index_items(indices.drop_last()));
    }
}

proof fn lemma_argument_heft(arguments: Seq<Option<Tree>>)
    ensures
        heft(argument_items(arguments)) == form_resources::arguments_weight(arguments).slots,
    decreases arguments.len(),
{
    if arguments.len() > 0 {
        lemma_argument_heft(arguments.drop_last());
        let tail = match arguments.last() {
            Some(t) => seq![Item::Expression(t)],
            None => Seq::empty(),
        };
        lemma_heft_join(argument_items(arguments.drop_last()), tail);
        match arguments.last() {
            Some(t) => {
                lemma_one(Item::Expression(t));
            },
            None => {},
        }
    }
}

proof fn lemma_one(a: Item)
    ensures
        heft(seq![a]) == match a {
            Item::Expression(t) => form_resources::expr_weight(t).slots,
            Item::Form(f) => form_resources::form_weight(f).slots,
        },
{
    assert(seq![a].drop_last() =~= Seq::<Item>::empty());
    assert(seq![a].last() == a);
    assert(heft(Seq::<Item>::empty()) == 0);
}

proof fn lemma_two(a: Item, b: Item)
    ensures
        heft(seq![a, b]) == heft(seq![a]) + heft(seq![b]),
{
    assert(seq![a, b] =~= seq![a] + seq![b]);
    lemma_heft_join(seq![a], seq![b]);
}

proof fn lemma_three(a: Item, b: Item, c: Item)
    ensures
        heft(seq![a, b, c]) == heft(seq![a]) + heft(seq![b]) + heft(seq![c]),
{
    assert(seq![a, b, c] =~= seq![a, b] + seq![c]);
    lemma_heft_join(seq![a, b], seq![c]);
    lemma_two(a, b);
}

proof fn lemma_expr_heft(t: Tree)
    ensures
        heft(expr_items(t)) + 1 == form_resources::expr_weight(t).slots,
{
    match t.kind {
        TreeKind::Variable(_, indices) => {
            lemma_index_heft(indices);
        },
        TreeKind::Call(_, arguments) => {
            lemma_argument_heft(arguments);
        },
        TreeKind::Group(x) => {
            lemma_one(Item::Expression(*x));
        },
        TreeKind::Unary(_, x) => {
            lemma_one(Item::Expression(*x));
        },
        TreeKind::Postfix(_, x) => {
            lemma_one(Item::Expression(*x));
        },
        TreeKind::Binary(_, x, y) => {
            lemma_one(Item::Expression(*x));
            lemma_one(Item::Expression(*y));
            lemma_two(Item::Expression(*x), Item::Expression(*y));
        },
        TreeKind::Ternary(x, y, z) => {
            lemma_one(Item::Expression(*x));
            lemma_one(Item::Expression(*y));
            lemma_one(Item::Expression(*z));
            lemma_three(Item::Expression(*x), Item::Expression(*y), Item::Expression(*z));
        },
        TreeKind::Formatted(f) => {
            lemma_one(Item::Form(f));
        },
        _ => {},
    }
}

proof fn lemma_parts_heft(parts: Seq<PartTree>)
    ensures
        heft(form_items(parts)) + parts.len() == form_resources::parts_weight(parts).slots,
    decreases parts.len(),
{
    if parts.len() > 0 {
        lemma_parts_heft(parts.drop_last());
        let p = parts.last();
        assert(form_resources::parts_weight(parts).slots == form_resources::parts_weight(
            parts.drop_last(),
        ).slots + form_resources::part_weight(p).slots);
        lemma_heft_join(form_items(parts.drop_last()), part_items(p));
        match p {
            PartTree::Interpolation(_, e, width, _) => {
                lemma_one(Item::Expression(*e));
                match width {
                    Some(w) => {
                        lemma_one(Item::Expression(*w));
                        lemma_two(Item::Expression(*e), Item::Expression(*w));
                    },
                    None => {},
                }
            },
            PartTree::Conditional(c, t, e) => {
                lemma_one(Item::Expression(*c));
                lemma_one(Item::Form(t));
                match e {
                    Some(f) => {
                        lemma_one(Item::Form(f));
                        lemma_three(Item::Expression(*c), Item::Form(t), Item::Form(f));
                    },
                    None => {
                        lemma_two(Item::Expression(*c), Item::Form(t));
                    },
                }
            },
            _ => {},
        }
    }
}

pub proof fn lemma_step_heft(pending: Seq<Item>)
    requires
        pending.len() > 0,
    ensures
        heft(below(pending)) < heft(pending),
{
    match pending.last() {
        Item::Expression(t) => {
            lemma_expr_heft(t);
            lemma_heft_join(pending.drop_last(), expr_items(t));
        },
        Item::Form(f) => {
            lemma_parts_heft(f.parts);
            lemma_heft_join(pending.drop_last(), form_items(f.parts));
        },
    }
}

/// What is pending once the last item was replaced by what stands below it.
pub open spec fn below(pending: Seq<Item>) -> Seq<Item> {
    pending.drop_last() + match pending.last() {
        Item::Expression(t) => expr_items(t),
        Item::Form(f) => form_items(f.parts),
    }
}

/// All expressions in and below some items, in the order in which they are looked at.
pub open spec fn listed(pending: Seq<Item>) -> Seq<Tree>
    decreases heft(pending),
{
    if pending.len() == 0 {
        Seq::empty()
    } else {
        proof {
            lemma_step_heft(pending);
        }
        let rest = listed(below(pending));
        match pending.last() {
            Item::Expression(t) => seq![t] + rest,
            Item::Form(_) => rest,
        }
    }
}

/// What a source starts with.
pub open spec fn source_items(source: Source) -> Seq<Item> {
    match source {
        Source::Form(f) => seq![Item::Form(f)],
        Source::Arguments(a) => argument_items(a),
    }
}

fn push_item(pending: &mut Vec<SourceNode>, node: SourceNode)
    ensures
        items(final(pending)@) == items(old(pending)@).push(node@),
{
    pending.push(node);
    assert(items(pending@) =~= items(old(pending)@).push(node@));
}

fn extend_arguments(pending: &mut Vec<SourceNode>, arguments: &Vec<Option<Rc<Expr>>>)
    ensures
        items(final(pending)@) == items(old(pending)@) + argument_items(
            ast::argument_trees(arguments@),
        ),
{
    let ghost start = items(pending@);
    let ghost all = ast::argument_trees(arguments@);
    proof {
        ast::lemma_argument_trees(arguments@);
        assert(all.take(0) =~= Seq::<Option<Tree>>::empty());
        assert(start + Seq::<Item>::empty() =~= start);
    }
    let mut i: usize = 0;
    while i < arguments.len()
        invariant
            i <= arguments.len(),
            all == ast::argument_trees(arguments@),
            all.len() == arguments@.len(),
            forall|j: int|
                0 <= j < arguments@.len() ==> #[trigger] all[j] == ast::argument_tree(
                    arguments@[j],
                ),
            items(pending@) == start + argument_items(all.take(i as int)),
        decreases arguments.len() - i,
    {
        proof {
            assert(all.take(i + 1).drop_last() =~= all.take(i as int));
            assert(all.take(i + 1).last() == all[i as int]);
        }
        match &arguments[i] {
            Some(e) => {
                push_item(pending, SourceNode::Expression(e.clone()));
            },
            None => {},
        }
        i = i + 1;
        assert(items(pending@) =~= start + argument_items(all.take(i as int)));
    }
    assert(all.take(i as int) =~= all);
}

/// Adds what stands directly below an expression.
pub fn extend_expression(pending: &mut Vec<SourceNode>, e: &Rc<Expr>)
    ensures
        items(final(pending)@) == items(old(pending)@) + expr_items(e@),
{
    let ghost start = items(pending@);
    match &e.kind {
        ExprKind::Variable { indices, .. } => {
            let ghost all = ast::trees(indices@);
            proof {
                ast::lemma_trees(indices@);
            }
            let mut i: usize = 0;
            assert(start + index_items(all.take(0)) =~= start);
            while i < indices.len()
                invariant
                    i <= indices.len(),
                    all == ast::trees(indices@),
                    all.len() == indices@.len(),
                    forall|j: int|
                        0 <= j < indices@.len() ==> #[trigger] all[j] == ast::tree(*indices@[j]),
                    items(pending@) == start + index_items(all.take(i as int)),
                decreases indices.len() - i,
            {
                push_item(pending, SourceNode::Expression(indices[i].clone()));
                i = i + 1;
                assert(items(pending@) =~= start + index_items(all.take(i as int)));
            }
            assert(all.take(i as int) =~= all);
        },
        ExprKind::Call { args, .. } => {
            extend_arguments(pending, args);
        },
        ExprKind::Group(x) => {
            push_item(pending, SourceNode::Expression(x.clone()));
        },
        ExprKind::Unary { operand, .. } => {
            push_item(pending, SourceNode::Expression(operand.clone()));
        },
        ExprKind::Postfix { operand, .. } => {
            push_item(pending, SourceNode::Expression(operand.clone()));
        },
        ExprKind::Binary { left, right, .. } => {
            push_item(pending, SourceNode::Expression(left.clone()));
            push_item(pending, SourceNode::Expression(right.clone()));
        },
        ExprKind::Ternary { condition, then_expr, else_expr } => {
            push_item(pending, SourceNode::Expression(condition.clone()));
            push_item(pending, SourceNode::Expression(then_expr.clone()));
            push_item(pending, SourceNode::Expression(else_expr.clone()));
        },
        ExprKind::Formatted(f) => {
            push_item(pending, SourceNode::Form(f.clone()));
        },
        _ => {},
    }
    assert(items(pending@) =~= start + expr_items(e@));
}

/// Adds what stands directly below a formatted text.
pub fn extend_form(pending: &mut Vec<SourceNode>, f: &Rc<FormattedString>)
    ensures
        items(final(pending)@) == items(old(pending)@) + form_items(f@.parts),
{
    let ghost start = items(pending@);
    let ghost all = ast::part_trees(f.parts@);
    proof {
        ast::lemma_part_trees(f.parts@);
        assert(all.take(0) =~= Seq::<PartTree>::empty());
        assert(start + Seq::<Item>::empty() =~= start);
    }
    let mut i: usize = 0;
    while i < f.parts.len()
        invariant
            i <= f.parts.len(),
            all == ast::part_trees(f.parts@),
            all.len() == f.parts@.len(),
            forall|j: int|
                0 <= j < f.parts@.len() ==> #[trigger] all[j] == ast::part_tree(*f.parts@[j]),
            items(pending@) == start + form_items(all.take(i as int)),
        decreases f.parts.len() - i,
    {
        let ghost before = items(pending@);
        match &*f.parts[i] {
            FormPart::Interpolation { expression, width, .. } => {
                push_item(pending, SourceNode::Expression(expression.clone()));
                match width {
                    Some(w) => {
                        push_item(pending, SourceNode::Expression(w.clone()));
                    },
                    None => {},
                }
            },
            FormPart::Conditional { condition, then_value, else_value } => {
                push_item(pending, SourceNode::Expression(condition.clone()));
                push_item(pending, SourceNode::Form(then_value.clone()));
                match else_value {
                    Some(e) => {
                        push_item(pending, SourceNode::Form(e.clone()));
                    },
                    None => {},
                }
            },
            _ => {},
        }
        assert(items(pending@) =~= before + part_items(ast::part_tree(*f.parts@[i as int])));
        i = i + 1;
        assert(all.take(i as int).drop_last() =~= all.take(i - 1));
        assert(all.take(i as int).last() == all[i - 1]);
        assert(items(pending@) =~= start + form_items(all.take(i as int)));
    }
    assert(all.take(i as int) =~= all);
}

/// Walks over all expressions of a source.
#[derive(PartialEq, Eq, Debug)]
pub struct SourceExpressions {
    pub pending: Vec<SourceNode>,
}

impl View for SourceExpressions {
    type V = Seq<Item>;

    open spec fn view(&self) -> Seq<Item> {
        items(self.pending@)
    }
}

impl SourceExpressions {
    /// A walk that is about to start.
    pub fn new(source: &RuntimePlanSource) -> (r: SourceExpressions)
        ensures
            r@ == source_items(source@),
    {
        let mut pending: Vec<SourceNode> = Vec::new();
        assert(items(pending@) =~= Seq::<Item>::empty());
        match source {
            RuntimePlanSource::Form(f) => {
                push_item(&mut pending, SourceNode::Form(f.clone()));
            },
            RuntimePlanSource::Arguments(a) => {
                extend_arguments(&mut pending, a);
            },
        }
        assert(items(pending@) =~= source_items(source@));
        SourceExpressions { pending }
    }

    /// The next expression of the walk.
    pub fn next(&mut self) -> (r: Option<Rc<Expr>>)
        ensures
            match r {
                Some(e) => listed(old(self)@) == seq![e@] + listed(final(self)@) && heft(
                    final(self)@,
                ) < heft(old(self)@),
                None => listed(old(self)@).len() == 0,
            },
    {
        let ghost start = self@;
        loop
            invariant
                start == old(self)@,
                listed(self@) == listed(start),
                heft(self@) <= heft(start),
            ensures
                self.pending@.len() == 0,
                listed(self@) == listed(start),
            decreases heft(self@),
        {
            let ghost before = self@;
            match self.pending.pop() {
                None => {
                    break;
                },
                Some(node) => {
                    proof {
                        lemma_step_heft(before);
                        assert(items(self.pending@) =~= before.drop_last());
                        assert(before.last() == node@);
                    }
                    match node {
                        SourceNode::Form(f) => {
                            extend_form(&mut self.pending, &f);
                            assert(self@ =~= below(before));
                        },
                        SourceNode::Expression(e) => {
                            extend_expression(&mut self.pending, &e);
                            assert(self@ =~= below(before));
                            return Some(e);
                        },
                    }
                },
            }
        }
        assert(self@.len() == 0);
        None
    }
}

/// The slots and bytes of the formatted texts in a walk: one slot each and one for each part, and
/// the bytes of the plain parts.
pub open spec fn forms_weight(pending: Seq<Item>) -> Tally
    decreases heft(pending),
{
    if pending.len() == 0 {
        form_resources::tally(0, 0)
    } else {
        proof {
            lemma_step_heft(pending);
        }
        let rest = forms_weight(below(pending));
        match pending.last() {
            Item::Expression(_) => rest,
            Item::Form(f) => form_resources::tally(1 + f.parts.len(), plain_bytes(f.parts)).plus(
                rest,
            ),
        }
    }
}

/// The bytes of the plain parts of a formatted text.
pub open spec fn plain_bytes(parts: Seq<PartTree>) -> nat
    decreases parts.len(),
{
    if parts.len() == 0 {
        0
    } else {
        plain_bytes(parts.drop_last()) + match parts.last() {
            PartTree::Text(s) => form_resources::size(s),
            _ => 0,
        }
    }
}

fn count_plain(f: &Rc<FormattedString>) -> (r: Count)
    ensures
        r@ == form_resources::tally(1 + f@.parts.len(), plain_bytes(f@.parts)),
{
    let ghost all = ast::part_trees(f.parts@);
    proof {
        ast::lemma_part_trees(f.parts@);
        assert(all.take(0) =~= Seq::<PartTree>::empty());
    }
    let mut out = Count::zero().more(1, 0).more(f.parts.len(), 0);
    let mut i: usize = 0;
    while i < f.parts.len()
        invariant
            i <= f.parts.len(),
            all == ast::part_trees(f.parts@),
            all.len() == f.parts@.len(),
            forall|j: int|
                0 <= j < f.parts@.len() ==> #[trigger] all[j] == ast::part_tree(*f.parts@[j]),
            out@ == form_resources::tally(1 + all.len(), plain_bytes(all.take(i as int))),
        decreases f.parts.len() - i,
    {
        match &*f.parts[i] {
            FormPart::Text(s) => {
                out = out.more(0, form_resources::byte_count(s.as_str()));
            },
            _ => {},
        }
        i = i + 1;
        assert(all.take(i as int).drop_last() =~= all.take(i - 1));
        assert(all.take(i as int).last() == all[i - 1]);
    }
    assert(all.take(i as int) =~= all);
    out
}

fn count_forms(source: &RuntimePlanSource) -> (r: Count)
    ensures
        r@ == forms_weight(source_items(source@)),
{
    let mut walk = SourceExpressions::new(source);
    let ghost start = walk@;
    let mut out = Count::zero();
    loop
        invariant
            out@.plus(forms_weight(walk@)) == forms_weight(start),
        ensures
            out@ == forms_weight(start),
        decreases heft(walk@),
    {
        let ghost before = walk@;
        match walk.pending.pop() {
            None => {
                assert(walk@.len() == 0);
                break;
            },
            Some(node) => {
                proof {
                    lemma_step_heft(before);
                    assert(items(walk.pending@) =~= before.drop_last());
                    assert(before.last() == node@);
                }
                match node {
                    SourceNode::Form(f) => {
                        out = out.plus(count_plain(&f));
                        extend_form(&mut walk.pending, &f);
                    },
                    SourceNode::Expression(e) => {
                        extend_expression(&mut walk.pending, &e);
                    },
                }
                assert(walk@ =~= below(before));
            },
        }
    }
    out
}

/// The slots and bytes of the formatted texts in a source.
pub fn source_form_resources(source: &RuntimePlanSource) -> (r: Option<(usize, usize)>)
    ensures
        form_resources::counted(r, forms_weight(source_items(source@))),
{
    count_forms(source).total()
}

/// One span stands before another.
pub open spec fn before(a: Span, b: Span) -> bool {
    a.start < b.start || (a.start == b.start && a.end < b.end)
}

fn is_before(a: Span, b: Span) -> (r: bool)
    ensures
        r == before(a, b),
{
    a.start < b.start || (a.start == b.start && a.end < b.end)
}

/// The position at which a span belongs among the first `n` of sorted entries.
pub open spec fn place_of<T>(s: Seq<(Span, T)>, span: Span, n: nat) -> nat
    decreases n,
{
    if n == 0 || n > s.len() {
        0
    } else if before(s[n - 1].0, span) {
        n
    } else {
        place_of(s, span, (n - 1) as nat)
    }
}

/// Sorted types with one more; nothing where its span has another type.
pub open spec fn type_placed(s: Seq<(Span, BytecodeType)>, e: (Span, BytecodeType)) -> Option<
    Seq<(Span, BytecodeType)>,
> {
    let i = place_of(s, e.0, s.len());
    if i < s.len() && s[i as int].0 == e.0 {
        if s[i as int].1 == e.1 {
            Some(s)
        } else {
            None
        }
    } else {
        Some(s.insert(i as int, e))
    }
}

/// Types in the order of their spans, each once; nothing where a span has two types.
pub open spec fn types_sorted(types: Seq<(Span, BytecodeType)>) -> Option<
    Seq<(Span, BytecodeType)>,
>
    decreases types.len(),
{
    if types.len() == 0 {
        Some(Seq::empty())
    } else {
        match types_sorted(types.drop_last()) {
            None => None,
            Some(s) => type_placed(s, types.last()),
        }
    }
}

/// Sorted calls with one more; nothing where its span is taken.
pub open spec fn call_placed(s: Seq<(Span, BoundCall)>, e: (Span, BoundCall)) -> Option<
    Seq<(Span, BoundCall)>,
> {
    let i = place_of(s, e.0, s.len());
    if i < s.len() && s[i as int].0 == e.0 {
        None
    } else {
        Some(s.insert(i as int, e))
    }
}

/// Calls in the order of their spans; nothing where two have the same span.
pub open spec fn calls_sorted(calls: Seq<(Span, BoundCall)>) -> Option<Seq<(Span, BoundCall)>>
    decreases calls.len(),
{
    if calls.len() == 0 {
        Some(Seq::empty())
    } else {
        match calls_sorted(calls.drop_last()) {
            None => None,
            Some(s) => call_placed(s, calls.last()),
        }
    }
}

proof fn lemma_types_stop(types: Seq<(Span, BytecodeType)>, n: int)
    requires
        0 <= n <= types.len(),
        types_sorted(types.take(n)) is None,
    ensures
        types_sorted(types) is None,
    decreases types.len() - n,
{
    if n == types.len() {
        assert(types.take(n) =~= types);
    } else {
        assert(types.take(n + 1).drop_last() =~= types.take(n));
        lemma_types_stop(types, n + 1);
    }
}

proof fn lemma_calls_stop(calls: Seq<(Span, BoundCall)>, n: int)
    requires
        0 <= n <= calls.len(),
        calls_sorted(calls.take(n)) is None,
    ensures
        calls_sorted(calls) is None,
    decreases calls.len() - n,
{
    if n == calls.len() {
        assert(calls.take(n) =~= calls);
    } else {
        assert(calls.take(n + 1).drop_last() =~= calls.take(n));
        lemma_calls_stop(calls, n + 1);
    }
}

fn sort_types(types: &Vec<(Span, BytecodeType)>) -> (r: Option<Vec<(Span, BytecodeType)>>)
    ensures
        match r {
            Some(v) => types_sorted(types@) == Some(v@),
            None => types_sorted(types@) is None,
        },
{
    let mut out: Vec<(Span, BytecodeType)> = Vec::new();
    let mut i: usize = 0;
    assert(types@.take(0) =~= Seq::<(Span, BytecodeType)>::empty());
    while i < types.len()
        invariant
            i <= types.len(),
            types_sorted(types@.take(i as int)) == Some(out@),
        decreases types.len() - i,
    {
        proof {
            assert(types@.take(i + 1).drop_last() =~= types@.take(i as int));
            assert(types@.take(i + 1).last() == types@[i as int]);
        }
        let (span, kind) = types[i];
        let mut k: usize = out.len();
        while k > 0 && !is_before(out[k - 1].0, span)
            invariant
                k <= out.len(),
                place_of(out@, span, out@.len()) == place_of(out@, span, k as nat),
            decreases k,
        {
            k = k - 1;
        }
        assert(place_of(out@, span, out@.len()) == k);
        if k < out.len() && out[k].0 == span {
            if out[k].1 != kind {
                proof {
                    lemma_types_stop(types@, i + 1);
                }
                return None;
            }
        } else {
            out.insert(k, (span, kind));
        }
        i = i + 1;
    }
    assert(types@.take(i as int) =~= types@);
    Some(out)
}

fn sort_calls(calls: Vec<(Span, RuntimeBoundCall)>) -> (r: Option<Vec<(Span, RuntimeBoundCall)>>)
    ensures
        match r {
            Some(v) => calls_sorted(forms::call_views(calls@)) == Some(forms::call_views(v@)),
            None => calls_sorted(forms::call_views(calls@)) is None,
        },
{
    let ghost all = forms::call_views(calls@);
    let mut out: Vec<(Span, RuntimeBoundCall)> = Vec::new();
    let mut i: usize = 0;
    assert(all.take(0) =~= Seq::<(Span, BoundCall)>::empty());
    assert(forms::call_views(out@) =~= Seq::<(Span, BoundCall)>::empty());
    while i < calls.len()
        invariant
            i <= calls.len(),
            all == forms::call_views(calls@),
            calls_sorted(all.take(i as int)) == Some(forms::call_views(out@)),
        decreases calls.len() - i,
    {
        let ghost sorted = forms::call_views(out@);
        proof {
            assert(all.take(i + 1).drop_last() =~= all.take(i as int));
            assert(all.take(i + 1).last() == all[i as int]);
        }
        let span = calls[i].0;
        let mut k: usize = out.len();
        while k > 0 && !is_before(out[k - 1].0, span)
            invariant
                k <= out.len(),
                sorted == forms::call_views(out@),
                place_of(sorted, span, sorted.len()) == place_of(sorted, span, k as nat),
            decreases k,
        {
            assert(sorted[k - 1].0 == out@[k - 1].0);
            k = k - 1;
        }
        proof {
            if k > 0 {
                assert(sorted[k - 1].0 == out@[k - 1].0);
            }
            if k < out@.len() {
                assert(sorted[k as int].0 == out@[k as int].0);
            }
        }
        assert(place_of(sorted, span, sorted.len()) == k);
        if k < out.len() && out[k].0 == span {
            proof {
                lemma_calls_stop(all, i + 1);
            }
            return None;
        }
        let ghost before_insert = out@;
        let entry = (span, calls[i].1.clone());
        out.insert(k, entry);
        assert(forms::call_views(out@) =~= sorted.insert(k as int, all[i as int]));
        i = i + 1;
    }
    assert(all.take(i as int) =~= all);
    Some(out)
}

/// The plan of a source, made of what a pass has found.
pub open spec fn plan_of(source: Source, found: Found) -> Result<Plan, Failure> {
    match types_sorted(found.types) {
        None => Err(Failure::invalid("runtime source span has conflicting types"@)),
        Some(types) => match calls_sorted(found.calls) {
            None => Err(Failure::invalid("runtime call sites have duplicate source spans"@)),
            Some(calls) => Ok(Plan { id: 0, source, types, calls, nodes: found.nodes }),
        },
    }
}

pub open spec fn call_spans(span: Span) -> spec_fn((Span, BoundCall)) -> bool {
    |c: (Span, BoundCall)| c.0 == span
}

impl Plan {
    /// What the call at a span was bound to.
    pub open spec fn bound(self, span: Span) -> Option<BoundCall> {
        match lookup::first_index(self.calls, call_spans(span)) {
            Some(i) => Some(self.calls[i].1),
            None => None,
        }
    }
}

impl RuntimeCallPlan {
    /// Makes the plan of a source of what a pass has found.
    pub fn from_analysis(source: RuntimePlanSource, analysis: TypeAnalysis<'_>) -> (r: Result<
        RuntimeCallPlan,
        StepError,
    >)
        ensures
            fault::outcome(r) == plan_of(source@, analysis@),
    {
        let nodes: usize = analysis.nodes();
        let types = match sort_types(&analysis.source_types) {
            None => {
                return Err(invalid("runtime source span has conflicting types"));
            },
            Some(t) => t,
        };
        let calls = match sort_calls(analysis.bound_calls) {
            None => {
                return Err(invalid("runtime call sites have duplicate source spans"));
            },
            Some(c) => c,
        };
        Ok(RuntimeCallPlan { id: 0, source, types, calls, nodes })
    }

    /// What the call at a span was bound to.
    pub fn bound(&self, span: Span) -> (r: Option<&RuntimeBoundCall>)
        ensures
            match r {
                Some(b) => self@.bound(span) == Some(b@),
                None => self@.bound(span) is None,
            },
    {
        let ghost calls = self@.calls;
        let mut i: usize = 0;
        while i < self.calls.len()
            invariant
                i <= self.calls.len(),
                calls == self@.calls,
                forall|j: int| 0 <= j < i ==> !call_spans(span)(#[trigger] calls[j]),
            decreases self.calls.len() - i,
        {
            assert(calls[i as int] == (self.calls@[i as int].0, self.calls@[i as int].1@));
            if self.calls[i].0 == span {
                proof {
                    lookup::lemma_first_found(calls, call_spans(span), i as int);
                }
                return Some(&self.calls[i].1);
            }
            i = i + 1;
        }
        proof {
            lookup::lemma_first_none(calls, call_spans(span));
        }
        None
    }
}

/// A call at a span.
pub open spec fn call_at(span: Span) -> spec_fn(Tree) -> bool {
    |t: Tree| t.span == span && t.kind is Call
}

/// The arguments of the call at a span of a source.
pub open spec fn source_arguments(source: Source, span: Span) -> Option<Seq<Option<Tree>>> {
    let all = listed(source_items(source));
    match lookup::first_index(all, call_at(span)) {
        Some(i) => match all[i].kind {
            TreeKind::Call(_, arguments) => Some(arguments),
            _ => None,
        },
        None => None,
    }
}

proof fn lemma_walk_found(done: Seq<Tree>, rest: Seq<Tree>, p: spec_fn(Tree) -> bool)
    requires
        forall|i: int| 0 <= i < done.len() ==> !p(#[trigger] done[i]),
        rest.len() > 0,
        p(rest[0]),
    ensures
        lookup::first_index(done + rest, p) == Some(done.len() as int),
{
    let all = done + rest;
    assert(all[done.len() as int] == rest[0]);
    assert forall|j: int| 0 <= j < done.len() implies !p(#[trigger] all[j]) by {
        assert(all[j] == done[j]);
    }
    lookup::lemma_first_found(all, p, done.len() as int);
}

/// Tells whether the call at a span of a source has some arguments.
fn has_source_arguments(source: &RuntimePlanSource, span: Span, arguments: &Vec<Option<Rc<Expr>>>) -> (r:
    bool)
    ensures
        r == (source_arguments(source@, span) == Some(ast::argument_trees(arguments@))),
{
    let ghost all = listed(source_items(source@));
    let ghost p = call_at(span);
    let ghost mut done: Seq<Tree> = Seq::empty();
    let mut walk = SourceExpressions::new(source);
    assert(done + listed(walk@) =~= all);
    loop
        invariant_except_break
            done + listed(walk@) == all,
        invariant
            all == listed(source_items(source@)),
            p == call_at(span),
            forall|i: int| 0 <= i < done.len() ==> !p(#[trigger] done[i]),
        ensures
            forall|i: int| 0 <= i < all.len() ==> !p(#[trigger] all[i]),
        decreases heft(walk@),
    {
        let ghost rest = listed(walk@);
        match walk.next() {
            None => {
                assert(all =~= done);
                break;
            },
            Some(e) => {
                assert(rest[0] == e@);
                if e.span == span {
                    match &e.kind {
                        ExprKind::Call { args, .. } => {
                            proof {
                                lemma_walk_found(done, rest, p);
                                assert(all[done.len() as int] == e@);
                            }
                            return ast::same_arguments(args, arguments);
                        },
                        _ => {},
                    }
                }
                proof {
                    assert(!p(e@));
                    assert(done + (seq![e@] + listed(walk@)) =~= done.push(e@) + listed(walk@));
                    done = done.push(e@);
                }
            },
        }
    }
    proof {
        lookup::lemma_first_none(all, p);
    }
    false
}

/// Tells whether a source holds an expression.
fn source_has(source: &RuntimePlanSource, e: &Rc<Expr>) -> (r: bool)
    ensures
        r == listed(source_items(source@)).contains(e@),
{
    let ghost all = listed(source_items(source@));
    let ghost mut done: Seq<Tree> = Seq::empty();
    let mut walk = SourceExpressions::new(source);
    assert(done + listed(walk@) =~= all);
    loop
        invariant_except_break
            done + listed(walk@) == all,
        invariant
            all == listed(source_items(source@)),
            forall|i: int| 0 <= i < done.len() ==> #[trigger] done[i] != e@,
        ensures
            !all.contains(e@),
        decreases heft(walk@),
    {
        let ghost rest = listed(walk@);
        match walk.next() {
            None => {
                assert(all =~= done);
                break;
            },
            Some(x) => {
                assert(rest[0] == x@);
                if ast::same_expr(&x, e) {
                    assert(all[done.len() as int] == x@);
                    return true;
                }
                proof {
                    assert(done + (seq![x@] + listed(walk@)) =~= done.push(x@) + listed(walk@));
                    done = done.push(x@);
                }
            },
        }
    }
    false
}

pub open spec fn plan_numbered(id: u64) -> spec_fn(Plan) -> bool {
    |p: Plan| p.id == id
}

/// A call term at a span.
pub open spec fn term_call_at(span: Span) -> spec_fn(Node) -> bool {
    |n: Node| n.span == span && n.term is Call
}

/// The expression that a node of a reduced graph stands for.
pub open spec fn node_tree(program: ProgramGeneration, g: Prepared, i: int) -> Result<
    Tree,
    Failure,
> {
    form_terms::term_tree(program, g, Edge::Original(i as u32), g.template.nodes.len())
}

/// A node at the span of an expression, which it stands for.
pub open spec fn node_is(program: ProgramGeneration, g: Prepared, i: int, t: Tree) -> bool {
    g.template.nodes[i].span == t.span && node_tree(program, g, i) == Ok::<Tree, Failure>(t)
}

pub open spec fn single_tree(l: Literal) -> Tree {
    Tree { kind: form_terms::literal_kind(l), span: form_terms::no_span() }
}

pub open spec fn single_is(e: Edge, t: Tree) -> bool {
    match e {
        Edge::Single(l) => single_tree(l) == t,
        Edge::Original(_) => false,
    }
}

/// A literal that stands in a graph in place of a term.
pub open spec fn single_in(g: Prepared, t: Tree) -> bool {
    ||| exists|i: int, k: int|
        0 <= i < g.edges.len() && 0 <= k < g.edges[i].len() && single_is(
            #[trigger] g.edges[i][k],
            t,
        )
    ||| exists|i: int|
        0 <= i < g.roots.len() && (#[trigger] g.roots[i]) is Some && single_is(g.roots[i]->0, t)
}

/// An expression that a graph holds.
pub open spec fn graph_has(program: ProgramGeneration, g: Prepared, t: Tree) -> bool {
    let nodes = g.template.nodes;
    if exists|i: int| 0 <= i < nodes.len() && i <= u32::MAX && #[trigger] node_is(program, g, i, t) {
        true
    } else if exists|i: int| u32::MAX < i < nodes.len() && (#[trigger] nodes[i]).span == t.span {
        false
    } else {
        single_in(g, t)
    }
}

/// The operation that a task works for.
pub open spec fn task_site(t: Task) -> Option<RuntimeCallSite> {
    match t {
        Task::MapCapture(_, site, _) => Some(site),
        Task::BitCapture(_, site, _) => Some(site),
        Task::MapFinish(call) => Some(call.site),
        Task::MapValuesEnabled(call, _) => Some(call.site),
        Task::BitFinish(call) => Some(call.site),
        Task::Match(_, call) => Some(call.site),
        _ => None,
    }
}

fn site_of(t: &RuntimeFormTask) -> (r: Option<RuntimeCallSite>)
    ensures
        r == task_site(t@),
{
    match t {
        RuntimeFormTask::MapCapture { site, .. } => Some(*site),
        RuntimeFormTask::BitCapture { site, .. } => Some(*site),
        RuntimeFormTask::MapFinish(call) => Some(call.site),
        RuntimeFormTask::MapValuesEnabled { call, .. } => Some(call.site),
        RuntimeFormTask::BitFinish(call) => Some(call.site),
        RuntimeFormTask::Match(_, call) => Some(call.site),
        _ => None,
    }
}

impl Form {
    /// The plan with a number.
    pub open spec fn plan(self, id: u64) -> Option<Plan> {
        match lookup::first_index(self.plans, plan_numbered(id)) {
            Some(i) => Some(self.plans[i]),
            None => None,
        }
    }

    /// What the call at a site was bound to.
    pub open spec fn bound(self, site: RuntimeCallSite) -> Option<BoundCall> {
        match self.plan(site.plan) {
            Some(p) => p.bound(site.span),
            None => None,
        }
    }

    /// The type that a plan gives an expression; literals need none.
    pub open spec fn planned_type(self, plan: u64, t: Tree) -> Result<BytecodeType, Failure> {
        match t.kind {
            TreeKind::Integer(_) => Ok(BytecodeType::Integer),
            TreeKind::Text(_) => Ok(BytecodeType::String),
            _ => {
                let found = match self.plan(plan) {
                    Some(p) => form_graph::type_at(p.types, t.span),
                    None => None,
                };
                match found {
                    Some(kind) => Ok(kind),
                    None => Err(Failure::invalid("runtime expression lost its analyzed type"@)),
                }
            },
        }
    }

    /// How a plan passes an argument to a user function.
    pub open spec fn planned_spec(self, program: ProgramGeneration, plan: u64, t: Option<Tree>) -> Result<
        UserArgumentSpec,
        Failure,
    > {
        match t {
            None => Ok(UserArgumentSpec::Omitted),
            Some(t) => match self.planned_type(plan, t) {
                Err(e) => Err(e),
                Ok(kind) => Ok(form_typing::argument_spec(program, self.function, t, kind)),
            },
        }
    }

    /// The call at a site has some arguments.
    pub open spec fn has_arguments(
        self,
        program: ProgramGeneration,
        site: RuntimeCallSite,
        source: Seq<Option<Tree>>,
    ) -> bool {
        match self.plan(site.plan) {
            None => false,
            Some(p) => match p.source {
                Source::Form(_) => source_arguments(p.source, site.span) == Some(source),
                Source::Arguments(_) => match self.pending {
                    None => false,
                    Some(pending) => match lookup::first_index(
                        pending.graph.template.nodes,
                        term_call_at(site.span),
                    ) {
                        None => false,
                        Some(i) => i <= u32::MAX && match node_tree(program, pending.graph, i) {
                            Ok(t) => match t.kind {
                                TreeKind::Call(_, arguments) => arguments == source,
                                _ => false,
                            },
                            Err(_) => false,
                        },
                    },
                },
            },
        }
    }

    /// An expression stands in the source of a plan.
    pub open spec fn plan_has(self, program: ProgramGeneration, plan: u64, t: Tree) -> bool {
        match self.plan(plan) {
            None => false,
            Some(p) => match p.source {
                Source::Form(_) => listed(source_items(p.source)).contains(t),
                Source::Arguments(_) => match self.pending {
                    None => false,
                    Some(pending) => graph_has(program, pending.graph, t),
                },
            },
        }
    }

    /// An operation that is under way belongs to a plan.
    pub open spec fn has_live(self, plan: u64) -> bool {
        ||| exists|i: int|
            0 <= i < self.host_calls.len() && (#[trigger] self.host_calls[i]).site.plan == plan
        ||| exists|i: int|
            0 <= i < self.work.len() && task_site(#[trigger] self.work[i]) is Some && task_site(
                self.work[i],
            )->0.plan == plan
    }

    /// The number of plans that stay when an earlier one becomes current.
    pub open spec fn kept(self, previous: Option<u64>) -> int {
        match previous {
            None => 0,
            Some(id) => match lookup::first_index(self.plans, plan_numbered(id)) {
                Some(i) => i + 1,
                None => 0,
            },
        }
    }
}

/// A plan is added and becomes the current one.
pub open spec fn installed(form: Form, plan: Plan) -> (Form, Result<u64, Failure>) {
    let id = form.next_plan;
    if id == u64::MAX {
        (form, Err(form_resources::resource_failure("runtime call plan identity exhausted"@)))
    } else {
        (
            Form {
                next_plan: (id + 1) as u64,
                plans: form.plans.push(Plan { id, ..plan }),
                current_plan: Some(id),
                ..form
            },
            Ok(id),
        )
    }
}

/// An earlier plan becomes the current one again, and those after it are dropped.
pub open spec fn plan_restored(form: Form, previous: Option<u64>) -> (Form, Result<(), Failure>) {
    let keep = form.kept(previous);
    if previous is Some && form.plan(previous->0) is None {
        (form, Err(Failure::invalid("runtime source plan restoration target is missing"@)))
    } else if exists|i: int|
        keep <= i < form.plans.len() && form.has_live((#[trigger] form.plans[i]).id) {
        (
            form,
            Err(Failure::invalid("runtime source plan would retire a live operation scope"@)),
        )
    } else {
        (Form { plans: form.plans.take(keep), current_plan: previous, ..form }, Ok(()))
    }
}

pub open spec fn id_outcome(r: Result<u64, StepError>) -> Result<u64, Failure> {
    match r {
        Ok(id) => Ok(id),
        Err(e) => Err(e@),
    }
}

pub open spec fn spec_outcome(r: Result<UserArgumentSpec, StepError>) -> Result<
    UserArgumentSpec,
    Failure,
> {
    match r {
        Ok(s) => Ok(s),
        Err(e) => Err(e@),
    }
}

fn is_single(e: &TermRef, t: &Rc<Expr>) -> (r: bool)
    ensures
        r == single_is(e@, t@),
{
    match e {
        TermRef::Original(_) => false,
        TermRef::Single(v) => {
            let single = form_terms::single_expr(v);
            ast::same_expr(&single, t)
        },
    }
}

fn has_single(g: &PreparedReferenceArguments, t: &Rc<Expr>) -> (r: bool)
    ensures
        r == single_in(g@, t@),
{
    let ghost model = g@;
    let mut i: usize = 0;
    while i < g.edges.len()
        invariant
            i <= g.edges.len(),
            model == g@,
            forall|j: int, k: int|
                0 <= j < i && 0 <= k < model.edges[j].len() ==> !single_is(
                    #[trigger] model.edges[j][k],
                    t@,
                ),
        decreases g.edges.len() - i,
    {
        let list = &g.edges[i];
        let mut k: usize = 0;
        assert(model.edges[i as int] == forms::edges(list@));
        while k < list.len()
            invariant
                k <= list.len(),
                i < g.edges@.len(),
                list@ == g.edges@[i as int]@,
                model == g@,
                model.edges[i as int] == forms::edges(list@),
                forall|m: int| 0 <= m < k ==> !single_is(#[trigger] model.edges[i as int][m], t@),
            decreases list.len() - k,
        {
            assert(model.edges[i as int][k as int] == list@[k as int]@);
            if is_single(&list[k], t) {
                return true;
            }
            k = k + 1;
        }
        i = i + 1;
    }
    let mut m: usize = 0;
    while m < g.roots.len()
        invariant
            m <= g.roots.len(),
            model == g@,
            forall|j: int, k: int|
                0 <= j < model.edges.len() && 0 <= k < model.edges[j].len() ==> !single_is(
                    #[trigger] model.edges[j][k],
                    t@,
                ),
            forall|j: int|
                0 <= j < m ==> !((#[trigger] model.roots[j]) is Some && single_is(
                    model.roots[j]->0,
                    t@,
                )),
        decreases g.roots.len() - m,
    {
        assert(model.roots[m as int] == forms::optional_edge(g.roots@[m as int]));
        match &g.roots[m] {
            Some(e) => {
                if is_single(e, t) {
                    return true;
                }
            },
            None => {},
        }
        m = m + 1;
    }
    false
}

fn graph_holds(program: &ProgramGeneration, g: &PreparedReferenceArguments, t: &Rc<Expr>) -> (r:
    bool)
    ensures
        r == graph_has(*program, g@, t@),
{
    let ghost model = g@;
    let mut i: usize = 0;
    while i < g.template.nodes.len()
        invariant
            i <= g.template.nodes.len(),
            model == g@,
            forall|j: int| 0 <= j < i && j <= u32::MAX ==> !#[trigger] node_is(*program, model, j, t@),
            forall|j: int|
                u32::MAX < j < i ==> (#[trigger] model.template.nodes[j]).span != t@.span,
        decreases g.template.nodes.len() - i,
    {
        assert(model.template.nodes[i as int] == g.template.nodes@[i as int]@);
        if g.template.nodes[i].span == t.span {
            if i > u32::MAX as usize {
                assert(model.template.nodes[i as int].span == t@.span);
                return false;
            }
            match g.expression(program, &TermRef::Original(i as u32)) {
                Ok(e) => {
                    if ast::same_expr(&e, t) {
                        assert(node_is(*program, model, i as int, t@));
                        return true;
                    }
                },
                Err(_) => {},
            }
        }
        i = i + 1;
    }
    has_single(g, t)
}

impl RuntimeFormContinuation {
    /// Adds a plan and makes it the current one.
    pub fn install_call_plan(&mut self, plan: RuntimeCallPlan) -> (r: Result<u64, StepError>)
        ensures
            (final(self)@, id_outcome(r)) == installed(old(self)@, plan@),
    {
        let id: u64 = self.next_call_plan;
        if id == u64::MAX {
            return Err(form_resources::resource_limit("runtime call plan identity exhausted"));
        }
        let mut plan = plan;
        plan.id = id;
        self.next_call_plan = id + 1;
        self.call_plans.push(plan);
        self.current_call_plan = Some(id);
        proof {
            assert(forms::plan_views(self.call_plans@) =~= forms::plan_views(
                old(self).call_plans@,
            ).push(plan@));
        }
        Ok(id)
    }

    /// The plan with a number.
    pub fn call_plan(&self, id: u64) -> (r: Option<&RuntimeCallPlan>)
        ensures
            match r {
                Some(p) => self@.plan(id) == Some(p@),
                None => self@.plan(id) is None,
            },
    {
        match self.plan_position(id) {
            Some(i) => Some(&self.call_plans[i]),
            None => None,
        }
    }

    fn plan_position(&self, id: u64) -> (r: Option<usize>)
        ensures
            match r {
                Some(i) => i < self.call_plans@.len() && self@.plans[i as int]
                    == self.call_plans@[i as int]@ && lookup::first_index(
                    self@.plans,
                    plan_numbered(id),
                ) == Some(i as int),
                None => lookup::first_index(self@.plans, plan_numbered(id)) is None,
            },
    {
        let ghost plans = self@.plans;
        let mut i: usize = 0;
        while i < self.call_plans.len()
            invariant
                i <= self.call_plans.len(),
                plans == self@.plans,
                forall|j: int| 0 <= j < i ==> !plan_numbered(id)(#[trigger] plans[j]),
            decreases self.call_plans.len() - i,
        {
            assert(plans[i as int] == self.call_plans@[i as int]@);
            if self.call_plans[i].id == id {
                proof {
                    lookup::lemma_first_found(plans, plan_numbered(id), i as int);
                }
                return Some(i);
            }
            i = i + 1;
        }
        proof {
            lookup::lemma_first_none(plans, plan_numbered(id));
        }
        None
    }

    /// A call of the current plan.
    pub fn current_call_site(&self, span: Span) -> (r: Result<RuntimeCallSite, StepError>)
        ensures
            match r {
                Ok(s) => self@.current_plan == Some(s.plan) && s.span == span,
                Err(e) => self@.current_plan is None && e@ == Failure::invalid(
                    "runtime expression lacks its source plan"@,
                ),
            },
    {
        match self.current_call_plan {
            Some(plan) => Ok(RuntimeCallSite { plan, span }),
            None => Err(invalid("runtime expression lacks its source plan")),
        }
    }

    /// What the call at a site was bound to.
    pub fn lookup_bound_call(&self, site: RuntimeCallSite) -> (r: Option<&RuntimeBoundCall>)
        ensures
            match r {
                Some(b) => self@.bound(site) == Some(b@),
                None => self@.bound(site) is None,
            },
    {
        match self.call_plan(site.plan) {
            Some(p) => p.bound(site.span),
            None => None,
        }
    }

    /// The type that a plan gives an expression.
    pub fn planned_expression_type(&self, plan: u64, e: &Rc<Expr>) -> (r: Result<
        BytecodeType,
        StepError,
    >)
        ensures
            form_typing::type_result(r) == self@.planned_type(plan, e@),
    {
        match &e.kind {
            ExprKind::Integer(_) => {
                return Ok(BytecodeType::Integer);
            },
            ExprKind::String(_) => {
                return Ok(BytecodeType::String);
            },
            _ => {},
        }
        let found = match self.call_plan(plan) {
            Some(p) => form_graph::find_type(&p.types, e.span),
            None => None,
        };
        match found {
            Some(kind) => Ok(kind),
            None => Err(invalid("runtime expression lost its analyzed type")),
        }
    }

    /// How a plan passes an argument to a user function.
    pub fn planned_argument_spec(
        &self,
        program: &ProgramGeneration,
        plan: u64,
        argument: &Option<Rc<Expr>>,
    ) -> (r: Result<UserArgumentSpec, StepError>)
        ensures
            spec_outcome(r) == self@.planned_spec(*program, plan, ast::argument_tree(*argument)),
    {
        match argument {
            None => Ok(UserArgumentSpec::Omitted),
            Some(e) => match self.planned_expression_type(plan, e) {
                Err(error) => Err(error),
                Ok(kind) => Ok(form_typing::shape_spec(program, self.function, e, kind)),
            },
        }
    }

    /// Tells whether the call at a site has some arguments.
    pub fn validate_call_arguments(
        &self,
        program: &ProgramGeneration,
        site: RuntimeCallSite,
        source: &Vec<Option<Rc<Expr>>>,
    ) -> (r: bool)
        ensures
            r == self@.has_arguments(*program, site, ast::argument_trees(source@)),
    {
        let plan = match self.call_plan(site.plan) {
            None => {
                return false;
            },
            Some(p) => p,
        };
        match &plan.source {
            RuntimePlanSource::Form(_) => has_source_arguments(&plan.source, site.span, source),
            RuntimePlanSource::Arguments(_) => match &self.reference_arguments {
                None => false,
                Some(pending) => {
                    let g = &pending.graph;
                    match find_call(g, site.span) {
                        None => false,
                        Some(i) => {
                            if i > u32::MAX as usize {
                                return false;
                            }
                            match g.expression(program, &TermRef::Original(i as u32)) {
                                Err(_) => false,
                                Ok(e) => match &e.kind {
                                    ExprKind::Call { args, .. } => ast::same_arguments(
                                        args,
                                        source,
                                    ),
                                    _ => false,
                                },
                            }
                        },
                    }
                },
            },
        }
    }

    /// Tells whether an expression stands in the source of a plan.
    pub fn validate_planned_expression(
        &self,
        program: &ProgramGeneration,
        plan: u64,
        e: &Rc<Expr>,
    ) -> (r: bool)
        ensures
            r == self@.plan_has(*program, plan, e@),
    {
        let plan = match self.call_plan(plan) {
            None => {
                return false;
            },
            Some(p) => p,
        };
        match &plan.source {
            RuntimePlanSource::Form(_) => source_has(&plan.source, e),
            RuntimePlanSource::Arguments(_) => match &self.reference_arguments {
                None => false,
                Some(pending) => graph_holds(program, &pending.graph, e),
            },
        }
    }

    fn is_live(&self, plan: u64) -> (r: bool)
        ensures
            r == self@.has_live(plan),
    {
        let ghost form = self@;
        let mut i: usize = 0;
        while i < self.host_calls.len()
            invariant
                i <= self.host_calls.len(),
                form == self@,
                forall|j: int| 0 <= j < i ==> (#[trigger] form.host_calls[j]).site.plan != plan,
            decreases self.host_calls.len() - i,
        {
            assert(form.host_calls[i as int] == self.host_calls@[i as int]@);
            if self.host_calls[i].site.plan == plan {
                return true;
            }
            i = i + 1;
        }
        let mut k: usize = 0;
        while k < self.work.len()
            invariant
                k <= self.work.len(),
                form == self@,
                forall|j: int|
                    0 <= j < form.host_calls.len() ==> (#[trigger] form.host_calls[j]).site.plan
                        != plan,
                forall|j: int|
                    0 <= j < k ==> !(task_site(#[trigger] form.work[j]) is Some && task_site(
                        form.work[j],
                    )->0.plan == plan),
            decreases self.work.len() - k,
        {
            assert(form.work[k as int] == self.work@[k as int]@);
            match site_of(&self.work[k]) {
                Some(site) => {
                    if site.plan == plan {
                        return true;
                    }
                },
                None => {},
            }
            k = k + 1;
        }
        false
    }

    /// Makes an earlier plan the current one again and drops those after it.
    #[verifier::loop_isolation(false)]
    pub fn restore_call_plan(&mut self, previous: Option<u64>) -> (r: Result<(), StepError>)
        ensures
            (final(self)@, form_resources::unit_result(r)) == plan_restored(old(self)@, previous),
    {
        let ghost form = self@;
        let count: usize = self.call_plans.len();
        let keep: usize = match previous {
            None => 0,
            Some(id) => match self.plan_position(id) {
                None => {
                    return Err(invalid("runtime source plan restoration target is missing"));
                },
                Some(i) => i + 1,
            },
        };
        let mut i: usize = keep;
        while i < self.call_plans.len()
            invariant
                keep <= i,
                self@ == form,
                form.plans.len() == self.call_plans@.len(),
                forall|j: int| keep <= j < i ==> !form.has_live((#[trigger] form.plans[j]).id),
            decreases self.call_plans.len() - i,
        {
            assert(form.plans[i as int] == self.call_plans@[i as int]@);
            if self.is_live(self.call_plans[i].id) {
                assert(form.has_live(form.plans[i as int].id));
                return Err(invalid("runtime source plan would retire a live operation scope"));
            }
            i = i + 1;
        }
        self.call_plans.truncate(keep);
        self.current_call_plan = previous;
        proof {
            assert(forms::plan_views(self.call_plans@) =~= form.plans.take(keep as int));
        }
        Ok(())
    }
}

fn find_call(g: &PreparedReferenceArguments, span: Span) -> (r: Option<usize>)
    ensures
        match r {
            Some(i) => lookup::first_index(g@.template.nodes, term_call_at(span)) == Some(
                i as int,
            ),
            None => lookup::first_index(g@.template.nodes, term_call_at(span)) is None,
        },
{
    let ghost nodes = g@.template.nodes;
    let mut i: usize = 0;
    while i < g.template.nodes.len()
        invariant
            i <= g.template.nodes.len(),
            nodes == g@.template.nodes,
            forall|j: int| 0 <= j < i ==> !term_call_at(span)(#[trigger] nodes[j]),
        decreases g.template.nodes.len() - i,
    {
        let node = &g.template.nodes[i];
        assert(nodes[i as int] == node@);
        if node.span == span {
            match &node.kind {
                ReferenceTermKind::Call { .. } => {
                    proof {
                        lookup::lemma_first_found(nodes, term_call_at(span), i as int);
                    }
                    return Some(i);
                },
                _ => {},
            }
        }
        i = i + 1;
    }
    proof {
        lookup::lemma_first_none(nodes, term_call_at(span));
    }
    None
}

/// What a pass finds in a source.
pub open spec fn source_found(c: Rules, source: Source) -> (Found, Result<(), Failure>) {
    let start = Found { nodes: 0, types: Seq::empty(), calls: Seq::empty() };
    match source {
        Source::Form(f) => form_typing::typed_form(c, start, f, 0),
        Source::Arguments(a) => match form_typing::typed_arguments(c, start, a, 0) {
            (s, Ok(_)) => (s, Ok(())),
            (s, Err(e)) => (s, Err(e)),
        },
    }
}

/// A plan is what a new pass over its source would give.
pub open spec fn plan_valid(
    plan: Plan,
    program: ProgramGeneration,
    function: SymbolKey,
    limit: usize,
    graph: Option<Graph>,
) -> bool {
    let c = Rules { program, function, probe: false, providers: None, limit };
    let (found, r) = source_found(c, plan.source);
    &&& r is Ok
    &&& match (plan.source, graph) {
        (Source::Arguments(a), Some(g)) => form_graph::graph_of(
            form_graph::Schema { program, function, types: found.types },
            a,
        ) == Ok::<Graph, Failure>(g),
        _ => true,
    }
    &&& plan_of(plan.source, found) == Ok::<Plan, Failure>(Plan { id: 0, ..plan })
}

proof fn lemma_arguments_stop(c: Rules, s: Found, arguments: Seq<Option<Tree>>, n: int)
    requires
        0 <= n <= arguments.len(),
        form_typing::typed_arguments(c, s, arguments.take(n), 0).1 is Err,
    ensures
        form_typing::typed_arguments(c, s, arguments, 0) == form_typing::typed_arguments(
            c,
            s,
            arguments.take(n),
            0,
        ),
    decreases arguments.len() - n,
{
    if n == arguments.len() {
        assert(arguments.take(n) =~= arguments);
    } else {
        assert(arguments.take(n + 1).drop_last() =~= arguments.take(n));
        lemma_arguments_stop(c, s, arguments, n + 1);
    }
}

#[verifier::loop_isolation(false)]
pub(crate) fn analyze_arguments(analysis: &mut TypeAnalysis<'_>, arguments: &Vec<Option<Rc<Expr>>>) -> (r:
    Result<(), StepError>)
    requires
        form_typing::results_scalar(old(analysis).rules().program),
    ensures
        final(analysis).rules() == old(analysis).rules(),
        match form_typing::typed_arguments(
            old(analysis).rules(),
            old(analysis)@,
            ast::argument_trees(arguments@),
            0,
        ) {
            (s, Ok(_)) => final(analysis)@ == s && r is Ok,
            (s, Err(e)) => final(analysis)@ == s && form_resources::unit_result(r) == Err::<
                (),
                Failure,
            >(e),
        },
{
    let ghost c = analysis.rules();
    let ghost start = analysis@;
    let ghost all = ast::argument_trees(arguments@);
    proof {
        ast::lemma_argument_trees(arguments@);
        assert(all.take(0) =~= Seq::<Option<Tree>>::empty());
    }
    let mut i: usize = 0;
    while i < arguments.len()
        invariant
            i <= arguments.len(),
            analysis.rules() == c,
            form_typing::typed_arguments(c, start, all.take(i as int), 0).0 == analysis@,
            form_typing::typed_arguments(c, start, all.take(i as int), 0).1 is Ok,
        decreases arguments.len() - i,
    {
        proof {
            assert(all.take(i + 1).drop_last() =~= all.take(i as int));
            assert(all.take(i + 1).last() == all[i as int]);
        }
        match &arguments[i] {
            None => {},
            Some(e) => match analysis.expression(e, 0) {
                Ok(_) => {},
                Err(error) => {
                    proof {
                        lemma_arguments_stop(c, start, all, i + 1);
                    }
                    return Err(error);
                },
            },
        }
        i = i + 1;
    }
    assert(all.take(i as int) =~= all);
    Ok(())
}

fn same_plan(a: &RuntimeCallPlan, b: &RuntimeCallPlan) -> (r: bool)
    ensures
        r == (a@.nodes == b@.nodes && a@.types == b@.types && a@.calls == b@.calls),
{
    if a.nodes != b.nodes || a.types.len() != b.types.len() || a.calls.len() != b.calls.len() {
        assert(a@.calls.len() == a.calls@.len());
        assert(b@.calls.len() == b.calls@.len());
        return false;
    }
    let mut i: usize = 0;
    while i < a.types.len()
        invariant
            i <= a.types.len(),
            a.types.len() == b.types.len(),
            forall|j: int| 0 <= j < i ==> a.types@[j] == b.types@[j],
        decreases a.types.len() - i,
    {
        if a.types[i].0 != b.types[i].0 || a.types[i].1 != b.types[i].1 {
            assert(a@.types[i as int] != b@.types[i as int]);
            return false;
        }
        i = i + 1;
    }
    let mut k: usize = 0;
    while k < a.calls.len()
        invariant
            k <= a.calls.len(),
            a.calls.len() == b.calls.len(),
            forall|j: int| 0 <= j < k ==> (#[trigger] a@.calls[j]) == b@.calls[j],
        decreases a.calls.len() - k,
    {
        assert(a@.calls[k as int] == (a.calls@[k as int].0, a.calls@[k as int].1@));
        assert(b@.calls[k as int] == (b.calls@[k as int].0, b.calls@[k as int].1@));
        if a.calls[k].0 != b.calls[k].0 || !forms::same_bound(&a.calls[k].1, &b.calls[k].1) {
            assert(a@.calls[k as int] != b@.calls[k as int]);
            return false;
        }
        k = k + 1;
    }
    assert(a@.types =~= b@.types);
    assert(a@.calls =~= b@.calls);
    true
}

fn copy_source(source: &RuntimePlanSource) -> (r: RuntimePlanSource)
    ensures
        r@ == source@,
{
    match source {
        RuntimePlanSource::Form(f) => RuntimePlanSource::Form(f.clone()),
        RuntimePlanSource::Arguments(a) => {
            let copy = ast::copy_arguments(a, 0);
            proof {
                assert(ast::argument_trees(a@).skip(0) =~= ast::argument_trees(a@));
            }
            RuntimePlanSource::Arguments(copy)
        },
    }
}

impl RuntimeCallPlan {
    /// Tells whether a new pass over the source would give this plan.
    pub fn valid(
        &self,
        program: &ProgramGeneration,
        function: SymbolKey,
        limit: usize,
        graph: Option<&ReferenceTermGraph>,
    ) -> (r: bool)
        requires
            form_typing::results_scalar(*program),
        ensures
            r == plan_valid(
                self@,
                *program,
                function,
                limit,
                match graph {
                    Some(g) => Some(g@),
                    None => None,
                },
            ),
    {
        let mut analysis = TypeAnalysis::new(program, function, false, limit, None);
        let analyzed = match &self.source {
            RuntimePlanSource::Form(f) => analysis.form(f, 0),
            RuntimePlanSource::Arguments(a) => analyze_arguments(&mut analysis, a),
        };
        match analyzed {
            Ok(_) => {},
            Err(_) => {
                return false;
            },
        }
        match (&self.source, graph) {
            (RuntimePlanSource::Arguments(a), Some(g)) => {
                let mut builder = GraphBuilder::new(program, function, &analysis.source_types);
                let same = match builder.build(a) {
                    Ok(actual) => terms::same_graph(&actual, g),
                    Err(_) => false,
                };
                if !same {
                    return false;
                }
            },
            _ => {},
        }
        match RuntimeCallPlan::from_analysis(copy_source(&self.source), analysis) {
            Ok(expected) => {
                let same = same_plan(self, &expected);
                assert(same == (Plan { id: 0, ..self@ } == expected@));
                same
            },
            Err(_) => false,
        }
    }
}

/// The current plan, those that are to be restored and those of host calls are there, and each is
/// what a new pass would give.
pub open spec fn plans_valid(vm: VmModel, form: Form) -> bool {
    match vm.program(form.generation) {
        None => false,
        Some(program) => {
            let limit = if vm.config.maximum_operand_stack > 1 {
                vm.config.maximum_operand_stack
            } else {
                1
            };
            let graph = match form.pending {
                Some(p) => Some(p.graph.template),
                None => None,
            };
            &&& form.plans.len() <= MAX_RUNTIME_FORM_NESTING
            &&& form.next_plan > 0
            &&& forall|i: int| 0 <= i < form.plans.len() - 1 ==> #[trigger] rises(form.plans, i)
            &&& forall|i: int|
                0 <= i < form.plans.len() ==> 0 < (#[trigger] form.plans[i]).id < form.next_plan
                    && plan_valid(form.plans[i], program, form.function, limit, graph)
            &&& form.current_plan is Some ==> form.plan(form.current_plan->0) is Some
            &&& forall|i: int|
                0 <= i < form.host_calls.len() ==> form.plan(
                    (#[trigger] form.host_calls[i]).site.plan,
                ) is Some
            &&& forall|i: int|
                0 <= i < form.work.len() ==> restorable(form, #[trigger] form.work[i])
        },
    }
}

/// A plan is older than the one behind it.
pub open spec fn rises(plans: Seq<Plan>, i: int) -> bool {
    plans[i].id < plans[i + 1].id
}

/// A plan that a task restores is there.
pub open spec fn restorable(form: Form, t: Task) -> bool {
    match t {
        Task::RestoreCallPlan(Some(id)) => form.plan(id) is Some,
        _ => true,
    }
}

impl RuntimeFormContinuation {
    fn has_plan(&self, id: u64) -> (r: bool)
        ensures
            r == (self@.plan(id) is Some),
    {
        match self.call_plan(id) {
            Some(_) => true,
            None => false,
        }
    }

    /// Tells whether the plans are those that new passes would give.
    #[verifier::loop_isolation(false)]
    pub fn valid_call_plans(&self, vm: &Vm) -> (r: bool)
        requires
            match vm@.program(self.generation) {
                Some(p) => form_typing::results_scalar(p),
                None => true,
            },
        ensures
            r == plans_valid(vm@, self@),
    {
        let program = match vm.program(self.generation) {
            None => {
                return false;
            },
            Some(p) => p,
        };
        let ghost form = self@;
        assert(form.plans.len() == self.call_plans@.len());
        if self.call_plans.len() > MAX_RUNTIME_FORM_NESTING || self.next_call_plan == 0 {
            return false;
        }
        let limit: usize = if vm.config.maximum_operand_stack > 1 {
            vm.config.maximum_operand_stack
        } else {
            1
        };
        let graph: Option<&ReferenceTermGraph> = match &self.reference_arguments {
            Some(p) => Some(&p.graph.template),
            None => None,
        };
        let mut i: usize = 0;
        while i < self.call_plans.len()
            invariant
                i <= self.call_plans.len(),
                forall|j: int| 0 <= j < i - 1 ==> #[trigger] rises(form.plans, j),
                forall|j: int|
                    0 <= j < i ==> 0 < (#[trigger] form.plans[j]).id < form.next_plan && plan_valid(
                        form.plans[j],
                        *program,
                        form.function,
                        limit,
                        match graph {
                            Some(g) => Some(g@),
                            None => None,
                        },
                    ),
            decreases self.call_plans.len() - i,
        {
            let plan = &self.call_plans[i];
            assert(form.plans[i as int] == plan@);
            if i > 0 {
                assert(form.plans[i - 1] == self.call_plans@[i - 1]@);
                if self.call_plans[i - 1].id >= plan.id {
                    assert(!rises(form.plans, i - 1));
                    return false;
                }
            }
            if plan.id == 0 || plan.id >= self.next_call_plan || !plan.valid(
                &program,
                self.function,
                limit,
                graph,
            ) {
                return false;
            }
            i = i + 1;
        }
        match self.current_call_plan {
            Some(id) => {
                if !self.has_plan(id) {
                    return false;
                }
            },
            None => {},
        }
        let mut k: usize = 0;
        while k < self.host_calls.len()
            invariant
                k <= self.host_calls.len(),
                forall|j: int|
                    0 <= j < k ==> form.plan((#[trigger] form.host_calls[j]).site.plan) is Some,
            decreases self.host_calls.len() - k,
        {
            assert(form.host_calls[k as int] == self.host_calls@[k as int]@);
            if !self.has_plan(self.host_calls[k].site.plan) {
                return false;
            }
            k = k + 1;
        }
        let mut m: usize = 0;
        while m < self.work.len()
            invariant
                m <= self.work.len(),
                forall|j: int| 0 <= j < m ==> restorable(form, #[trigger] form.work[j]),
            decreases self.work.len() - m,
        {
            assert(form.work[m as int] == self.work@[m as int]@);
            match &self.work[m] {
                RuntimeFormTask::RestoreCallPlan(Some(id)) => {
                    if !self.has_plan(*id) {
                        assert(!restorable(form, form.work[m as int]));
                        return false;
                    }
                },
                _ => {},
            }
            m = m + 1;
        }
        true
    }
}

pub open spec fn source_weight(source: Source) -> Tally {
    match source {
        Source::Form(f) => form_resources::form_weight(f),
        Source::Arguments(a) => form_resources::arguments_weight(a),
    }
}

/// What a bound call holds.
pub open spec fn bound_weight(b: BoundCall) -> Tally {
    match b {
        BoundCall::Native(s) => form_resources::service_weight(s),
        BoundCall::Host(s) => form_resources::service_weight(s),
        BoundCall::Bit(_) => form_resources::tally(1, 0),
        BoundCall::Match(m) => form_resources::tally(
            1,
            match m.input {
                MatchSource::Name(n) => form_resources::size(n),
                MatchSource::Variable(_) => 0,
            },
        ),
    }
}

pub open spec fn calls_weight(calls: Seq<(Span, BoundCall)>) -> Tally
    decreases calls.len(),
{
    if calls.len() == 0 {
        form_resources::tally(0, 0)
    } else {
        calls_weight(calls.drop_last()).plus(bound_weight(calls.last().1))
    }
}

/// What a plan holds: itself, its types and calls, its source and what the calls are bound to.
pub open spec fn plan_weight(p: Plan) -> Tally {
    form_resources::tally(1 + p.types.len() + p.calls.len(), 0).plus(source_weight(p.source)).plus(
        calls_weight(p.calls),
    )
}

pub open spec fn plans_weight(plans: Seq<Plan>) -> Tally
    decreases plans.len(),
{
    if plans.len() == 0 {
        form_resources::tally(0, 0)
    } else {
        plans_weight(plans.drop_last()).plus(plan_weight(plans.last()))
    }
}

fn count_bound(b: &RuntimeBoundCall) -> (r: Count)
    ensures
        r@ == bound_weight(b@),
{
    match b {
        RuntimeBoundCall::Native(s) => form_resources::count_service(
            &s.import,
            &s.omitted_arguments,
        ),
        RuntimeBoundCall::Host(s) => form_resources::count_service(&s.import, &s.omitted_arguments),
        RuntimeBoundCall::Bit(_) => Count::zero().more(1, 0),
        RuntimeBoundCall::Match(m) => match &m.input {
            MatchInput::Name(n) => Count::zero().more(1, form_resources::byte_count(n.as_str())),
            MatchInput::Variable(_) => Count::zero().more(1, 0),
        },
    }
}

fn count_plan(p: &RuntimeCallPlan) -> (r: Count)
    ensures
        r@ == plan_weight(p@),
{
    let ghost calls = p@.calls;
    let source = match &p.source {
        RuntimePlanSource::Form(f) => form_resources::count_form(f),
        RuntimePlanSource::Arguments(a) => form_resources::count_arguments(a),
    };
    let mut bound = Count::zero();
    let mut i: usize = 0;
    assert(calls.take(0) =~= Seq::<(Span, BoundCall)>::empty());
    while i < p.calls.len()
        invariant
            i <= p.calls.len(),
            calls == p@.calls,
            bound@ == calls_weight(calls.take(i as int)),
        decreases p.calls.len() - i,
    {
        proof {
            assert(calls[i as int].1 == p.calls@[i as int].1@);
            assert(calls.take(i + 1).drop_last() =~= calls.take(i as int));
        }
        bound = bound.plus(count_bound(&p.calls[i].1));
        i = i + 1;
    }
    assert(calls.take(i as int) =~= calls);
    Count::zero().more(1, 0).more(p.types.len(), 0).more(p.calls.len(), 0).plus(source).plus(bound)
}

impl RuntimeFormContinuation {
    pub(crate) fn count_plans(&self) -> (r: Count)
        ensures
            r@ == plans_weight(self@.plans),
    {
        let ghost plans = self@.plans;
        let mut out = Count::zero();
        let mut i: usize = 0;
        assert(plans.take(0) =~= Seq::<Plan>::empty());
        while i < self.call_plans.len()
            invariant
                i <= self.call_plans.len(),
                plans == self@.plans,
                out@ == plans_weight(plans.take(i as int)),
            decreases self.call_plans.len() - i,
        {
            proof {
                assert(plans[i as int] == self.call_plans@[i as int]@);
                assert(plans.take(i + 1).drop_last() =~= plans.take(i as int));
            }
            out = out.plus(count_plan(&self.call_plans[i]));
            i = i + 1;
        }
        assert(plans.take(i as int) =~= plans);
        out
    }

    /// The slots and bytes that the plans hold, where they can be counted.
    pub fn call_plan_resources(&self) -> (r: Option<(usize, usize)>)
        ensures
            form_resources::counted(r, plans_weight(self@.plans)),
    {
        self.count_plans().total()
    }
}

/// A plan that is installed is the current one and is found under its number.
pub proof fn law_installed_plan_is_current(form: Form, plan: Plan)
    requires
        form.next_plan < u64::MAX,
        forall|i: int| 0 <= i < form.plans.len() ==> (#[trigger] form.plans[i]).id < form.next_plan,
    ensures
        ({
            let (after, r) = installed(form, plan);
            &&& after.current_plan == Some(form.next_plan)
            &&& r == Ok::<u64, Failure>(form.next_plan)
            &&& after.plan(form.next_plan) == Some(Plan { id: form.next_plan, ..plan })
        }),
{
    let after = installed(form, plan).0;
    let p = plan_numbered(form.next_plan);
    assert(after.plans[form.plans.len() as int].id == form.next_plan);
    assert forall|j: int| 0 <= j < form.plans.len() implies !p(#[trigger] after.plans[j]) by {
        assert(after.plans[j] == form.plans[j]);
    }
    lookup::lemma_first_found(after.plans, p, form.plans.len() as int);
}

/// Restoring the plan that was current before an installation undoes the installation, where no
/// operation of the new plan is under way.
pub proof fn law_restoring_undoes_installing(form: Form, plan: Plan, previous: u64)
    requires
        form.next_plan < u64::MAX,
        form.current_plan == Some(previous),
        form.plans.len() > 0,
        form.plans.last().id == previous,
        forall|i: int, k: int|
            0 <= i < k < form.plans.len() ==> (#[trigger] form.plans[i]).id < (
            #[trigger] form.plans[k]).id,
        previous < form.next_plan,
        !form.has_live(form.next_plan),
    ensures
        ({
            let after = installed(form, plan).0;
            plan_restored(after, Some(previous)) == (
                Form { next_plan: after.next_plan, ..form },
                Ok::<(), Failure>(()),
            )
        }),
{
    let after = installed(form, plan).0;
    let last = form.plans.len() - 1;
    let p = plan_numbered(previous);
    assert(after.plans[last] == form.plans[last]);
    assert forall|j: int| 0 <= j < last implies !p(#[trigger] after.plans[j]) by {
        assert(after.plans[j] == form.plans[j]);
    }
    lookup::lemma_first_found(after.plans, p, last);
    assert(after.kept(Some(previous)) == form.plans.len());
    assert(after.has_live(form.next_plan) == form.has_live(form.next_plan));
    assert forall|i: int| form.plans.len() <= i < after.plans.len() implies !after.has_live(
        (#[trigger] after.plans[i]).id,
    ) by {
        assert(after.plans[i].id == form.next_plan);
    }
    assert(after.plans.take(form.plans.len() as int) =~= form.plans);
}

} // verus!
