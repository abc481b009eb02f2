//! Argument terms of a call given as text, kept as a graph while they are reduced.

use vstd::prelude::*;
use crate::ast::{Alignment, BinaryOp, PostfixOp, Span, UnaryOp};
use crate::text;
use crate::value::{BytecodeType, SymbolKey};

verus! {

/// The most nodes that a graph may have.
pub const MAX_REFERENCE_TERM_NODES: usize = 65536;

/// A literal term.
#[derive(PartialEq, Eq, Debug)]
pub enum ReferenceTermValue {
    Integer(i64),
    String(String),
}

/// Mathematical content of a [`ReferenceTermValue`].
pub enum Literal {
    Integer(i64),
    Text(Seq<char>),
}

impl View for ReferenceTermValue {
    type V = Literal;

    open spec fn view(&self) -> Literal {
        match self {
            ReferenceTermValue::Integer(n) => Literal::Integer(*n),
            ReferenceTermValue::String(s) => Literal::Text(s@),
        }
    }
}

impl Literal {
    pub open spec fn value_type(self) -> BytecodeType {
        match self {
            Literal::Integer(_) => BytecodeType::Integer,
            Literal::Text(_) => BytecodeType::String,
        }
    }
}

impl Clone for ReferenceTermValue {
    fn clone(&self) -> (r: ReferenceTermValue)
        ensures
            r@ == self@,
    {
        match self {
            ReferenceTermValue::Integer(n) => ReferenceTermValue::Integer(*n),
            ReferenceTermValue::String(s) => ReferenceTermValue::String(s.clone()),
        }
    }
}

impl ReferenceTermValue {
    pub fn value_type(&self) -> (r: BytecodeType)
        ensures
            r == self@.value_type(),
    {
        match self {
            ReferenceTermValue::Integer(_) => BytecodeType::Integer,
            ReferenceTermValue::String(_) => BytecodeType::String,
        }
    }
}

/// The callee of a call term.
#[derive(PartialEq, Eq, Debug)]
pub enum ReferenceTermCall {
    User { key: SymbolKey },
    Native { key: SymbolKey, name: String },
    DynamicNative { key: SymbolKey, name: String },
    Host { key: SymbolKey, name: String },
    Intrinsic { name: String },
}

/// Mathematical content of a [`ReferenceTermCall`].
pub enum Callee {
    User(SymbolKey),
    Native(SymbolKey, Seq<char>),
    DynamicNative(SymbolKey, Seq<char>),
    Host(SymbolKey, Seq<char>),
    Intrinsic(Seq<char>),
}

impl View for ReferenceTermCall {
    type V = Callee;

    open spec fn view(&self) -> Callee {
        match self {
            ReferenceTermCall::User { key } => Callee::User(*key),
            ReferenceTermCall::Native { key, name } => Callee::Native(*key, name@),
            ReferenceTermCall::DynamicNative { key, name } => Callee::DynamicNative(*key, name@),
            ReferenceTermCall::Host { key, name } => Callee::Host(*key, name@),
            ReferenceTermCall::Intrinsic { name } => Callee::Intrinsic(name@),
        }
    }
}

impl Callee {
    /// The name of a callee that is no user function.
    pub open spec fn name(self) -> Option<Seq<char>> {
        match self {
            Callee::User(_) => None,
            Callee::Native(_, n) => Some(n),
            Callee::DynamicNative(_, n) => Some(n),
            Callee::Host(_, n) => Some(n),
            Callee::Intrinsic(n) => Some(n),
        }
    }
}

impl ReferenceTermCall {
    /// The name of a callee that is no user function.
    pub fn name(&self) -> (r: Option<&str>)
        ensures
            match r {
                Some(n) => self@.name() == Some(n@),
                None => self@.name() is None,
            },
    {
        match self {
            ReferenceTermCall::User { .. } => None,
            ReferenceTermCall::Native { name, .. } => Some(name.as_str()),
            ReferenceTermCall::DynamicNative { name, .. } => Some(name.as_str()),
            ReferenceTermCall::Host { name, .. } => Some(name.as_str()),
            ReferenceTermCall::Intrinsic { name } => Some(name.as_str()),
        }
    }
}

/// An argument of a call term; `place` tells one that is passed as a place.
#[derive(Clone, Copy, PartialEq, Eq, Debug, Structural)]
pub struct ReferenceTermArgument {
    pub node: Option<u32>,
    pub place: bool,
}

/// A part of a formatted term.
#[derive(PartialEq, Eq, Debug)]
pub enum ReferenceTermPart {
    Text(String),
    Triple(char),
    Interpolation {
        expression: u32,
        width: Option<u32>,
        integer: bool,
        alignment: Option<Alignment>,
    },
    Conditional { condition: u32, then_value: u32, else_value: Option<u32> },
}

/// Mathematical content of a [`ReferenceTermPart`].
pub enum Fragment {
    Text(Seq<char>),
    Triple(char),
    Interpolation(u32, Option<u32>, bool, Option<Alignment>),
    Conditional(u32, u32, Option<u32>),
}

impl View for ReferenceTermPart {
    type V = Fragment;

    open spec fn view(&self) -> Fragment {
        match self {
            ReferenceTermPart::Text(s) => Fragment::Text(s@),
            ReferenceTermPart::Triple(c) => Fragment::Triple(*c),
            ReferenceTermPart::Interpolation { expression, width, integer, alignment } =>
                Fragment::Interpolation(*expression, *width, *integer, *alignment),
            ReferenceTermPart::Conditional { condition, then_value, else_value } =>
                Fragment::Conditional(*condition, *then_value, *else_value),
        }
    }
}

pub open spec fn fragments(s: Seq<ReferenceTermPart>) -> Seq<Fragment> {
    s.map_values(|p: ReferenceTermPart| p@)
}

#[allow(inconsistent_fields)]
#[derive(PartialEq, Eq, Debug)]
pub enum ReferenceTermKind {
    Value(ReferenceTermValue),
    Variable { key: SymbolKey, indices: Vec<u32> },
    Unary { op: UnaryOp, operand: u32 },
    Postfix { op: PostfixOp, operand: u32 },
    Binary { op: BinaryOp, left: u32, right: u32 },
    Ternary { condition: u32, then_value: u32, else_value: u32 },
    Call { target: ReferenceTermCall, arguments: Vec<ReferenceTermArgument> },
    Form { parts: Vec<ReferenceTermPart> },
}

/// Mathematical content of a [`ReferenceTermKind`].
#[verifier::ext_equal]
pub enum Term {
    Value(Literal),
    Variable(SymbolKey, Seq<u32>),
    Unary(UnaryOp, u32),
    Postfix(PostfixOp, u32),
    Binary(BinaryOp, u32, u32),
    Ternary(u32, u32, u32),
    Call(Callee, Seq<ReferenceTermArgument>),
    Form(Seq<Fragment>),
}

impl View for ReferenceTermKind {
    type V = Term;

    open spec fn view(&self) -> Term {
        match self {
            ReferenceTermKind::Value(v) => Term::Value(v@),
            ReferenceTermKind::Variable { key, indices } => Term::Variable(*key, indices@),
            ReferenceTermKind::Unary { op, operand } => Term::Unary(*op, *operand),
            ReferenceTermKind::Postfix { op, operand } => Term::Postfix(*op, *operand),
            ReferenceTermKind::Binary { op, left, right } => Term::Binary(*op, *left, *right),
            ReferenceTermKind::Ternary { condition, then_value, else_value } => Term::Ternary(
                *condition,
                *then_value,
                *else_value,
            ),
            ReferenceTermKind::Call { target, arguments } => Term::Call(target@, arguments@),
            ReferenceTermKind::Form { parts } => Term::Form(fragments(parts@)),
        }
    }
}

/// One node of a graph.
#[derive(PartialEq, Eq, Debug)]
pub struct ReferenceTermNode {
    pub kind: ReferenceTermKind,
    pub value_type: BytecodeType,
    pub span: Span,
}

/// Mathematical content of a [`ReferenceTermNode`].
#[verifier::ext_equal]
pub struct Node {
    pub term: Term,
    pub value_type: BytecodeType,
    pub span: Span,
}

impl View for ReferenceTermNode {
    type V = Node;

    open spec fn view(&self) -> Node {
        Node { term: self.kind@, value_type: self.value_type, span: self.span }
    }
}

/// The nodes among optional ones.
pub open spec fn present(node: Option<u32>) -> Seq<u32> {
    match node {
        Some(n) => seq![n],
        None => Seq::empty(),
    }
}

pub open spec fn argument_nodes(arguments: Seq<ReferenceTermArgument>) -> Seq<u32>
    decreases arguments.len(),
{
    if arguments.len() == 0 {
        Seq::empty()
    } else {
        argument_nodes(arguments.drop_last()) + present(arguments.last().node)
    }
}

pub open spec fn fragment_nodes(f: Fragment) -> Seq<u32> {
    match f {
        Fragment::Text(_) => Seq::empty(),
        Fragment::Triple(_) => Seq::empty(),
        Fragment::Interpolation(e, w, _, _) => seq![e] + present(w),
        Fragment::Conditional(c, t, e) => seq![c, t] + present(e),
    }
}

pub open spec fn part_nodes(parts: Seq<Fragment>) -> Seq<u32>
    decreases parts.len(),
{
    if parts.len() == 0 {
        Seq::empty()
    } else {
        part_nodes(parts.drop_last()) + fragment_nodes(parts.last())
    }
}

/// The children of a term, in source order.
pub open spec fn children(term: Term) -> Seq<u32> {
    match term {
        Term::Value(_) => Seq::empty(),
        Term::Variable(_, indices) => indices,
        Term::Unary(_, a) => seq![a],
        Term::Postfix(_, a) => seq![a],
        Term::Binary(_, a, b) => seq![a, b],
        Term::Ternary(a, b, c) => seq![a, b, c],
        Term::Call(_, arguments) => argument_nodes(arguments),
        Term::Form(parts) => part_nodes(parts),
    }
}

fn push_present(out: &mut Vec<u32>, node: Option<u32>)
    ensures
        final(out)@ == old(out)@ + present(node),
{
    match node {
        Some(n) => {
            out.push(n);
            assert(out@ =~= old(out)@ + present(node));
        },
        None => {
            assert(out@ =~= old(out)@ + present(node));
        },
    }
}

impl ReferenceTermNode {
    /// The children of this node, in source order.
    pub fn children(&self) -> (r: Vec<u32>)
        ensures
            r@ == children(self@.term),
    {
        let mut out: Vec<u32> = Vec::new();
        match &self.kind {
            ReferenceTermKind::Value(_) => {},
            ReferenceTermKind::Variable { indices, .. } => {
                let mut i: usize = 0;
                while i < indices.len()
                    invariant
                        i <= indices.len(),
                        out@ == indices@.take(i as int),
                    decreases indices.len() - i,
                {
                    out.push(indices[i]);
                    i = i + 1;
                    assert(out@ =~= indices@.take(i as int));
                }
                assert(out@ =~= indices@);
            },
            ReferenceTermKind::Unary { operand, .. } => {
                out.push(*operand);
            },
            ReferenceTermKind::Postfix { operand, .. } => {
                out.push(*operand);
            },
            ReferenceTermKind::Binary { left, right, .. } => {
                out.push(*left);
                out.push(*right);
            },
            ReferenceTermKind::Ternary { condition, then_value, else_value } => {
                out.push(*condition);
                out.push(*then_value);
                out.push(*else_value);
            },
            ReferenceTermKind::Call { arguments, .. } => {
                let mut i: usize = 0;
                assert(arguments@.take(0) =~= Seq::<ReferenceTermArgument>::empty());
                while i < arguments.len()
                    invariant
                        i <= arguments.len(),
                        out@ == argument_nodes(arguments@.take(i as int)),
                    decreases arguments.len() - i,
                {
                    push_present(&mut out, arguments[i].node);
                    i = i + 1;
                    assert(arguments@.take(i as int).drop_last() =~= arguments@.take(i - 1));
                }
                assert(arguments@.take(i as int) =~= arguments@);
            },
            ReferenceTermKind::Form { parts } => {
                let ghost all = fragments(parts@);
                let mut i: usize = 0;
                assert(all.take(0) =~= Seq::<Fragment>::empty());
                while i < parts.len()
                    invariant
                        i <= parts.len(),
                        all == fragments(parts@),
                        out@ == part_nodes(all.take(i as int)),
                    decreases parts.len() - i,
                {
                    let ghost before = out@;
                    match &parts[i] {
                        ReferenceTermPart::Text(_) => {},
                        ReferenceTermPart::Triple(_) => {},
                        ReferenceTermPart::Interpolation { expression, width, .. } => {
                            out.push(*expression);
                            push_present(&mut out, *width);
                        },
                        ReferenceTermPart::Conditional { condition, then_value, else_value } => {
                            out.push(*condition);
                            out.push(*then_value);
                            push_present(&mut out, *else_value);
                        },
                    }
                    i = i + 1;
                    assert(all.take(i as int).drop_last() =~= all.take(i - 1));
                    assert(all.take(i as int).last() == parts@[i - 1]@);
                    assert(out@ =~= before + fragment_nodes(parts@[i - 1]@));
                }
                assert(all.take(i as int) =~= all);
            },
        }
        assert(out@ =~= children(self@.term));
        out
    }
}

/// A graph of terms; children come before the nodes that use them.
#[derive(PartialEq, Eq, Debug)]
pub struct ReferenceTermGraph {
    pub nodes: Vec<ReferenceTermNode>,
    pub roots: Vec<Option<u32>>,
}

/// Mathematical content of a [`ReferenceTermGraph`].
#[verifier::ext_equal]
pub struct Graph {
    pub nodes: Seq<Node>,
    pub roots: Seq<Option<u32>>,
}

pub open spec fn node_views(s: Seq<ReferenceTermNode>) -> Seq<Node> {
    s.map_values(|n: ReferenceTermNode| n@)
}

impl View for ReferenceTermGraph {
    type V = Graph;

    open spec fn view(&self) -> Graph {
        Graph { nodes: node_views(self.nodes@), roots: self.roots@ }
    }
}

/// Children come before the nodes that use them, and roots are nodes.
pub open spec fn well_founded(graph: Graph) -> bool {
    &&& graph.nodes.len() <= MAX_REFERENCE_TERM_NODES
    &&& forall|i: int, k: int|
        0 <= i < graph.nodes.len() && 0 <= k < children(graph.nodes[i].term).len()
            ==> #[trigger] children(graph.nodes[i].term)[k] < i
    &&& forall|i: int|
        0 <= i < graph.roots.len() ==> (#[trigger] graph.roots[i] matches Some(r) ==> r
            < graph.nodes.len())
}

impl ReferenceTermGraph {
    /// Tells whether children come before the nodes that use them and roots are nodes.
    pub fn validate_structure(&self) -> (r: bool)
        ensures
            r == well_founded(self@),
    {
        if self.nodes.len() > MAX_REFERENCE_TERM_NODES {
            return false;
        }
        let ghost g = self@;
        let mut i: usize = 0;
        while i < self.nodes.len()
            invariant
                i <= self.nodes.len(),
                g == self@,
                forall|j: int, k: int|
                    0 <= j < i && 0 <= k < children(g.nodes[j].term).len()
                        ==> #[trigger] children(g.nodes[j].term)[k] < j,
            decreases self.nodes.len() - i,
        {
            let c = self.nodes[i].children();
            assert(c@ == children(g.nodes[i as int].term));
            let mut k: usize = 0;
            while k < c.len()
                invariant
                    k <= c.len(),
                    i < self.nodes.len(),
                    g == self@,
                    c@ == children(g.nodes[i as int].term),
                    forall|m: int| 0 <= m < k ==> #[trigger] c@[m] < i,
                decreases c.len() - k,
            {
                if c[k] as usize >= i {
                    assert(children(g.nodes[i as int].term)[k as int] >= i);
                    return false;
                }
                k = k + 1;
            }
            i = i + 1;
        }
        let mut i: usize = 0;
        while i < self.roots.len()
            invariant
                i <= self.roots.len(),
                g == self@,
                forall|j: int|
                    0 <= j < i ==> (#[trigger] g.roots[j] matches Some(r) ==> r < g.nodes.len()),
            decreases self.roots.len() - i,
        {
            match self.roots[i] {
                Some(r) => {
                    if r as usize >= self.nodes.len() {
                        assert(g.roots[i as int] == Some(r));
                        return false;
                    }
                },
                None => {},
            }
            i = i + 1;
        }
        true
    }
}

fn same_literal(a: &ReferenceTermValue, b: &ReferenceTermValue) -> (r: bool)
    ensures
        r == (a@ == b@),
{
    match (a, b) {
        (ReferenceTermValue::Integer(x), ReferenceTermValue::Integer(y)) => *x == *y,
        (ReferenceTermValue::String(x), ReferenceTermValue::String(y)) => text::same_text(
            x.as_str(),
            y.as_str(),
        ),
        _ => false,
    }
}

fn same_callee(a: &ReferenceTermCall, b: &ReferenceTermCall) -> (r: bool)
    ensures
        r == (a@ == b@),
{
    match (a, b) {
        (ReferenceTermCall::User { key: x }, ReferenceTermCall::User { key: y }) => *x == *y,
        (
            ReferenceTermCall::Native { key: x, name: m },
            ReferenceTermCall::Native { key: y, name: n },
        ) => *x == *y && text::same_text(m.as_str(), n.as_str()),
        (
            ReferenceTermCall::DynamicNative { key: x, name: m },
            ReferenceTermCall::DynamicNative { key: y, name: n },
        ) => *x == *y && text::same_text(m.as_str(), n.as_str()),
        (
            ReferenceTermCall::Host { key: x, name: m },
            ReferenceTermCall::Host { key: y, name: n },
        ) => *x == *y && text::same_text(m.as_str(), n.as_str()),
        (ReferenceTermCall::Intrinsic { name: m }, ReferenceTermCall::Intrinsic { name: n }) => {
            text::same_text(m.as_str(), n.as_str())
        },
        _ => false,
    }
}

fn same_fragment(a: &ReferenceTermPart, b: &ReferenceTermPart) -> (r: bool)
    ensures
        r == (a@ == b@),
{
    match (a, b) {
        (ReferenceTermPart::Text(x), ReferenceTermPart::Text(y)) => text::same_text(
            x.as_str(),
            y.as_str(),
        ),
        (ReferenceTermPart::Triple(x), ReferenceTermPart::Triple(y)) => *x == *y,
        (
            ReferenceTermPart::Interpolation { expression: e, width: w, integer: i, alignment: l },
            ReferenceTermPart::Interpolation { expression: f, width: v, integer: j, alignment: m },
        ) => *e == *f && *w == *v && *i == *j && *l == *m,
        (
            ReferenceTermPart::Conditional { condition: c, then_value: t, else_value: e },
            ReferenceTermPart::Conditional { condition: d, then_value: u, else_value: f },
        ) => *c == *d && *t == *u && *e == *f,
        _ => false,
    }
}

fn same_fragments(a: &Vec<ReferenceTermPart>, b: &Vec<ReferenceTermPart>) -> (r: bool)
    ensures
        r == (fragments(a@) == fragments(b@)),
{
    if a.len() != b.len() {
        assert(fragments(a@).len() != fragments(b@).len());
        return false;
    }
    let mut i: usize = 0;
    while i < a.len()
        invariant
            i <= a.len(),
            a.len() == b.len(),
            forall|j: int| 0 <= j < i ==> (#[trigger] a@[j])@ == b@[j]@,
        decreases a.len() - i,
    {
        if !same_fragment(&a[i], &b[i]) {
            assert(fragments(a@)[i as int] != fragments(b@)[i as int]);
            return false;
        }
        i = i + 1;
    }
    assert(fragments(a@) =~= fragments(b@));
    true
}

fn same_nodes(a: &Vec<u32>, b: &Vec<u32>) -> (r: bool)
    ensures
        r == (a@ == b@),
{
    if a.len() != b.len() {
        return false;
    }
    let mut i: usize = 0;
    while i < a.len()
        invariant
            i <= a.len(),
            a.len() == b.len(),
            forall|j: int| 0 <= j < i ==> a@[j] == b@[j],
        decreases a.len() - i,
    {
        if a[i] != b[i] {
            assert(a@[i as int] != b@[i as int]);
            return false;
        }
        i = i + 1;
    }
    assert(a@ =~= b@);
    true
}

fn same_term_arguments(a: &Vec<ReferenceTermArgument>, b: &Vec<ReferenceTermArgument>) -> (r: bool)
    ensures
        r == (a@ == b@),
{
    if a.len() != b.len() {
        return false;
    }
    let mut i: usize = 0;
    while i < a.len()
        invariant
            i <= a.len(),
            a.len() == b.len(),
            forall|j: int| 0 <= j < i ==> a@[j] == b@[j],
        decreases a.len() - i,
    {
        if a[i] != b[i] {
            assert(a@[i as int] != b@[i as int]);
            return false;
        }
        i = i + 1;
    }
    assert(a@ =~= b@);
    true
}

fn same_term(a: &ReferenceTermKind, b: &ReferenceTermKind) -> (r: bool)
    ensures
        r == (a@ == b@),
{
    match (a, b) {
        (ReferenceTermKind::Value(x), ReferenceTermKind::Value(y)) => same_literal(x, y),
        (
            ReferenceTermKind::Variable { key: k, indices: x },
            ReferenceTermKind::Variable { key: l, indices: y },
        ) => *k == *l && same_nodes(x, y),
        (
            ReferenceTermKind::Unary { op: o, operand: x },
            ReferenceTermKind::Unary { op: p, operand: y },
        ) => *o == *p && *x == *y,
        (
            ReferenceTermKind::Postfix { op: o, operand: x },
            ReferenceTermKind::Postfix { op: p, operand: y },
        ) => *o == *p && *x == *y,
        (
            ReferenceTermKind::Binary { op: o, left: w, right: x },
            ReferenceTermKind::Binary { op: p, left: y, right: z },
        ) => *o == *p && *w == *y && *x == *z,
        (
            ReferenceTermKind::Ternary { condition: c, then_value: t, else_value: e },
            ReferenceTermKind::Ternary { condition: d, then_value: u, else_value: f },
        ) => *c == *d && *t == *u && *e == *f,
        (
            ReferenceTermKind::Call { target: t, arguments: x },
            ReferenceTermKind::Call { target: u, arguments: y },
        ) => same_callee(t, u) && same_term_arguments(x, y),
        (ReferenceTermKind::Form { parts: x }, ReferenceTermKind::Form { parts: y }) => {
            same_fragments(x, y)
        },
        _ => false,
    }
}

/// Compares two graphs.
pub fn same_graph(a: &ReferenceTermGraph, b: &ReferenceTermGraph) -> (r: bool)
    ensures
        r == (a@ == b@),
{
    if a.nodes.len() != b.nodes.len() || a.roots.len() != b.roots.len() {
        assert(a@.nodes.len() == a.nodes@.len());
        assert(b@.nodes.len() == b.nodes@.len());
        return false;
    }
    let mut i: usize = 0;
    while i < a.nodes.len()
        invariant
            i <= a.nodes.len(),
            a.nodes.len() == b.nodes.len(),
            forall|j: int| 0 <= j < i ==> (#[trigger] a.nodes@[j])@ == b.nodes@[j]@,
        decreases a.nodes.len() - i,
    {
        let x = &a.nodes[i];
        let y = &b.nodes[i];
        if x.value_type != y.value_type || x.span != y.span || !same_term(&x.kind, &y.kind) {
            assert(a@.nodes[i as int] != b@.nodes[i as int]);
            return false;
        }
        i = i + 1;
    }
    let mut k: usize = 0;
    while k < a.roots.len()
        invariant
            k <= a.roots.len(),
            a.roots.len() == b.roots.len(),
            forall|j: int| 0 <= j < k ==> a.roots@[j] == b.roots@[j],
        decreases a.roots.len() - k,
    {
        if a.roots[k] != b.roots[k] {
            assert(a@.roots[k as int] != b@.roots[k as int]);
            return false;
        }
        k = k + 1;
    }
    assert(a@.nodes =~= b@.nodes);
    assert(a@.roots =~= b@.roots);
    true
}

} // verus!
