//! Building the graph of argument terms from expressions.

use vstd::prelude::*;
use std::rc::Rc;
use crate::ast::{
    self, Expr, ExprKind, FormPart, FormTree, FormattedString, PartTree, Span, Tree, TreeKind,
};
use crate::existvar::invalid;
use crate::fault::{self, Failure, StepError};
use crate::form_binding;
use crate::form_resources;
use crate::form_typing::{self, Shapes};
use crate::forms::MAX_RUNTIME_FORM_NESTING;
use crate::lookup;
use crate::program::{ProgramGeneration, RuntimeExpressionShape};
use crate::terms::{
    self, Callee, Fragment, Graph, Literal, Node, ReferenceTermArgument, ReferenceTermCall,
    ReferenceTermGraph, ReferenceTermKind, ReferenceTermNode, ReferenceTermPart, ReferenceTermValue,
    Term, MAX_REFERENCE_TERM_NODES,
};
use crate::text;
use crate::value::{BytecodeType, SymbolKey};

verus! {

/// What a graph is built by: the program, the function and the types of the source.
pub struct Schema {
    pub program: ProgramGeneration,
    pub function: SymbolKey,
    pub types: Seq<(Span, BytecodeType)>,
}

pub open spec fn spans(span: Span) -> spec_fn((Span, BytecodeType)) -> bool {
    |t: (Span, BytecodeType)| t.0 == span
}

/// The type that was found for a span.
pub open spec fn type_at(types: Seq<(Span, BytecodeType)>, span: Span) -> Option<BytecodeType> {
    match lookup::first_index(types, spans(span)) {
        Some(i) => Some(types[i].1),
        None => None,
    }
}

/// The type that was found for a span.
pub fn find_type(types: &Vec<(Span, BytecodeType)>, span: Span) -> (r: Option<BytecodeType>)
    ensures
        r == type_at(types@, span),
{
    let mut i: usize = 0;
    while i < types.len()
        invariant
            i <= types.len(),
            forall|j: int| 0 <= j < i ==> !spans(span)(#[trigger] types@[j]),
        decreases types.len() - i,
    {
        if types[i].0 == span {
            proof {
                lookup::lemma_first_found(types@, spans(span), i as int);
            }
            return Some(types[i].1);
        }
        i = i + 1;
    }
    proof {
        lookup::lemma_first_none(types@, spans(span));
    }
    None
}

pub open spec fn with_node(nodes: Seq<Node>, node: Node) -> (Seq<Node>, Result<u32, Failure>) {
    if nodes.len() >= MAX_REFERENCE_TERM_NODES {
        (
            nodes,
            Err(
                form_resources::resource_failure("reference argument graph exceeds node limit"@),
            ),
        )
    } else {
        (nodes.push(node), Ok(nodes.len() as u32))
    }
}

pub open spec fn is_intrinsic(name: Seq<char>) -> bool {
    text::same_ignoring_case(name, "STRFORM"@) || text::same_ignoring_case(name, "STRFORMCHECK"@)
        || text::same_ignoring_case(name, "GETMETH"@) || text::same_ignoring_case(
        name,
        "GETMETHS"@,
    ) || text::same_ignoring_case(name, "EXISTMETH"@) || text::same_ignoring_case(
        name,
        "EXISTVAR"@,
    )
}

fn intrinsic(name: &str) -> (r: bool)
    ensures
        r == is_intrinsic(name@),
{
    text::eq_ignore_ascii_case(name, "STRFORM") || text::eq_ignore_ascii_case(name, "STRFORMCHECK")
        || text::eq_ignore_ascii_case(name, "GETMETH") || text::eq_ignore_ascii_case(
        name,
        "GETMETHS",
    ) || text::eq_ignore_ascii_case(name, "EXISTMETH") || text::eq_ignore_ascii_case(
        name,
        "EXISTVAR",
    )
}

/// What the arguments of a service call look like.
pub open spec fn call_shapes(c: Schema, arguments: Seq<Option<Tree>>) -> Result<Shapes, Failure>
    decreases arguments.len(),
{
    if arguments.len() == 0 {
        Ok(Seq::empty())
    } else {
        match call_shapes(c, arguments.drop_last()) {
            Err(e) => Err(e),
            Ok(shapes) => match arguments.last() {
                None => Ok(shapes.push(None)),
                Some(t) => match type_at(c.types, t.span) {
                    None => Err(Failure::invalid("Native term lacks analyzed type"@)),
                    Some(ty) => Ok(
                        shapes.push(
                            Some(form_typing::shape_of(c.program, c.function, t, ty)),
                        ),
                    ),
                },
            },
        }
    }
}

pub open spec fn is_place(t: BytecodeType) -> bool {
    t is IntegerPlace || t is StringPlace
}

/// Tells the type of a place.
pub fn place_type(t: BytecodeType) -> (r: bool)
    ensures
        r == is_place(t),
{
    match t {
        BytecodeType::IntegerPlace | BytecodeType::StringPlace => true,
        _ => false,
    }
}

/// The arguments of a service call, marked where the service takes places.
pub open spec fn marked(arguments: Seq<ReferenceTermArgument>, parameters: Seq<BytecodeType>) -> Seq<
    ReferenceTermArgument,
> {
    Seq::new(
        arguments.len(),
        |i: int|
            if i < parameters.len() {
                ReferenceTermArgument { place: is_place(parameters[i]), ..arguments[i] }
            } else {
                arguments[i]
            },
    )
}

/// The callee of a call term, and its marked arguments.
pub open spec fn call_term(
    c: Schema,
    name: Seq<char>,
    sources: Seq<Option<Tree>>,
    arguments: Seq<ReferenceTermArgument>,
) -> Result<Term, Failure> {
    match c.program.spec_function_by_name(name) {
        Some(f) => Ok(Term::Call(Callee::User(f.key), arguments)),
        None => if is_intrinsic(name) {
            Ok(Term::Call(Callee::Intrinsic(text::upper_text(name)), arguments))
        } else {
            match call_shapes(c, sources) {
                Err(e) => Err(e),
                Ok(shapes) => if form_binding::host_family_named(c.program, name) is Some {
                    match form_binding::host_bound(c.program, name, shapes) {
                        Err(e) => Err(e),
                        Ok(b) => Ok(
                            Term::Call(
                                Callee::Host(b.key, text::upper_text(name)),
                                marked(arguments, b.import.parameters),
                            ),
                        ),
                    }
                } else {
                    match form_binding::native_bound(c.program, name, shapes, None) {
                        Err(e) => Err(e),
                        Ok(b) => Ok(
                            Term::Call(
                                Callee::DynamicNative(b.key, text::upper_text(name)),
                                marked(arguments, b.import.parameters),
                            ),
                        ),
                    }
                },
            }
        },
    }
}

/// Whether a slot of a call has a term of its own, and whether it is passed as a place.
pub open spec fn slot_kept(program: ProgramGeneration, name: Seq<char>, slot: int) -> bool {
    program.spec_function_by_name(name) matches Some(f) ==> slot < f.parameters@.len()
}

pub open spec fn slot_place(program: ProgramGeneration, name: Seq<char>, slot: int) -> bool {
    program.spec_function_by_name(name) matches Some(f) && 0 <= slot < f.parameters@.len()
        && f.parameters@[slot].by_reference
}

/// The node of an expression, and all nodes after it.
pub open spec fn graph_expr(c: Schema, nodes: Seq<Node>, t: Tree, depth: nat) -> (
    Seq<Node>,
    Result<u32, Failure>,
)
    decreases t, 1int,
{
    if depth > MAX_RUNTIME_FORM_NESTING {
        (
            nodes,
            Err(
                form_resources::resource_failure(
                    "reference argument graph exceeds nesting limit"@,
                ),
            ),
        )
    } else {
        match type_at(c.types, t.span) {
            None => (
                nodes,
                Err(Failure::invalid("reference term lacks its analyzed scalar type"@)),
            ),
            Some(ty) => match t.kind {
                TreeKind::Group(inner) => graph_expr(c, nodes, *inner, depth + 1),
                TreeKind::Formatted(f) => graph_form(c, nodes, f, depth + 1),
                _ => match graph_kind(c, nodes, t, depth) {
                    (n, Err(e)) => (n, Err(e)),
                    (n, Ok(term)) => with_node(n, Node { term, value_type: ty, span: t.span }),
                },
            },
        }
    }
}

pub open spec fn graph_kind(c: Schema, nodes: Seq<Node>, t: Tree, depth: nat) -> (
    Seq<Node>,
    Result<Term, Failure>,
)
    decreases t, 0int,
{
    match t.kind {
        TreeKind::Integer(n) => (nodes, Ok(Term::Value(Literal::Integer(n)))),
        TreeKind::Text(s) => (nodes, Ok(Term::Value(Literal::Text(s)))),
        TreeKind::Identifier(name) => match c.program.spec_scoped_variable(c.function, name) {
            None => (nodes, Err(Failure::invalid("analyzed reference variable disappeared"@))),
            Some(g) => (nodes, Ok(Term::Variable(g.key, Seq::empty()))),
        },
        TreeKind::Variable(name, indices) => match c.program.spec_scoped_variable(
            c.function,
            name,
        ) {
            None => (nodes, Err(Failure::invalid("analyzed reference variable disappeared"@))),
            Some(g) => match graph_list(c, nodes, indices, depth + 1) {
                (n, Err(e)) => (n, Err(e)),
                (n, Ok(ids)) => (n, Ok(Term::Variable(g.key, ids))),
            },
        },
        TreeKind::Unary(op, x) => match graph_expr(c, nodes, *x, depth + 1) {
            (n, Err(e)) => (n, Err(e)),
            (n, Ok(a)) => (n, Ok(Term::Unary(op, a))),
        },
        TreeKind::Postfix(op, x) => match graph_expr(c, nodes, *x, depth + 1) {
            (n, Err(e)) => (n, Err(e)),
            (n, Ok(a)) => (n, Ok(Term::Postfix(op, a))),
        },
        TreeKind::Binary(op, x, y) => match graph_expr(c, nodes, *x, depth + 1) {
            (n, Err(e)) => (n, Err(e)),
            (n, Ok(a)) => match graph_expr(c, n, *y, depth + 1) {
                (m, Err(e)) => (m, Err(e)),
                (m, Ok(b)) => (m, Ok(Term::Binary(op, a, b))),
            },
        },
        TreeKind::Ternary(x, y, z) => match graph_expr(c, nodes, *x, depth + 1) {
            (n, Err(e)) => (n, Err(e)),
            (n, Ok(a)) => match graph_expr(c, n, *y, depth + 1) {
                (m, Err(e)) => (m, Err(e)),
                (m, Ok(b)) => match graph_expr(c, m, *z, depth + 1) {
                    (k, Err(e)) => (k, Err(e)),
                    (k, Ok(d)) => (k, Ok(Term::Ternary(a, b, d))),
                },
            },
        },
        TreeKind::Call(name, arguments) => match graph_arguments(
            c,
            nodes,
            name,
            arguments,
            depth + 1,
        ) {
            (n, Err(e)) => (n, Err(e)),
            (n, Ok(list)) => (n, call_term(c, name, arguments, list)),
        },
        _ => (
            nodes,
            Err(Failure::invalid("parser error reached reference graph construction"@)),
        ),
    }
}

pub open spec fn graph_list(c: Schema, nodes: Seq<Node>, indices: Seq<Tree>, depth: nat) -> (
    Seq<Node>,
    Result<Seq<u32>, Failure>,
)
    decreases indices, 0int,
{
    if indices.len() == 0 {
        (nodes, Ok(Seq::empty()))
    } else {
        match graph_list(c, nodes, indices.drop_last(), depth) {
            (n, Err(e)) => (n, Err(e)),
            (n, Ok(ids)) => match graph_expr(c, n, indices[indices.len() - 1], depth) {
                (m, Err(e)) => (m, Err(e)),
                (m, Ok(id)) => (m, Ok(ids.push(id))),
            },
        }
    }
}

pub open spec fn graph_arguments(
    c: Schema,
    nodes: Seq<Node>,
    name: Seq<char>,
    arguments: Seq<Option<Tree>>,
    depth: nat,
) -> (Seq<Node>, Result<Seq<ReferenceTermArgument>, Failure>)
    decreases arguments, 0int,
{
    if arguments.len() == 0 {
        (nodes, Ok(Seq::empty()))
    } else {
        let slot = arguments.len() - 1;
        let place = slot_place(c.program, name, slot);
        match graph_arguments(c, nodes, name, arguments.drop_last(), depth) {
            (n, Err(e)) => (n, Err(e)),
            (n, Ok(list)) => match arguments[slot] {
                None => (n, Ok(list.push(ReferenceTermArgument { node: None, place }))),
                Some(t) => if !slot_kept(c.program, name, slot) {
                    (n, Ok(list.push(ReferenceTermArgument { node: None, place })))
                } else {
                    match graph_expr(c, n, t, depth) {
                        (m, Err(e)) => (m, Err(e)),
                        (m, Ok(id)) => (
                            m,
                            Ok(list.push(ReferenceTermArgument { node: Some(id), place })),
                        ),
                    }
                },
            },
        }
    }
}

pub open spec fn graph_form(c: Schema, nodes: Seq<Node>, f: FormTree, depth: nat) -> (
    Seq<Node>,
    Result<u32, Failure>,
)
    decreases f, 0int,
{
    if depth > MAX_RUNTIME_FORM_NESTING {
        (
            nodes,
            Err(form_resources::resource_failure("reference form graph exceeds nesting limit"@)),
        )
    } else {
        match graph_parts(c, nodes, f.parts, depth) {
            (n, Err(e)) => (n, Err(e)),
            (n, Ok(parts)) => with_node(
                n,
                Node { term: Term::Form(parts), value_type: BytecodeType::String, span: f.span },
            ),
        }
    }
}

pub open spec fn graph_parts(c: Schema, nodes: Seq<Node>, parts: Seq<PartTree>, depth: nat) -> (
    Seq<Node>,
    Result<Seq<Fragment>, Failure>,
)
    decreases parts, 0int,
{
    if parts.len() == 0 {
        (nodes, Ok(Seq::empty()))
    } else {
        match graph_parts(c, nodes, parts.drop_last(), depth) {
            (n, Err(e)) => (n, Err(e)),
            (n, Ok(list)) => match graph_part(c, n, parts[parts.len() - 1], depth) {
                (m, Err(e)) => (m, Err(e)),
                (m, Ok(p)) => (m, Ok(list.push(p))),
            },
        }
    }
}

pub open spec fn graph_part(c: Schema, nodes: Seq<Node>, p: PartTree, depth: nat) -> (
    Seq<Node>,
    Result<Fragment, Failure>,
)
    decreases p, 0int,
{
    match p {
        PartTree::Text(s) => (nodes, Ok(Fragment::Text(s))),
        PartTree::Triple(x) => (nodes, Ok(Fragment::Triple(x))),
        PartTree::Interpolation(string, e, width, alignment) => match graph_expr(
            c,
            nodes,
            *e,
            depth + 1,
        ) {
            (n, Err(x)) => (n, Err(x)),
            (n, Ok(a)) => match width {
                None => (n, Ok(Fragment::Interpolation(a, None, !string, alignment))),
                Some(w) => match graph_expr(c, n, *w, depth + 1) {
                    (m, Err(x)) => (m, Err(x)),
                    (m, Ok(b)) => (m, Ok(Fragment::Interpolation(a, Some(b), !string, alignment))),
                },
            },
        },
        PartTree::Conditional(condition, then_value, else_value) => match graph_expr(
            c,
            nodes,
            *condition,
            depth + 1,
        ) {
            (n, Err(x)) => (n, Err(x)),
            (n, Ok(a)) => match graph_form(c, n, then_value, depth + 1) {
                (m, Err(x)) => (m, Err(x)),
                (m, Ok(b)) => match else_value {
                    None => (m, Ok(Fragment::Conditional(a, b, None))),
                    Some(f) => match graph_form(c, m, f, depth + 1) {
                        (k, Err(x)) => (k, Err(x)),
                        (k, Ok(d)) => (k, Ok(Fragment::Conditional(a, b, Some(d)))),
                    },
                },
            },
        },
    }
}

/// The nodes and the roots of some arguments.
pub open spec fn graph_roots(c: Schema, arguments: Seq<Option<Tree>>) -> Result<Graph, Failure>
    decreases arguments.len(),
{
    if arguments.len() == 0 {
        Ok(Graph { nodes: Seq::empty(), roots: Seq::empty() })
    } else {
        match graph_roots(c, arguments.drop_last()) {
            Err(e) => Err(e),
            Ok(g) => match arguments.last() {
                None => Ok(Graph { roots: g.roots.push(None), ..g }),
                Some(t) => match graph_expr(c, g.nodes, t, 0) {
                    (_, Err(e)) => Err(e),
                    (n, Ok(id)) => Ok(Graph { nodes: n, roots: g.roots.push(Some(id)) }),
                },
            },
        }
    }
}

/// The graph of some arguments.
pub open spec fn graph_of(c: Schema, arguments: Seq<Option<Tree>>) -> Result<Graph, Failure> {
    match graph_roots(c, arguments) {
        Err(e) => Err(e),
        Ok(g) => if terms::well_founded(g) {
            Ok(g)
        } else {
            Err(Failure::invalid("reference argument graph has an invalid structure"@))
        },
    }
}

proof fn lemma_list_stop(c: Schema, nodes: Seq<Node>, indices: Seq<Tree>, depth: nat, n: int)
    requires
        0 <= n <= indices.len(),
        graph_list(c, nodes, indices.take(n), depth).1 is Err,
    ensures
        graph_list(c, nodes, indices, depth) == graph_list(c, nodes, indices.take(n), depth),
    decreases indices.len() - n,
{
    if n == indices.len() {
        assert(indices.take(n) =~= indices);
    } else {
        assert(indices.take(n + 1).drop_last() =~= indices.take(n));
        lemma_list_stop(c, nodes, indices, depth, n + 1);
    }
}

proof fn lemma_arguments_stop(
    c: Schema,
    nodes: Seq<Node>,
    name: Seq<char>,
    arguments: Seq<Option<Tree>>,
    depth: nat,
    n: int,
)
    requires
        0 <= n <= arguments.len(),
        graph_arguments(c, nodes, name, arguments.take(n), depth).1 is Err,
    ensures
        graph_arguments(c, nodes, name, arguments, depth) == graph_arguments(
            c,
            nodes,
            name,
            arguments.take(n),
            depth,
        ),
    decreases arguments.len() - n,
{
    if n == arguments.len() {
        assert(arguments.take(n) =~= arguments);
    } else {
        assert(arguments.take(n + 1).drop_last() =~= arguments.take(n));
        lemma_arguments_stop(c, nodes, name, arguments, depth, n + 1);
    }
}

proof fn lemma_parts_stop(c: Schema, nodes: Seq<Node>, parts: Seq<PartTree>, depth: nat, n: int)
    requires
        0 <= n <= parts.len(),
        graph_parts(c, nodes, parts.take(n), depth).1 is Err,
    ensures
        graph_parts(c, nodes, parts, depth) == graph_parts(c, nodes, parts.take(n), depth),
    decreases parts.len() - n,
{
    if n == parts.len() {
        assert(parts.take(n) =~= parts);
    } else {
        assert(parts.take(n + 1).drop_last() =~= parts.take(n));
        lemma_parts_stop(c, nodes, parts, depth, n + 1);
    }
}

proof fn lemma_shapes_stop(c: Schema, arguments: Seq<Option<Tree>>, n: int)
    requires
        0 <= n <= arguments.len(),
        call_shapes(c, arguments.take(n)) is Err,
    ensures
        call_shapes(c, arguments) == call_shapes(c, arguments.take(n)),
    decreases arguments.len() - n,
{
    if n == arguments.len() {
        assert(arguments.take(n) =~= arguments);
    } else {
        assert(arguments.take(n + 1).drop_last() =~= arguments.take(n));
        lemma_shapes_stop(c, arguments, n + 1);
    }
}

proof fn lemma_roots_stop(c: Schema, arguments: Seq<Option<Tree>>, n: int)
    requires
        0 <= n <= arguments.len(),
        graph_roots(c, arguments.take(n)) is Err,
    ensures
        graph_roots(c, arguments) == graph_roots(c, arguments.take(n)),
    decreases arguments.len() - n,
{
    if n == arguments.len() {
        assert(arguments.take(n) =~= arguments);
    } else {
        assert(arguments.take(n + 1).drop_last() =~= arguments.take(n));
        lemma_roots_stop(c, arguments, n + 1);
    }
}

pub open spec fn id_result(r: Result<u32, StepError>) -> Result<u32, Failure> {
    match r {
        Ok(id) => Ok(id),
        Err(e) => Err(e@),
    }
}

pub open spec fn ids_result(r: Result<Vec<u32>, StepError>) -> Result<Seq<u32>, Failure> {
    match r {
        Ok(v) => Ok(v@),
        Err(e) => Err(e@),
    }
}

pub open spec fn list_result(r: Result<Vec<ReferenceTermArgument>, StepError>) -> Result<
    Seq<ReferenceTermArgument>,
    Failure,
> {
    match r {
        Ok(v) => Ok(v@),
        Err(e) => Err(e@),
    }
}

/// Builds a graph.
pub struct GraphBuilder<'a> {
    pub program: &'a ProgramGeneration,
    pub function: SymbolKey,
    pub types: &'a Vec<(Span, BytecodeType)>,
    pub nodes: Vec<ReferenceTermNode>,
}

impl<'a> View for GraphBuilder<'a> {
    type V = Seq<Node>;

    open spec fn view(&self) -> Seq<Node> {
        terms::node_views(self.nodes@)
    }
}

impl<'a> GraphBuilder<'a> {
    pub open spec fn schema(&self) -> Schema {
        Schema { program: *self.program, function: self.function, types: self.types@ }
    }

    pub fn new(
        program: &'a ProgramGeneration,
        function: SymbolKey,
        types: &'a Vec<(Span, BytecodeType)>,
    ) -> (r: GraphBuilder<'a>)
        ensures
            r.schema() == (Schema { program: *program, function, types: types@ }),
            r@ == Seq::<Node>::empty(),
    {
        let r = GraphBuilder { program, function, types, nodes: Vec::new() };
        assert(r@ =~= Seq::<Node>::empty());
        r
    }

    /// Builds the graph of some arguments.
    #[verifier::loop_isolation(false)]
    pub fn build(&mut self, arguments: &Vec<Option<Rc<Expr>>>) -> (r: Result<
        ReferenceTermGraph,
        StepError,
    >)
        requires
            old(self)@ == Seq::<Node>::empty(),
        ensures
            fault::outcome(r) == graph_of(
                old(self).schema(),
                ast::argument_trees(arguments@),
            ),
    {
        let ghost c = self.schema();
        let ghost all = ast::argument_trees(arguments@);
        proof {
            ast::lemma_argument_trees(arguments@);
            assert(all.take(0) =~= Seq::<Option<Tree>>::empty());
        }
        let mut roots: Vec<Option<u32>> = Vec::new();
        let mut i: usize = 0;
        while i < arguments.len()
            invariant
                i <= arguments.len(),
                self.schema() == c,
                all.len() == arguments@.len(),
                forall|j: int|
                    0 <= j < arguments@.len() ==> #[trigger] all[j] == ast::argument_tree(
                        arguments@[j],
                    ),
                graph_roots(c, all.take(i as int)) == Ok::<Graph, Failure>(
                    Graph { nodes: self@, roots: roots@ },
                ),
            decreases arguments.len() - i,
        {
            proof {
                assert(all.take(i + 1).drop_last() =~= all.take(i as int));
                assert(all.take(i + 1).last() == all[i as int]);
                if graph_roots(c, all.take(i + 1)) is Err {
                    lemma_roots_stop(c, all, i + 1);
                }
            }
            match &arguments[i] {
                None => {
                    roots.push(None);
                },
                Some(e) => match self.expression(e, 0) {
                    Err(e) => {
                        return Err(e);
                    },
                    Ok(id) => {
                        roots.push(Some(id));
                    },
                },
            }
            i = i + 1;
        }
        assert(all.take(i as int) =~= all);
        let mut nodes: Vec<ReferenceTermNode> = Vec::new();
        std::mem::swap(&mut nodes, &mut self.nodes);
        let graph = ReferenceTermGraph { nodes, roots };
        if graph.validate_structure() {
            Ok(graph)
        } else {
            Err(invalid("reference argument graph has an invalid structure"))
        }
    }

    fn push(&mut self, kind: ReferenceTermKind, value_type: BytecodeType, span: Span) -> (r: Result<
        u32,
        StepError,
    >)
        ensures
            final(self).schema() == old(self).schema(),
            (final(self)@, id_result(r)) == with_node(
                old(self)@,
                Node { term: kind@, value_type, span },
            ),
    {
        if self.nodes.len() >= MAX_REFERENCE_TERM_NODES {
            return Err(
                form_resources::resource_limit("reference argument graph exceeds node limit"),
            );
        }
        let id: u32 = self.nodes.len() as u32;
        let node = ReferenceTermNode { kind, value_type, span };
        let ghost before = self.nodes@;
        self.nodes.push(node);
        assert(terms::node_views(self.nodes@) =~= terms::node_views(before).push(node@));
        Ok(id)
    }

    fn expression(&mut self, e: &Rc<Expr>, depth: usize) -> (r: Result<u32, StepError>)
        ensures
            final(self).schema() == old(self).schema(),
            (final(self)@, id_result(r)) == graph_expr(
                old(self).schema(),
                old(self)@,
                e@,
                depth as nat,
            ),
        decreases e, 2int,
    {
        if depth > MAX_RUNTIME_FORM_NESTING {
            return Err(
                form_resources::resource_limit("reference argument graph exceeds nesting limit"),
            );
        }
        let value_type = match find_type(self.types, e.span) {
            None => {
                return Err(invalid("reference term lacks its analyzed scalar type"));
            },
            Some(t) => t,
        };
        match &e.kind {
            ExprKind::Group(inner) => self.expression(inner, depth + 1),
            ExprKind::Formatted(f) => self.form(f, depth + 1),
            _ => match self.kind(e, depth) {
                Err(e) => Err(e),
                Ok(kind) => self.push(kind, value_type, e.span),
            },
        }
    }

    fn kind(&mut self, e: &Rc<Expr>, depth: usize) -> (r: Result<ReferenceTermKind, StepError>)
        requires
            depth <= MAX_RUNTIME_FORM_NESTING,
        ensures
            final(self).schema() == old(self).schema(),
            (final(self)@, fault::outcome(r)) == graph_kind(
                old(self).schema(),
                old(self)@,
                e@,
                depth as nat,
            ),
        decreases e, 1int,
    {
        match &e.kind {
            ExprKind::Integer(n) => Ok(ReferenceTermKind::Value(ReferenceTermValue::Integer(*n))),
            ExprKind::String(s) => Ok(
                ReferenceTermKind::Value(ReferenceTermValue::String(s.clone())),
            ),
            ExprKind::Identifier(name) => match self.program.scoped_variable(
                self.function,
                name.as_str(),
            ) {
                None => Err(invalid("analyzed reference variable disappeared")),
                Some(g) => {
                    let kind = ReferenceTermKind::Variable { key: g.key, indices: Vec::new() };
                    assert(kind@ == Term::Variable(g.key, Seq::empty()));
                    Ok(kind)
                },
            },
            ExprKind::Variable { .. } => self.variable(e, depth),
            ExprKind::Unary { .. } => self.unary(e, depth),
            ExprKind::Postfix { .. } => self.unary(e, depth),
            ExprKind::Binary { .. } => self.binary(e, depth),
            ExprKind::Ternary { .. } => self.ternary(e, depth),
            ExprKind::Call { .. } => self.call(e, depth),
            _ => Err(invalid("parser error reached reference graph construction")),
        }
    }

    fn variable(&mut self, e: &Rc<Expr>, depth: usize) -> (r: Result<ReferenceTermKind, StepError>)
        requires
            depth <= MAX_RUNTIME_FORM_NESTING,
            e.kind is Variable,
        ensures
            final(self).schema() == old(self).schema(),
            (final(self)@, fault::outcome(r)) == graph_kind(
                old(self).schema(),
                old(self)@,
                e@,
                depth as nat,
            ),
        decreases e, 0int,
    {
        match &e.kind {
            ExprKind::Variable { name, indices } => {
                let key = match self.program.scoped_variable(self.function, name.as_str()) {
                    None => {
                        return Err(invalid("analyzed reference variable disappeared"));
                    },
                    Some(g) => g.key,
                };
                match self.list(indices, depth + 1) {
                    Err(e) => Err(e),
                    Ok(indices) => Ok(ReferenceTermKind::Variable { key, indices }),
                }
            },
            _ => Err(invalid("parser error reached reference graph construction")),
        }
    }

    fn unary(&mut self, e: &Rc<Expr>, depth: usize) -> (r: Result<ReferenceTermKind, StepError>)
        requires
            depth <= MAX_RUNTIME_FORM_NESTING,
            e.kind is Unary || e.kind is Postfix,
        ensures
            final(self).schema() == old(self).schema(),
            (final(self)@, fault::outcome(r)) == graph_kind(
                old(self).schema(),
                old(self)@,
                e@,
                depth as nat,
            ),
        decreases e, 0int,
    {
        match &e.kind {
            ExprKind::Unary { op, operand } => match self.expression(operand, depth + 1) {
                Err(e) => Err(e),
                Ok(operand) => Ok(ReferenceTermKind::Unary { op: *op, operand }),
            },
            ExprKind::Postfix { op, operand } => match self.expression(operand, depth + 1) {
                Err(e) => Err(e),
                Ok(operand) => Ok(ReferenceTermKind::Postfix { op: *op, operand }),
            },
            _ => Err(invalid("parser error reached reference graph construction")),
        }
    }

    fn binary(&mut self, e: &Rc<Expr>, depth: usize) -> (r: Result<ReferenceTermKind, StepError>)
        requires
            depth <= MAX_RUNTIME_FORM_NESTING,
            e.kind is Binary,
        ensures
            final(self).schema() == old(self).schema(),
            (final(self)@, fault::outcome(r)) == graph_kind(
                old(self).schema(),
                old(self)@,
                e@,
                depth as nat,
            ),
        decreases e, 0int,
    {
        match &e.kind {
            ExprKind::Binary { op, left, right } => {
                let a: u32 = match self.expression(left, depth + 1) {
                    Err(e) => {
                        return Err(e);
                    },
                    Ok(id) => id,
                };
                match self.expression(right, depth + 1) {
                    Err(e) => Err(e),
                    Ok(b) => Ok(ReferenceTermKind::Binary { op: *op, left: a, right: b }),
                }
            },
            _ => Err(invalid("parser error reached reference graph construction")),
        }
    }

    fn ternary(&mut self, e: &Rc<Expr>, depth: usize) -> (r: Result<ReferenceTermKind, StepError>)
        requires
            depth <= MAX_RUNTIME_FORM_NESTING,
            e.kind is Ternary,
        ensures
            final(self).schema() == old(self).schema(),
            (final(self)@, fault::outcome(r)) == graph_kind(
                old(self).schema(),
                old(self)@,
                e@,
                depth as nat,
            ),
        decreases e, 0int,
    {
        match &e.kind {
            ExprKind::Ternary { condition, then_expr, else_expr } => {
                let a: u32 = match self.expression(condition, depth + 1) {
                    Err(e) => {
                        return Err(e);
                    },
                    Ok(id) => id,
                };
                let b: u32 = match self.expression(then_expr, depth + 1) {
                    Err(e) => {
                        return Err(e);
                    },
                    Ok(id) => id,
                };
                match self.expression(else_expr, depth + 1) {
                    Err(e) => Err(e),
                    Ok(c) => Ok(
                        ReferenceTermKind::Ternary { condition: a, then_value: b, else_value: c },
                    ),
                }
            },
            _ => Err(invalid("parser error reached reference graph construction")),
        }
    }

    fn call(&mut self, e: &Rc<Expr>, depth: usize) -> (r: Result<ReferenceTermKind, StepError>)
        requires
            depth <= MAX_RUNTIME_FORM_NESTING,
            e.kind is Call,
        ensures
            final(self).schema() == old(self).schema(),
            (final(self)@, fault::outcome(r)) == graph_kind(
                old(self).schema(),
                old(self)@,
                e@,
                depth as nat,
            ),
        decreases e, 0int,
    {
        match &e.kind {
            ExprKind::Call { name, args } => {
                let list = match self.arguments(name.as_str(), args, depth + 1) {
                    Err(e) => {
                        return Err(e);
                    },
                    Ok(l) => l,
                };
                self.callee(name.as_str(), args, list)
            },
            _ => Err(invalid("parser error reached reference graph construction")),
        }
    }

    fn shapes(&self, arguments: &Vec<Option<Rc<Expr>>>) -> (r: Result<
        Vec<Option<RuntimeExpressionShape>>,
        StepError,
    >)
        ensures
            form_typing::shapes_result(r) == call_shapes(
                self.schema(),
                ast::argument_trees(arguments@),
            ),
    {
        let ghost c = self.schema();
        let ghost all = ast::argument_trees(arguments@);
        proof {
            ast::lemma_argument_trees(arguments@);
            assert(all.take(0) =~= Seq::<Option<Tree>>::empty());
        }
        let mut out: Vec<Option<RuntimeExpressionShape>> = Vec::new();
        let mut i: usize = 0;
        while i < arguments.len()
            invariant
                i <= arguments.len(),
                c == self.schema(),
                all == ast::argument_trees(arguments@),
                all.len() == arguments@.len(),
                forall|j: int|
                    0 <= j < arguments@.len() ==> #[trigger] all[j] == ast::argument_tree(
                        arguments@[j],
                    ),
                call_shapes(c, all.take(i as int)) == Ok::<Shapes, Failure>(out@),
            decreases arguments.len() - i,
        {
            proof {
                assert(all.take(i + 1).drop_last() =~= all.take(i as int));
                assert(all.take(i + 1).last() == all[i as int]);
                if call_shapes(c, all.take(i + 1)) is Err {
                    lemma_shapes_stop(c, all, i + 1);
                }
            }
            match &arguments[i] {
                None => {
                    out.push(None);
                },
                Some(e) => match find_type(self.types, e.span) {
                    None => {
                        return Err(invalid("Native term lacks analyzed type"));
                    },
                    Some(t) => {
                        out.push(
                            Some(form_typing::source_shape(self.program, self.function, e, t)),
                        );
                    },
                },
            }
            i = i + 1;
        }
        assert(all.take(i as int) =~= all);
        Ok(out)
    }

    fn mark(list: Vec<ReferenceTermArgument>, parameters: &Vec<BytecodeType>) -> (r: Vec<
        ReferenceTermArgument,
    >)
        ensures
            r@ == marked(list@, parameters@),
    {
        let ghost whole = marked(list@, parameters@);
        let mut out: Vec<ReferenceTermArgument> = Vec::new();
        let mut i: usize = 0;
        while i < list.len()
            invariant
                i <= list.len(),
                whole == marked(list@, parameters@),
                out@.len() == i,
                forall|j: int| 0 <= j < i ==> #[trigger] out@[j] == whole[j],
            decreases list.len() - i,
        {
            if i < parameters.len() {
                out.push(
                    ReferenceTermArgument {
                        node: list[i].node,
                        place: place_type(parameters[i]),
                    },
                );
            } else {
                out.push(list[i]);
            }
            i = i + 1;
        }
        assert(out@ =~= whole);
        out
    }

    fn callee(
        &self,
        name: &str,
        sources: &Vec<Option<Rc<Expr>>>,
        list: Vec<ReferenceTermArgument>,
    ) -> (r: Result<ReferenceTermKind, StepError>)
        ensures
            fault::outcome(r) == call_term(
                self.schema(),
                name@,
                ast::argument_trees(sources@),
                list@,
            ),
    {
        match self.program.function_by_name(name) {
            Some(f) => {
                return Ok(
                    ReferenceTermKind::Call {
                        target: ReferenceTermCall::User { key: f.key },
                        arguments: list,
                    },
                );
            },
            None => {},
        }
        let upper = text::to_upper(name);
        if intrinsic(name) {
            return Ok(
                ReferenceTermKind::Call {
                    target: ReferenceTermCall::Intrinsic { name: upper },
                    arguments: list,
                },
            );
        }
        let shapes = match self.shapes(sources) {
            Err(e) => {
                return Err(e);
            },
            Ok(s) => s,
        };
        if form_binding::find_host_family(self.program, name).is_some() {
            match form_binding::bind_host(self.program, name, &shapes) {
                Err(e) => Err(e),
                Ok(b) => {
                    let arguments = Self::mark(list, &b.import.parameters);
                    Ok(
                        ReferenceTermKind::Call {
                            target: ReferenceTermCall::Host { key: b.family_key, name: upper },
                            arguments,
                        },
                    )
                },
            }
        } else {
            match form_binding::bind(self.program, name, &shapes, None) {
                Err(e) => Err(e),
                Ok(b) => {
                    let arguments = Self::mark(list, &b.import.parameters);
                    Ok(
                        ReferenceTermKind::Call {
                            target: ReferenceTermCall::DynamicNative {
                                key: b.service_key,
                                name: upper,
                            },
                            arguments,
                        },
                    )
                },
            }
        }
    }

    #[verifier::loop_isolation(false)]
    fn list(&mut self, indices: &Vec<Rc<Expr>>, depth: usize) -> (r: Result<Vec<u32>, StepError>)
        ensures
            final(self).schema() == old(self).schema(),
            (final(self)@, ids_result(r)) == graph_list(
                old(self).schema(),
                old(self)@,
                ast::trees(indices@),
                depth as nat,
            ),
        decreases indices, 0int,
    {
        let ghost c = self.schema();
        let ghost start = self@;
        let ghost all = ast::trees(indices@);
        proof {
            ast::lemma_trees(indices@);
            assert(all.take(0) =~= Seq::<Tree>::empty());
        }
        let mut out: Vec<u32> = Vec::new();
        let mut i: usize = 0;
        while i < indices.len()
            invariant
                i <= indices.len(),
                self.schema() == c,
                all.len() == indices@.len(),
                forall|j: int|
                    0 <= j < indices@.len() ==> #[trigger] all[j] == ast::tree(*indices@[j]),
                graph_list(c, start, all.take(i as int), depth as nat) == (self@, Ok::<
                    Seq<u32>,
                    Failure,
                >(out@)),
            decreases indices.len() - i,
        {
            assert(decreases_to!(*indices => indices@[i as int]));
            proof {
                assert(all.take(i + 1).drop_last() =~= all.take(i as int));
                assert(all.take(i + 1)[i as int] == all[i as int]);
                if graph_list(c, start, all.take(i + 1), depth as nat).1 is Err {
                    lemma_list_stop(c, start, all, depth as nat, i + 1);
                }
            }
            match self.expression(&indices[i], depth) {
                Err(e) => {
                    return Err(e);
                },
                Ok(id) => {
                    out.push(id);
                },
            }
            i = i + 1;
        }
        assert(all.take(i as int) =~= all);
        Ok(out)
    }

    #[verifier::loop_isolation(false)]
    fn arguments(&mut self, name: &str, arguments: &Vec<Option<Rc<Expr>>>, depth: usize) -> (r: Result<
        Vec<ReferenceTermArgument>,
        StepError,
    >)
        ensures
            final(self).schema() == old(self).schema(),
            (final(self)@, list_result(r)) == graph_arguments(
                old(self).schema(),
                old(self)@,
                name@,
                ast::argument_trees(arguments@),
                depth as nat,
            ),
        decreases arguments, 0int,
    {
        let ghost c = self.schema();
        let ghost start = self@;
        let ghost all = ast::argument_trees(arguments@);
        proof {
            ast::lemma_argument_trees(arguments@);
            assert(all.take(0) =~= Seq::<Option<Tree>>::empty());
        }
        let user = self.program.function_by_name(name);
        let mut out: Vec<ReferenceTermArgument> = Vec::new();
        let mut i: usize = 0;
        while i < arguments.len()
            invariant
                i <= arguments.len(),
                self.schema() == c,
                user == c.program.spec_function_by_name(name@),
                all.len() == arguments@.len(),
                forall|j: int|
                    0 <= j < arguments@.len() ==> #[trigger] all[j] == ast::argument_tree(
                        arguments@[j],
                    ),
                graph_arguments(c, start, name@, all.take(i as int), depth as nat) == (self@, Ok::<
                    Seq<ReferenceTermArgument>,
                    Failure,
                >(out@)),
            decreases arguments.len() - i,
        {
            assert(decreases_to!(*arguments => arguments@[i as int]));
            proof {
                assert(all.take(i + 1).drop_last() =~= all.take(i as int));
                assert(all.take(i + 1)[i as int] == all[i as int]);
                if graph_arguments(c, start, name@, all.take(i + 1), depth as nat).1 is Err {
                    lemma_arguments_stop(c, start, name@, all, depth as nat, i + 1);
                }
            }
            let (kept, place) = match user {
                Some(f) => if i < f.parameters.len() {
                    (true, f.parameters[i].by_reference)
                } else {
                    (false, false)
                },
                None => (true, false),
            };
            let node: Option<u32> = match &arguments[i] {
                None => None,
                Some(e) => if !kept {
                    None
                } else {
                    assert(decreases_to!(*arguments => arguments@[i as int]->0));
                    match self.expression(e, depth) {
                        Err(e) => {
                            return Err(e);
                        },
                        Ok(id) => Some(id),
                    }
                },
            };
            out.push(ReferenceTermArgument { node, place });
            i = i + 1;
        }
        assert(all.take(i as int) =~= all);
        Ok(out)
    }

    #[verifier::loop_isolation(false)]
    fn form(&mut self, f: &Rc<FormattedString>, depth: usize) -> (r: Result<u32, StepError>)
        ensures
            final(self).schema() == old(self).schema(),
            (final(self)@, id_result(r)) == graph_form(
                old(self).schema(),
                old(self)@,
                f@,
                depth as nat,
            ),
        decreases f, 0int,
    {
        if depth > MAX_RUNTIME_FORM_NESTING {
            return Err(
                form_resources::resource_limit("reference form graph exceeds nesting limit"),
            );
        }
        let ghost c = self.schema();
        let ghost start = self@;
        let ghost all = ast::part_trees(f.parts@);
        proof {
            ast::lemma_part_trees(f.parts@);
            assert(all.take(0) =~= Seq::<PartTree>::empty());
        }
        let mut out: Vec<ReferenceTermPart> = Vec::new();
        assert(terms::fragments(out@) =~= Seq::<Fragment>::empty());
        let mut i: usize = 0;
        while i < f.parts.len()
            invariant
                i <= f.parts.len(),
                self.schema() == c,
                all.len() == f.parts@.len(),
                forall|j: int|
                    0 <= j < f.parts@.len() ==> #[trigger] all[j] == ast::part_tree(*f.parts@[j]),
                graph_parts(c, start, all.take(i as int), depth as nat) == (self@, Ok::<
                    Seq<Fragment>,
                    Failure,
                >(terms::fragments(out@))),
            decreases f.parts.len() - i,
        {
            assert(decreases_to!(*f => f.parts@[i as int]));
            proof {
                assert(all.take(i + 1).drop_last() =~= all.take(i as int));
                assert(all.take(i + 1)[i as int] == all[i as int]);
                if graph_parts(c, start, all.take(i + 1), depth as nat).1 is Err {
                    lemma_parts_stop(c, start, all, depth as nat, i + 1);
                }
            }
            match self.part(&f.parts[i], depth) {
                Err(e) => {
                    return Err(e);
                },
                Ok(p) => {
                    let ghost before = out@;
                    out.push(p);
                    assert(terms::fragments(out@) =~= terms::fragments(before).push(p@));
                },
            }
            i = i + 1;
        }
        assert(all.take(i as int) =~= all);
        let kind = ReferenceTermKind::Form { parts: out };
        self.push(kind, BytecodeType::String, f.span)
    }

    fn part(&mut self, p: &Rc<FormPart>, depth: usize) -> (r: Result<ReferenceTermPart, StepError>)
        requires
            depth <= MAX_RUNTIME_FORM_NESTING,
        ensures
            final(self).schema() == old(self).schema(),
            (final(self)@, fault::outcome(r)) == graph_part(
                old(self).schema(),
                old(self)@,
                p@,
                depth as nat,
            ),
        decreases p, 1int,
    {
        match &**p {
            FormPart::Text(s) => Ok(ReferenceTermPart::Text(s.clone())),
            FormPart::Triple(x) => Ok(ReferenceTermPart::Triple(*x)),
            FormPart::Interpolation { .. } => self.interpolation(p, depth),
            FormPart::Conditional { .. } => self.conditional(p, depth),
        }
    }

    fn interpolation(&mut self, p: &Rc<FormPart>, depth: usize) -> (r: Result<
        ReferenceTermPart,
        StepError,
    >)
        requires
            depth <= MAX_RUNTIME_FORM_NESTING,
            **p is Interpolation,
        ensures
            final(self).schema() == old(self).schema(),
            (final(self)@, fault::outcome(r)) == graph_part(
                old(self).schema(),
                old(self)@,
                p@,
                depth as nat,
            ),
        decreases p, 0int,
    {
        match &**p {
            FormPart::Interpolation { string, expression, width, alignment } => {
                assert(p@ == PartTree::Interpolation(
                    *string,
                    Box::new(expression@),
                    match width {
                        Some(w) => Some(Box::new(w@)),
                        None => None,
                    },
                    *alignment,
                ));
                let a: u32 = match self.expression(expression, depth + 1) {
                    Err(e) => {
                        return Err(e);
                    },
                    Ok(id) => id,
                };
                match width {
                    None => Ok(
                        ReferenceTermPart::Interpolation {
                            expression: a,
                            width: None,
                            integer: !*string,
                            alignment: *alignment,
                        },
                    ),
                    Some(w) => match self.expression(w, depth + 1) {
                        Err(e) => Err(e),
                        Ok(b) => Ok(
                            ReferenceTermPart::Interpolation {
                                expression: a,
                                width: Some(b),
                                integer: !*string,
                                alignment: *alignment,
                            },
                        ),
                    },
                }
            },
            _ => Err(invalid("parser error reached reference graph construction")),
        }
    }

    fn conditional(&mut self, p: &Rc<FormPart>, depth: usize) -> (r: Result<
        ReferenceTermPart,
        StepError,
    >)
        requires
            depth <= MAX_RUNTIME_FORM_NESTING,
            **p is Conditional,
        ensures
            final(self).schema() == old(self).schema(),
            (final(self)@, fault::outcome(r)) == graph_part(
                old(self).schema(),
                old(self)@,
                p@,
                depth as nat,
            ),
        decreases p, 0int,
    {
        match &**p {
            FormPart::Conditional { condition, then_value, else_value } => {
                assert(p@ == PartTree::Conditional(
                    Box::new(condition@),
                    then_value@,
                    crate::forms::optional_form(*else_value),
                ));
                let a: u32 = match self.expression(condition, depth + 1) {
                    Err(e) => {
                        return Err(e);
                    },
                    Ok(id) => id,
                };
                let b: u32 = match self.form(then_value, depth + 1) {
                    Err(e) => {
                        return Err(e);
                    },
                    Ok(id) => id,
                };
                match else_value {
                    None => Ok(
                        ReferenceTermPart::Conditional {
                            condition: a,
                            then_value: b,
                            else_value: None,
                        },
                    ),
                    Some(f) => match self.form(f, depth + 1) {
                        Err(e) => Err(e),
                        Ok(d) => Ok(
                            ReferenceTermPart::Conditional {
                                condition: a,
                                then_value: b,
                                else_value: Some(d),
                            },
                        ),
                    },
                }
            },
            _ => Err(invalid("parser error reached reference graph construction")),
        }
    }
}

/// All of some nodes come before a position.
pub open spec fn below(ids: Seq<u32>, n: nat) -> bool {
    forall|k: int| 0 <= k < ids.len() ==> #[trigger] ids[k] < n
}

/// Every node comes behind its children.
pub open spec fn ordered(nodes: Seq<Node>) -> bool {
    &&& nodes.len() <= MAX_REFERENCE_TERM_NODES
    &&& forall|i: int|
        0 <= i < nodes.len() ==> below(terms::children((#[trigger] nodes[i]).term), i as nat)
}

proof fn lemma_node_ordered(nodes: Seq<Node>, node: Node)
    requires
        ordered(nodes),
        below(terms::children(node.term), nodes.len()),
    ensures
        ordered(with_node(nodes, node).0),
        with_node(nodes, node).0.len() >= nodes.len(),
        with_node(nodes, node).1 matches Ok(id) ==> id < with_node(nodes, node).0.len(),
{
    if nodes.len() < MAX_REFERENCE_TERM_NODES {
        let after = nodes.push(node);
        assert forall|i: int| 0 <= i < after.len() implies below(
            terms::children((#[trigger] after[i]).term),
            i as nat,
        ) by {
            if i < nodes.len() {
                assert(after[i] == nodes[i]);
            }
        }
    }
}

proof fn lemma_marked_nodes(list: Seq<ReferenceTermArgument>, parameters: Seq<BytecodeType>)
    ensures
        terms::argument_nodes(marked(list, parameters)) == terms::argument_nodes(list),
    decreases list.len(),
{
    if list.len() > 0 {
        lemma_marked_nodes(list.drop_last(), parameters);
        assert(marked(list, parameters).drop_last() =~= marked(list.drop_last(), parameters));
    }
}

proof fn lemma_expr_ordered(c: Schema, nodes: Seq<Node>, t: Tree, depth: nat)
    requires
        ordered(nodes),
    ensures
        ordered(graph_expr(c, nodes, t, depth).0),
        graph_expr(c, nodes, t, depth).0.len() >= nodes.len(),
        graph_expr(c, nodes, t, depth).1 matches Ok(id) ==> id < graph_expr(
            c,
            nodes,
            t,
            depth,
        ).0.len(),
    decreases t, 1int,
{
    if depth <= MAX_RUNTIME_FORM_NESTING {
        if let Some(ty) = type_at(c.types, t.span) {
            match t.kind {
                TreeKind::Group(inner) => {
                    lemma_expr_ordered(c, nodes, *inner, depth + 1);
                },
                TreeKind::Formatted(f) => {
                    lemma_form_ordered(c, nodes, f, depth + 1);
                },
                _ => {
                    lemma_kind_ordered(c, nodes, t, depth);
                    let (n, r) = graph_kind(c, nodes, t, depth);
                    if let Ok(term) = r {
                        lemma_node_ordered(n, Node { term, value_type: ty, span: t.span });
                    }
                },
            }
        }
    }
}

proof fn lemma_kind_ordered(c: Schema, nodes: Seq<Node>, t: Tree, depth: nat)
    requires
        ordered(nodes),
    ensures
        ordered(graph_kind(c, nodes, t, depth).0),
        graph_kind(c, nodes, t, depth).0.len() >= nodes.len(),
        graph_kind(c, nodes, t, depth).1 matches Ok(term) ==> below(
            terms::children(term),
            graph_kind(c, nodes, t, depth).0.len(),
        ),
    decreases t, 0int,
{
    match t.kind {
        TreeKind::Variable(name, indices) => {
            lemma_list_ordered(c, nodes, indices, depth + 1);
        },
        TreeKind::Unary(_, x) => {
            lemma_expr_ordered(c, nodes, *x, depth + 1);
        },
        TreeKind::Postfix(_, x) => {
            lemma_expr_ordered(c, nodes, *x, depth + 1);
        },
        TreeKind::Binary(_, x, y) => {
            lemma_expr_ordered(c, nodes, *x, depth + 1);
            let n = graph_expr(c, nodes, *x, depth + 1).0;
            lemma_expr_ordered(c, n, *y, depth + 1);
        },
        TreeKind::Ternary(x, y, z) => {
            lemma_expr_ordered(c, nodes, *x, depth + 1);
            let n = graph_expr(c, nodes, *x, depth + 1).0;
            lemma_expr_ordered(c, n, *y, depth + 1);
            let m = graph_expr(c, n, *y, depth + 1).0;
            lemma_expr_ordered(c, m, *z, depth + 1);
        },
        TreeKind::Call(name, arguments) => {
            lemma_arguments_ordered(c, nodes, name, arguments, depth + 1);
            let (n, r) = graph_arguments(c, nodes, name, arguments, depth + 1);
            if let Ok(list) = r {
                assert forall|parameters: Seq<BytecodeType>|
                    terms::argument_nodes(#[trigger] marked(list, parameters))
                        == terms::argument_nodes(list) by {
                    lemma_marked_nodes(list, parameters);
                }
            }
        },
        _ => {},
    }
}

proof fn lemma_list_ordered(c: Schema, nodes: Seq<Node>, indices: Seq<Tree>, depth: nat)
    requires
        ordered(nodes),
    ensures
        ordered(graph_list(c, nodes, indices, depth).0),
        graph_list(c, nodes, indices, depth).0.len() >= nodes.len(),
        graph_list(c, nodes, indices, depth).1 matches Ok(ids) ==> below(
            ids,
            graph_list(c, nodes, indices, depth).0.len(),
        ),
    decreases indices, 0int,
{
    if indices.len() > 0 {
        lemma_list_ordered(c, nodes, indices.drop_last(), depth);
        let n = graph_list(c, nodes, indices.drop_last(), depth).0;
        lemma_expr_ordered(c, n, indices[indices.len() - 1], depth);
    }
}

proof fn lemma_arguments_ordered(
    c: Schema,
    nodes: Seq<Node>,
    name: Seq<char>,
    arguments: Seq<Option<Tree>>,
    depth: nat,
)
    requires
        ordered(nodes),
    ensures
        ordered(graph_arguments(c, nodes, name, arguments, depth).0),
        graph_arguments(c, nodes, name, arguments, depth).0.len() >= nodes.len(),
        graph_arguments(c, nodes, name, arguments, depth).1 matches Ok(list) ==> below(
            terms::argument_nodes(list),
            graph_arguments(c, nodes, name, arguments, depth).0.len(),
        ),
    decreases arguments, 0int,
{
    if arguments.len() > 0 {
        let slot = arguments.len() - 1;
        lemma_arguments_ordered(c, nodes, name, arguments.drop_last(), depth);
        let (n, r) = graph_arguments(c, nodes, name, arguments.drop_last(), depth);
        if let Some(t) = arguments[slot] {
            lemma_expr_ordered(c, n, t, depth);
        }
        if let Ok(list) = r {
            assert forall|a: ReferenceTermArgument|
                #[trigger] terms::argument_nodes(list.push(a)) == terms::argument_nodes(list)
                    + terms::present(a.node) by {
                assert(list.push(a).drop_last() =~= list);
            }
        }
    }
}

proof fn lemma_form_ordered(c: Schema, nodes: Seq<Node>, f: FormTree, depth: nat)
    requires
        ordered(nodes),
    ensures
        ordered(graph_form(c, nodes, f, depth).0),
        graph_form(c, nodes, f, depth).0.len() >= nodes.len(),
        graph_form(c, nodes, f, depth).1 matches Ok(id) ==> id < graph_form(
            c,
            nodes,
            f,
            depth,
        ).0.len(),
    decreases f, 0int,
{
    if depth <= MAX_RUNTIME_FORM_NESTING {
        lemma_parts_ordered(c, nodes, f.parts, depth);
        let (n, r) = graph_parts(c, nodes, f.parts, depth);
        if let Ok(parts) = r {
            lemma_node_ordered(
                n,
                Node { term: Term::Form(parts), value_type: BytecodeType::String, span: f.span },
            );
        }
    }
}

proof fn lemma_parts_ordered(c: Schema, nodes: Seq<Node>, parts: Seq<PartTree>, depth: nat)
    requires
        ordered(nodes),
    ensures
        ordered(graph_parts(c, nodes, parts, depth).0),
        graph_parts(c, nodes, parts, depth).0.len() >= nodes.len(),
        graph_parts(c, nodes, parts, depth).1 matches Ok(list) ==> below(
            terms::part_nodes(list),
            graph_parts(c, nodes, parts, depth).0.len(),
        ),
    decreases parts, 0int,
{
    if parts.len() > 0 {
        lemma_parts_ordered(c, nodes, parts.drop_last(), depth);
        let (n, r) = graph_parts(c, nodes, parts.drop_last(), depth);
        lemma_part_ordered(c, n, parts[parts.len() - 1], depth);
        if let Ok(list) = r {
            if let Ok(f) = graph_part(c, n, parts[parts.len() - 1], depth).1 {
                assert(list.push(f).drop_last() =~= list);
            }
        }
    }
}

proof fn lemma_part_ordered(c: Schema, nodes: Seq<Node>, p: PartTree, depth: nat)
    requires
        ordered(nodes),
    ensures
        ordered(graph_part(c, nodes, p, depth).0),
        graph_part(c, nodes, p, depth).0.len() >= nodes.len(),
        graph_part(c, nodes, p, depth).1 matches Ok(f) ==> below(
            terms::fragment_nodes(f),
            graph_part(c, nodes, p, depth).0.len(),
        ),
    decreases p, 0int,
{
    match p {
        PartTree::Interpolation(_, e, width, _) => {
            lemma_expr_ordered(c, nodes, *e, depth + 1);
            let n = graph_expr(c, nodes, *e, depth + 1).0;
            if let Some(w) = width {
                lemma_expr_ordered(c, n, *w, depth + 1);
            }
        },
        PartTree::Conditional(condition, then_value, else_value) => {
            lemma_expr_ordered(c, nodes, *condition, depth + 1);
            let n = graph_expr(c, nodes, *condition, depth + 1).0;
            lemma_form_ordered(c, n, then_value, depth + 1);
            let m = graph_form(c, n, then_value, depth + 1).0;
            if let Some(f) = else_value {
                lemma_form_ordered(c, m, f, depth + 1);
            }
        },
        _ => {},
    }
}

/// The graph of some arguments never fails its structural check: children come before the nodes
/// that use them, and roots are nodes.
pub proof fn law_built_graph_is_well_founded(c: Schema, arguments: Seq<Option<Tree>>)
    requires
        graph_roots(c, arguments) is Ok,
    ensures
        terms::well_founded(graph_roots(c, arguments)->Ok_0),
        graph_of(c, arguments) == graph_roots(c, arguments),
{
    lemma_roots_ordered(c, arguments);
}

proof fn lemma_roots_ordered(c: Schema, arguments: Seq<Option<Tree>>)
    requires
        graph_roots(c, arguments) is Ok,
    ensures
        ordered(graph_roots(c, arguments)->Ok_0.nodes),
        terms::well_founded(graph_roots(c, arguments)->Ok_0),
    decreases arguments.len(),
{
    if arguments.len() > 0 {
        lemma_roots_ordered(c, arguments.drop_last());
        let before = graph_roots(c, arguments.drop_last())->Ok_0;
        if let Some(t) = arguments.last() {
            lemma_expr_ordered(c, before.nodes, t, 0);
        }
        let g = graph_roots(c, arguments)->Ok_0;
        assert forall|i: int, k: int|
            0 <= i < g.nodes.len() && 0 <= k < terms::children(
                g.nodes[i].term,
            ).len() implies #[trigger] terms::children(g.nodes[i].term)[k] < i by {
            assert(below(terms::children(g.nodes[i].term), i as nat));
        }
        assert forall|i: int| 0 <= i < g.roots.len() implies (#[trigger] g.roots[i] matches Some(r)
            ==> r < g.nodes.len()) by {
            if i < before.roots.len() {
                assert(g.roots[i] == before.roots[i]);
            }
        }
    }
}

} // verus!
