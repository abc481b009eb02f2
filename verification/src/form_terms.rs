//! Argument terms during reduction: turning them back into expressions and folding literals.

use vstd::prelude::*;
use std::rc::Rc;
use crate::ast::{
    self, Expr, ExprKind, FormPart, FormTree, FormattedString, PartTree, Span, Tree, TreeKind,
};
use crate::existvar::invalid;
use crate::fault::{self, Failure, StepError};
use crate::forms::{self, Edge, Prepared, PreparedReferenceArguments, TermRef};
use crate::program::ProgramGeneration;
use crate::terms::{
    self, Callee, Fragment, Graph, Literal, Node, ReferenceTermArgument, ReferenceTermCall,
    ReferenceTermGraph, ReferenceTermKind, ReferenceTermPart, ReferenceTermValue, Term,
};

verus! {

/// The span of a term that stands nowhere in a source.
pub open spec fn no_span() -> Span {
    Span { start: 0, end: 0 }
}

pub open spec fn literal_kind(l: Literal) -> TreeKind {
    match l {
        Literal::Integer(n) => TreeKind::Integer(n),
        Literal::Text(s) => TreeKind::Text(s),
    }
}

fn literal(value: &ReferenceTermValue) -> (r: ExprKind)
    ensures
        match r {
            ExprKind::Integer(n) => value@ == Literal::Integer(n),
            ExprKind::String(s) => value@ == Literal::Text(s@),
            _ => false,
        },
{
    match value {
        ReferenceTermValue::Integer(n) => ExprKind::Integer(*n),
        ReferenceTermValue::String(s) => ExprKind::String(s.clone()),
    }
}

fn literal_expr(value: &ReferenceTermValue, span: Span) -> (r: Rc<Expr>)
    ensures
        r@ == (Tree { kind: literal_kind(value@), span }),
{
    Rc::new(Expr { kind: literal(value), span })
}

/// The expression of a literal that replaced a term.
pub fn single_expr(value: &ReferenceTermValue) -> (r: Rc<Expr>)
    ensures
        r@ == (Tree { kind: literal_kind(value@), span: no_span() }),
{
    literal_expr(value, Span { start: 0, end: 0 })
}

/// The literal that a term is, if it is one.
pub open spec fn single_of(g: Prepared, e: Edge) -> Option<Literal> {
    match e {
        Edge::Single(l) => Some(l),
        Edge::Original(id) => if id < g.template.nodes.len() {
            match g.template.nodes[id as int].term {
                Term::Value(l) => Some(l),
                _ => None,
            }
        } else {
            None
        },
    }
}

/// The graph before any reduction.
pub open spec fn fresh(template: Graph) -> Prepared {
    Prepared {
        template,
        edges: template.nodes.map_values(
            |n: Node| terms::children(n.term).map_values(|c: u32| Edge::Original(c)),
        ),
        roots: template.roots.map_values(
            |r: Option<u32>|
                match r {
                    Some(r) => Some(Edge::Original(r)),
                    None => None,
                },
        ),
    }
}

pub open spec fn callee_name(program: ProgramGeneration, target: Callee) -> Result<
    Seq<char>,
    Failure,
> {
    match target {
        Callee::User(key) => match program.spec_function(key) {
            Some(f) => Ok(f.name@),
            None => Err(Failure::invalid("reference argument method disappeared"@)),
        },
        Callee::Native(_, n) => Ok(n),
        Callee::DynamicNative(_, n) => Ok(n),
        Callee::Host(_, n) => Ok(n),
        Callee::Intrinsic(n) => Ok(n),
    }
}

fn name_of(program: &ProgramGeneration, target: &ReferenceTermCall) -> (r: Result<
    String,
    StepError,
>)
    ensures
        fault::outcome(r) == callee_name(*program, target@),
{
    match target {
        ReferenceTermCall::User { key } => match program.function(*key) {
            Some(f) => Ok(f.name.clone()),
            None => Err(invalid("reference argument method disappeared")),
        },
        ReferenceTermCall::Native { name, .. } => Ok(name.clone()),
        ReferenceTermCall::DynamicNative { name, .. } => Ok(name.clone()),
        ReferenceTermCall::Host { name, .. } => Ok(name.clone()),
        ReferenceTermCall::Intrinsic { name } => Ok(name.clone()),
    }
}

pub open spec fn child_missing() -> Failure {
    Failure::invalid("reference argument child is missing"@)
}

/// The expression that a term stands for; only nodes below a bound count.
pub open spec fn term_tree(program: ProgramGeneration, g: Prepared, e: Edge, bound: nat) -> Result<
    Tree,
    Failure,
>
    decreases bound, 1int,
{
    match e {
        Edge::Single(l) => Ok(Tree { kind: literal_kind(l), span: no_span() }),
        Edge::Original(id) => if id >= bound || id >= g.template.nodes.len() {
            Err(Failure::invalid("reference argument node is missing"@))
        } else if id >= g.edges.len() {
            Err(Failure::invalid("reference argument edges are missing"@))
        } else {
            let node = g.template.nodes[id as int];
            let edges = g.edges[id as int];
            let span = node.span;
            match node.term {
                Term::Value(l) => Ok(Tree { kind: literal_kind(l), span }),
                Term::Variable(key, _) => match program.spec_global(key) {
                    None => Err(Failure::invalid("reference argument variable disappeared"@)),
                    Some(d) => match edge_trees(program, g, edges, id as nat) {
                        Err(x) => Err(x),
                        Ok(ts) => Ok(Tree { kind: TreeKind::Variable(d.name@, ts), span }),
                    },
                },
                Term::Unary(op, _) => match nth_tree(program, g, edges, 0, id as nat) {
                    Err(x) => Err(x),
                    Ok(a) => Ok(Tree { kind: TreeKind::Unary(op, Box::new(a)), span }),
                },
                Term::Postfix(op, _) => match nth_tree(program, g, edges, 0, id as nat) {
                    Err(x) => Err(x),
                    Ok(a) => Ok(Tree { kind: TreeKind::Postfix(op, Box::new(a)), span }),
                },
                Term::Binary(op, _, _) => match nth_tree(program, g, edges, 0, id as nat) {
                    Err(x) => Err(x),
                    Ok(a) => match nth_tree(program, g, edges, 1, id as nat) {
                        Err(x) => Err(x),
                        Ok(b) => Ok(
                            Tree { kind: TreeKind::Binary(op, Box::new(a), Box::new(b)), span },
                        ),
                    },
                },
                Term::Ternary(_, _, _) => match nth_tree(program, g, edges, 0, id as nat) {
                    Err(x) => Err(x),
                    Ok(a) => match nth_tree(program, g, edges, 1, id as nat) {
                        Err(x) => Err(x),
                        Ok(b) => match nth_tree(program, g, edges, 2, id as nat) {
                            Err(x) => Err(x),
                            Ok(c) => Ok(
                                Tree {
                                    kind: TreeKind::Ternary(
                                        Box::new(a),
                                        Box::new(b),
                                        Box::new(c),
                                    ),
                                    span,
                                },
                            ),
                        },
                    },
                },
                Term::Call(target, arguments) => match callee_name(program, target) {
                    Err(x) => Err(x),
                    Ok(name) => match call_trees(program, g, arguments, edges, id as nat) {
                        Err(x) => Err(x),
                        Ok(ts) => Ok(Tree { kind: TreeKind::Call(name, ts), span }),
                    },
                },
                Term::Form(_) => match term_form(program, g, e, bound) {
                    Err(x) => Err(x),
                    Ok(f) => Ok(Tree { kind: TreeKind::Formatted(f), span }),
                },
            }
        },
    }
}

pub open spec fn nth_tree(
    program: ProgramGeneration,
    g: Prepared,
    edges: Seq<Edge>,
    k: int,
    bound: nat,
) -> Result<Tree, Failure>
    decreases bound, 2int,
{
    if 0 <= k < edges.len() {
        term_tree(program, g, edges[k], bound)
    } else {
        Err(child_missing())
    }
}

pub open spec fn edge_trees(program: ProgramGeneration, g: Prepared, edges: Seq<Edge>, bound: nat) -> Result<
    Seq<Tree>,
    Failure,
>
    decreases bound, edges.len() + 3,
{
    if edges.len() == 0 {
        Ok(Seq::empty())
    } else {
        match edge_trees(program, g, edges.drop_last(), bound) {
            Err(x) => Err(x),
            Ok(ts) => match term_tree(program, g, edges.last(), bound) {
                Err(x) => Err(x),
                Ok(t) => Ok(ts.push(t)),
            },
        }
    }
}

pub open spec fn call_trees(
    program: ProgramGeneration,
    g: Prepared,
    arguments: Seq<ReferenceTermArgument>,
    edges: Seq<Edge>,
    bound: nat,
) -> Result<Seq<Option<Tree>>, Failure>
    decreases bound, arguments.len() + 3,
{
    if arguments.len() == 0 {
        Ok(Seq::empty())
    } else {
        match call_trees(program, g, arguments.drop_last(), edges, bound) {
            Err(x) => Err(x),
            Ok(ts) => match arguments.last().node {
                None => Ok(ts.push(None)),
                Some(_) => match nth_tree(
                    program,
                    g,
                    edges,
                    terms::argument_nodes(arguments.drop_last()).len() as int,
                    bound,
                ) {
                    Err(x) => Err(x),
                    Ok(t) => Ok(ts.push(Some(t))),
                },
            },
        }
    }
}

pub open spec fn form_child_missing() -> Failure {
    Failure::invalid("reference argument form child is missing"@)
}

/// The formatted text that a term stands for.
pub open spec fn term_form(program: ProgramGeneration, g: Prepared, e: Edge, bound: nat) -> Result<
    FormTree,
    Failure,
>
    decreases bound, 0int,
{
    match (single_of(g, e), e) {
        (Some(Literal::Text(s)), _) => Ok(
            FormTree { parts: seq![PartTree::Text(s)], span: no_span() },
        ),
        (_, Edge::Single(_)) => Err(
            Failure::invalid("reference argument form replacement is not String"@),
        ),
        (_, Edge::Original(id)) => if id >= bound || id >= g.template.nodes.len() || id
            >= g.edges.len() {
            Err(Failure::invalid("reference argument node is missing"@))
        } else {
            match g.template.nodes[id as int].term {
                Term::Form(parts) => match form_parts(
                    program,
                    g,
                    parts,
                    g.edges[id as int],
                    id as nat,
                ) {
                    Err(x) => Err(x),
                    Ok(ps) => Ok(FormTree { parts: ps, span: g.template.nodes[id as int].span }),
                },
                _ => Err(
                    Failure::invalid("reference argument conditional branch is not a form"@),
                ),
            }
        },
    }
}

/// The edge of a formatted term.
pub open spec fn nth_edge(edges: Seq<Edge>, k: int) -> Result<Edge, Failure> {
    if 0 <= k < edges.len() {
        Ok(edges[k])
    } else {
        Err(form_child_missing())
    }
}

pub open spec fn form_expr(
    program: ProgramGeneration,
    g: Prepared,
    edges: Seq<Edge>,
    k: int,
    bound: nat,
) -> Result<Tree, Failure>
    decreases bound, 2int,
{
    match nth_edge(edges, k) {
        Err(x) => Err(x),
        Ok(e) => term_tree(program, g, e, bound),
    }
}

pub open spec fn form_branch(
    program: ProgramGeneration,
    g: Prepared,
    edges: Seq<Edge>,
    k: int,
    bound: nat,
) -> Result<FormTree, Failure>
    decreases bound, 2int,
{
    match nth_edge(edges, k) {
        Err(x) => Err(x),
        Ok(e) => term_form(program, g, e, bound),
    }
}

pub open spec fn form_part(
    program: ProgramGeneration,
    g: Prepared,
    part: Fragment,
    edges: Seq<Edge>,
    k: int,
    bound: nat,
) -> Result<PartTree, Failure>
    decreases bound, 3int,
{
    match part {
        Fragment::Text(s) => Ok(PartTree::Text(s)),
        Fragment::Triple(c) => Ok(PartTree::Triple(c)),
        Fragment::Interpolation(_, width, integer, alignment) => match form_expr(
            program,
            g,
            edges,
            k,
            bound,
        ) {
            Err(x) => Err(x),
            Ok(e) => match width {
                None => Ok(PartTree::Interpolation(!integer, Box::new(e), None, alignment)),
                Some(_) => match form_expr(program, g, edges, k + 1, bound) {
                    Err(x) => Err(x),
                    Ok(w) => Ok(
                        PartTree::Interpolation(
                            !integer,
                            Box::new(e),
                            Some(Box::new(w)),
                            alignment,
                        ),
                    ),
                },
            },
        },
        Fragment::Conditional(_, _, else_value) => match form_expr(program, g, edges, k, bound) {
            Err(x) => Err(x),
            Ok(c) => match form_branch(program, g, edges, k + 1, bound) {
                Err(x) => Err(x),
                Ok(t) => match else_value {
                    None => Ok(PartTree::Conditional(Box::new(c), t, None)),
                    Some(_) => match form_branch(program, g, edges, k + 2, bound) {
                        Err(x) => Err(x),
                        Ok(f) => Ok(PartTree::Conditional(Box::new(c), t, Some(f))),
                    },
                },
            },
        },
    }
}

pub open spec fn form_parts(
    program: ProgramGeneration,
    g: Prepared,
    parts: Seq<Fragment>,
    edges: Seq<Edge>,
    bound: nat,
) -> Result<Seq<PartTree>, Failure>
    decreases bound, parts.len() + 4,
{
    if parts.len() == 0 {
        Ok(Seq::empty())
    } else {
        match form_parts(program, g, parts.drop_last(), edges, bound) {
            Err(x) => Err(x),
            Ok(ps) => match form_part(
                program,
                g,
                parts.last(),
                edges,
                terms::part_nodes(parts.drop_last()).len() as int,
                bound,
            ) {
                Err(x) => Err(x),
                Ok(p) => Ok(ps.push(p)),
            },
        }
    }
}

proof fn lemma_edges_stop(program: ProgramGeneration, g: Prepared, edges: Seq<Edge>, bound: nat, n: int)
    requires
        0 <= n <= edges.len(),
        edge_trees(program, g, edges.take(n), bound) is Err,
    ensures
        edge_trees(program, g, edges, bound) == edge_trees(program, g, edges.take(n), bound),
    decreases edges.len() - n,
{
    if n == edges.len() {
        assert(edges.take(n) =~= edges);
    } else {
        assert(edges.take(n + 1).drop_last() =~= edges.take(n));
        lemma_edges_stop(program, g, edges, bound, n + 1);
    }
}

proof fn lemma_call_stop(
    program: ProgramGeneration,
    g: Prepared,
    arguments: Seq<ReferenceTermArgument>,
    edges: Seq<Edge>,
    bound: nat,
    n: int,
)
    requires
        0 <= n <= arguments.len(),
        call_trees(program, g, arguments.take(n), edges, bound) is Err,
    ensures
        call_trees(program, g, arguments, edges, bound) == call_trees(
            program,
            g,
            arguments.take(n),
            edges,
            bound,
        ),
    decreases arguments.len() - n,
{
    if n == arguments.len() {
        assert(arguments.take(n) =~= arguments);
    } else {
        assert(arguments.take(n + 1).drop_last() =~= arguments.take(n));
        lemma_call_stop(program, g, arguments, edges, bound, n + 1);
    }
}

proof fn lemma_form_stop(
    program: ProgramGeneration,
    g: Prepared,
    parts: Seq<Fragment>,
    edges: Seq<Edge>,
    bound: nat,
    n: int,
)
    requires
        0 <= n <= parts.len(),
        form_parts(program, g, parts.take(n), edges, bound) is Err,
    ensures
        form_parts(program, g, parts, edges, bound) == form_parts(
            program,
            g,
            parts.take(n),
            edges,
            bound,
        ),
    decreases parts.len() - n,
{
    if n == parts.len() {
        assert(parts.take(n) =~= parts);
    } else {
        assert(parts.take(n + 1).drop_last() =~= parts.take(n));
        lemma_form_stop(program, g, parts, edges, bound, n + 1);
    }
}

proof fn lemma_part_in_range(
    program: ProgramGeneration,
    g: Prepared,
    part: Fragment,
    edges: Seq<Edge>,
    k: int,
    bound: nat,
)
    requires
        0 <= k <= edges.len(),
    ensures
        form_part(program, g, part, edges, k, bound) is Ok ==> k + terms::fragment_nodes(part).len()
            <= edges.len(),
{
}

pub open spec fn list_result(r: Result<Vec<Rc<Expr>>, StepError>) -> Result<Seq<Tree>, Failure> {
    match r {
        Ok(v) => Ok(ast::trees(v@)),
        Err(e) => Err(e@),
    }
}

pub open spec fn arguments_result(r: Result<Vec<Option<Rc<Expr>>>, StepError>) -> Result<
    Seq<Option<Tree>>,
    Failure,
> {
    match r {
        Ok(v) => Ok(ast::argument_trees(v@)),
        Err(e) => Err(e@),
    }
}

pub open spec fn parts_result(r: Result<Vec<Rc<FormPart>>, StepError>) -> Result<
    Seq<PartTree>,
    Failure,
> {
    match r {
        Ok(v) => Ok(ast::part_trees(v@)),
        Err(e) => Err(e@),
    }
}

proof fn lemma_trees_push(s: Seq<Rc<Expr>>, e: Rc<Expr>)
    ensures
        ast::trees(s.push(e)) == ast::trees(s).push(e@),
{
    assert(s.push(e).drop_last() =~= s);
}

proof fn lemma_argument_trees_push(s: Seq<Option<Rc<Expr>>>, e: Option<Rc<Expr>>)
    ensures
        ast::argument_trees(s.push(e)) == ast::argument_trees(s).push(ast::argument_tree(e)),
{
    assert(s.push(e).drop_last() =~= s);
}

proof fn lemma_part_trees_push(s: Seq<Rc<FormPart>>, p: Rc<FormPart>)
    ensures
        ast::part_trees(s.push(p)) == ast::part_trees(s).push(p@),
{
    assert(s.push(p).drop_last() =~= s);
}

fn make(kind: ExprKind, span: Span) -> (r: Rc<Expr>)
    ensures
        *r == (Expr { kind, span }),
{
    Rc::new(Expr { kind, span })
}

impl PreparedReferenceArguments {
    /// The graph before any reduction.
    pub fn new(template: ReferenceTermGraph) -> (r: PreparedReferenceArguments)
        ensures
            r@ == fresh(template@),
    {
        let ghost whole = fresh(template@);
        let mut edges: Vec<Vec<TermRef>> = Vec::new();
        let mut i: usize = 0;
        while i < template.nodes.len()
            invariant
                i <= template.nodes.len(),
                whole == fresh(template@),
                edges@.len() == i,
                forall|j: int| 0 <= j < i ==> forms::edges((#[trigger] edges@[j])@) == whole.edges[j],
            decreases template.nodes.len() - i,
        {
            let children = template.nodes[i].children();
            let mut list: Vec<TermRef> = Vec::new();
            let mut k: usize = 0;
            while k < children.len()
                invariant
                    k <= children.len(),
                    list@.len() == k,
                    forall|j: int|
                        0 <= j < k ==> (#[trigger] list@[j])@ == Edge::Original(children@[j]),
                decreases children.len() - k,
            {
                list.push(TermRef::Original(children[k]));
                k = k + 1;
            }
            assert(forms::edges(list@) =~= whole.edges[i as int]);
            edges.push(list);
            i = i + 1;
        }
        let mut roots: Vec<Option<TermRef>> = Vec::new();
        let mut i: usize = 0;
        while i < template.roots.len()
            invariant
                i <= template.roots.len(),
                whole == fresh(template@),
                roots@.len() == i,
                forall|j: int|
                    0 <= j < i ==> forms::optional_edge(#[trigger] roots@[j]) == whole.roots[j],
            decreases template.roots.len() - i,
        {
            roots.push(
                match template.roots[i] {
                    Some(r) => Some(TermRef::Original(r)),
                    None => None,
                },
            );
            i = i + 1;
        }
        let r = PreparedReferenceArguments { template, edges, roots };
        assert(r@.edges =~= whole.edges);
        assert(r@.roots =~= whole.roots);
        r
    }

    /// The literal that a term is, if it is one.
    pub fn single<'a>(&'a self, term: &'a TermRef) -> (r: Option<&'a ReferenceTermValue>)
        ensures
            match r {
                Some(v) => single_of(self@, term@) == Some(v@),
                None => single_of(self@, term@) is None,
            },
    {
        match term {
            TermRef::Single(v) => Some(v),
            TermRef::Original(id) => {
                let at: usize = *id as usize;
                if at >= self.template.nodes.len() {
                    return None;
                }
                assert(self@.template.nodes[at as int] == self.template.nodes@[at as int]@);
                match &self.template.nodes[at].kind {
                    ReferenceTermKind::Value(v) => Some(v),
                    _ => None,
                }
            },
        }
    }

    /// The expression that a term stands for.
    pub fn expression(&self, program: &ProgramGeneration, term: &TermRef) -> (r: Result<
        Rc<Expr>,
        StepError,
    >)
        ensures
            fault::outcome(r) == term_tree(
                *program,
                self@,
                term@,
                self@.template.nodes.len(),
            ),
    {
        let bound: usize = self.template.nodes.len();
        self.expression_below(program, term, bound)
    }

    fn expression_below(&self, program: &ProgramGeneration, term: &TermRef, bound: usize) -> (r: Result<
        Rc<Expr>,
        StepError,
    >)
        ensures
            fault::outcome(r) == term_tree(*program, self@, term@, bound as nat),
        decreases bound, 1int,
    {
        let id: usize = match term {
            TermRef::Single(v) => {
                return Ok(literal_expr(v, Span { start: 0, end: 0 }));
            },
            TermRef::Original(id) => *id as usize,
        };
        if id >= bound || id >= self.template.nodes.len() {
            return Err(invalid("reference argument node is missing"));
        }
        if id >= self.edges.len() {
            return Err(invalid("reference argument edges are missing"));
        }
        assert(self@.template.nodes[id as int] == self.template.nodes@[id as int]@);
        assert(self@.edges[id as int] == forms::edges(self.edges@[id as int]@));
        let node = &self.template.nodes[id];
        let span = node.span;
        match &node.kind {
            ReferenceTermKind::Value(v) => Ok(literal_expr(v, span)),
            ReferenceTermKind::Variable { key, .. } => match program.global(*key) {
                None => Err(invalid("reference argument variable disappeared")),
                Some(d) => match self.list_below(program, &self.edges[id], id) {
                    Err(e) => Err(e),
                    Ok(indices) => Ok(
                        make(ExprKind::Variable { name: d.name.clone(), indices }, span),
                    ),
                },
            },
            ReferenceTermKind::Unary { op, .. } => match self.nth_below(
                program,
                &self.edges[id],
                0,
                id,
            ) {
                Err(e) => Err(e),
                Ok(operand) => Ok(make(ExprKind::Unary { op: *op, operand }, span)),
            },
            ReferenceTermKind::Postfix { op, .. } => match self.nth_below(
                program,
                &self.edges[id],
                0,
                id,
            ) {
                Err(e) => Err(e),
                Ok(operand) => Ok(make(ExprKind::Postfix { op: *op, operand }, span)),
            },
            ReferenceTermKind::Binary { op, .. } => {
                let left = match self.nth_below(program, &self.edges[id], 0, id) {
                    Err(e) => {
                        return Err(e);
                    },
                    Ok(x) => x,
                };
                match self.nth_below(program, &self.edges[id], 1, id) {
                    Err(e) => Err(e),
                    Ok(right) => Ok(make(ExprKind::Binary { op: *op, left, right }, span)),
                }
            },
            ReferenceTermKind::Ternary { .. } => {
                let condition = match self.nth_below(program, &self.edges[id], 0, id) {
                    Err(e) => {
                        return Err(e);
                    },
                    Ok(x) => x,
                };
                let then_expr = match self.nth_below(program, &self.edges[id], 1, id) {
                    Err(e) => {
                        return Err(e);
                    },
                    Ok(x) => x,
                };
                match self.nth_below(program, &self.edges[id], 2, id) {
                    Err(e) => Err(e),
                    Ok(else_expr) => Ok(
                        make(ExprKind::Ternary { condition, then_expr, else_expr }, span),
                    ),
                }
            },
            ReferenceTermKind::Call { target, arguments } => {
                let name = match name_of(program, target) {
                    Err(e) => {
                        return Err(e);
                    },
                    Ok(n) => n,
                };
                match self.call_below(program, arguments, &self.edges[id], id) {
                    Err(e) => Err(e),
                    Ok(args) => Ok(make(ExprKind::Call { name, args: Rc::new(args) }, span)),
                }
            },
            ReferenceTermKind::Form { .. } => match self.form_below(program, term, bound) {
                Err(e) => Err(e),
                Ok(f) => Ok(make(ExprKind::Formatted(f), span)),
            },
        }
    }

    fn nth_below(
        &self,
        program: &ProgramGeneration,
        edges: &Vec<TermRef>,
        k: usize,
        bound: usize,
    ) -> (r: Result<Rc<Expr>, StepError>)
        ensures
            fault::outcome(r) == nth_tree(
                *program,
                self@,
                forms::edges(edges@),
                k as int,
                bound as nat,
            ),
        decreases bound, 2int,
    {
        if k < edges.len() {
            self.expression_below(program, &edges[k], bound)
        } else {
            Err(invalid("reference argument child is missing"))
        }
    }

    fn list_below(&self, program: &ProgramGeneration, edges: &Vec<TermRef>, bound: usize) -> (r: Result<
        Vec<Rc<Expr>>,
        StepError,
    >)
        ensures
            list_result(r) == edge_trees(*program, self@, forms::edges(edges@), bound as nat),
        decreases bound, 3int,
    {
        let ghost all = forms::edges(edges@);
        let mut out: Vec<Rc<Expr>> = Vec::new();
        let mut i: usize = 0;
        assert(all.take(0) =~= Seq::<Edge>::empty());
        assert(ast::trees(out@) =~= Seq::empty());
        while i < edges.len()
            invariant
                i <= edges.len(),
                all == forms::edges(edges@),
                edge_trees(*program, self@, all.take(i as int), bound as nat) == Ok::<
                    Seq<Tree>,
                    Failure,
                >(ast::trees(out@)),
            decreases edges.len() - i,
        {
            proof {
                assert(all.take(i + 1).drop_last() =~= all.take(i as int));
                assert(all.take(i + 1).last() == edges@[i as int]@);
                if edge_trees(*program, self@, all.take(i + 1), bound as nat) is Err {
                    lemma_edges_stop(*program, self@, all, bound as nat, i + 1);
                }
            }
            match self.expression_below(program, &edges[i], bound) {
                Err(e) => {
                    return Err(e);
                },
                Ok(e) => {
                    proof {
                        lemma_trees_push(out@, e);
                    }
                    out.push(e);
                },
            }
            i = i + 1;
        }
        assert(all.take(i as int) =~= all);
        Ok(out)
    }

    fn call_below(
        &self,
        program: &ProgramGeneration,
        arguments: &Vec<ReferenceTermArgument>,
        edges: &Vec<TermRef>,
        bound: usize,
    ) -> (r: Result<Vec<Option<Rc<Expr>>>, StepError>)
        ensures
            arguments_result(r) == call_trees(
                *program,
                self@,
                arguments@,
                forms::edges(edges@),
                bound as nat,
            ),
        decreases bound, 3int,
    {
        let ghost all = arguments@;
        let ghost below = forms::edges(edges@);
        let mut out: Vec<Option<Rc<Expr>>> = Vec::new();
        let mut used: usize = 0;
        let mut i: usize = 0;
        assert(all.take(0) =~= Seq::<ReferenceTermArgument>::empty());
        assert(ast::argument_trees(out@) =~= Seq::empty());
        while i < arguments.len()
            invariant
                i <= arguments.len(),
                all == arguments@,
                below == forms::edges(edges@),
                used <= i,
                used == terms::argument_nodes(all.take(i as int)).len(),
                call_trees(*program, self@, all.take(i as int), below, bound as nat) == Ok::<
                    Seq<Option<Tree>>,
                    Failure,
                >(ast::argument_trees(out@)),
            decreases arguments.len() - i,
        {
            proof {
                assert(all.take(i + 1).drop_last() =~= all.take(i as int));
                assert(all.take(i + 1).last() == all[i as int]);
                if call_trees(*program, self@, all.take(i + 1), below, bound as nat) is Err {
                    lemma_call_stop(*program, self@, all, below, bound as nat, i + 1);
                }
            }
            if arguments[i].node.is_some() {
                match self.nth_below(program, edges, used, bound) {
                    Err(e) => {
                        return Err(e);
                    },
                    Ok(e) => {
                        proof {
                            lemma_argument_trees_push(out@, Some(e));
                        }
                        out.push(Some(e));
                    },
                }
                used = used + 1;
            } else {
                proof {
                    lemma_argument_trees_push(out@, None);
                }
                out.push(None);
            }
            i = i + 1;
        }
        assert(all.take(i as int) =~= all);
        Ok(out)
    }

    fn form_below(&self, program: &ProgramGeneration, term: &TermRef, bound: usize) -> (r: Result<
        Rc<FormattedString>,
        StepError,
    >)
        ensures
            fault::outcome(r) == term_form(*program, self@, term@, bound as nat),
        decreases bound, 0int,
    {
        match self.single(term) {
            Some(ReferenceTermValue::String(s)) => {
                let mut parts: Vec<Rc<FormPart>> = Vec::new();
                proof {
                    lemma_part_trees_push(parts@, Rc::new(FormPart::Text(*s)));
                }
                parts.push(Rc::new(FormPart::Text(s.clone())));
                let f = FormattedString { parts, span: Span { start: 0, end: 0 } };
                assert(f@.parts =~= seq![PartTree::Text(s@)]);
                return Ok(Rc::new(f));
            },
            _ => {},
        }
        let id: usize = match term {
            TermRef::Single(_) => {
                return Err(invalid("reference argument form replacement is not String"));
            },
            TermRef::Original(id) => *id as usize,
        };
        if id >= bound || id >= self.template.nodes.len() || id >= self.edges.len() {
            return Err(invalid("reference argument node is missing"));
        }
        assert(self@.template.nodes[id as int] == self.template.nodes@[id as int]@);
        assert(self@.edges[id as int] == forms::edges(self.edges@[id as int]@));
        match &self.template.nodes[id].kind {
            ReferenceTermKind::Form { parts } => match self.parts_below(
                program,
                parts,
                &self.edges[id],
                id,
            ) {
                Err(e) => Err(e),
                Ok(ps) => {
                    let f = FormattedString { parts: ps, span: self.template.nodes[id].span };
                    Ok(Rc::new(f))
                },
            },
            _ => Err(invalid("reference argument conditional branch is not a form")),
        }
    }

    fn form_expr_below(
        &self,
        program: &ProgramGeneration,
        edges: &Vec<TermRef>,
        k: usize,
        bound: usize,
    ) -> (r: Result<Rc<Expr>, StepError>)
        ensures
            fault::outcome(r) == form_expr(
                *program,
                self@,
                forms::edges(edges@),
                k as int,
                bound as nat,
            ),
        decreases bound, 2int,
    {
        if k < edges.len() {
            self.expression_below(program, &edges[k], bound)
        } else {
            Err(invalid("reference argument form child is missing"))
        }
    }

    fn form_branch_below(
        &self,
        program: &ProgramGeneration,
        edges: &Vec<TermRef>,
        k: usize,
        bound: usize,
    ) -> (r: Result<Rc<FormattedString>, StepError>)
        ensures
            fault::outcome(r) == form_branch(
                *program,
                self@,
                forms::edges(edges@),
                k as int,
                bound as nat,
            ),
        decreases bound, 2int,
    {
        if k < edges.len() {
            self.form_below(program, &edges[k], bound)
        } else {
            Err(invalid("reference argument form child is missing"))
        }
    }

    fn part_below(
        &self,
        program: &ProgramGeneration,
        part: &ReferenceTermPart,
        edges: &Vec<TermRef>,
        k: usize,
        bound: usize,
    ) -> (r: Result<Rc<FormPart>, StepError>)
        ensures
            fault::outcome(r) == form_part(
                *program,
                self@,
                part@,
                forms::edges(edges@),
                k as int,
                bound as nat,
            ),
        decreases bound, 3int,
    {
        let count: usize = edges.len();
        match part {
            ReferenceTermPart::Text(s) => Ok(Rc::new(FormPart::Text(s.clone()))),
            ReferenceTermPart::Triple(c) => Ok(Rc::new(FormPart::Triple(*c))),
            ReferenceTermPart::Interpolation { width, integer, alignment, .. } => {
                let expression = match self.form_expr_below(program, edges, k, bound) {
                    Err(e) => {
                        return Err(e);
                    },
                    Ok(e) => e,
                };
                assert(k < count);
                match width {
                    None => Ok(
                        Rc::new(
                            FormPart::Interpolation {
                                string: !*integer,
                                expression,
                                width: None,
                                alignment: *alignment,
                            },
                        ),
                    ),
                    Some(_) => match self.form_expr_below(program, edges, k + 1, bound) {
                        Err(e) => Err(e),
                        Ok(w) => Ok(
                            Rc::new(
                                FormPart::Interpolation {
                                    string: !*integer,
                                    expression,
                                    width: Some(w),
                                    alignment: *alignment,
                                },
                            ),
                        ),
                    },
                }
            },
            ReferenceTermPart::Conditional { else_value, .. } => {
                let condition = match self.form_expr_below(program, edges, k, bound) {
                    Err(e) => {
                        return Err(e);
                    },
                    Ok(e) => e,
                };
                assert(k < count);
                let then_value = match self.form_branch_below(program, edges, k + 1, bound) {
                    Err(e) => {
                        return Err(e);
                    },
                    Ok(f) => f,
                };
                assert(k + 1 < count);
                match else_value {
                    None => Ok(
                        Rc::new(FormPart::Conditional { condition, then_value, else_value: None }),
                    ),
                    Some(_) => match self.form_branch_below(program, edges, k + 2, bound) {
                        Err(e) => Err(e),
                        Ok(f) => Ok(
                            Rc::new(
                                FormPart::Conditional {
                                    condition,
                                    then_value,
                                    else_value: Some(f),
                                },
                            ),
                        ),
                    },
                }
            },
        }
    }

    fn parts_below(
        &self,
        program: &ProgramGeneration,
        parts: &Vec<ReferenceTermPart>,
        edges: &Vec<TermRef>,
        bound: usize,
    ) -> (r: Result<Vec<Rc<FormPart>>, StepError>)
        ensures
            parts_result(r) == form_parts(
                *program,
                self@,
                terms::fragments(parts@),
                forms::edges(edges@),
                bound as nat,
            ),
        decreases bound, 4int,
    {
        let ghost all = terms::fragments(parts@);
        let ghost below = forms::edges(edges@);
        let count: usize = edges.len();
        let mut out: Vec<Rc<FormPart>> = Vec::new();
        let mut used: usize = 0;
        let mut i: usize = 0;
        assert(all.take(0) =~= Seq::<Fragment>::empty());
        assert(ast::part_trees(out@) =~= Seq::empty());
        while i < parts.len()
            invariant
                i <= parts.len(),
                all == terms::fragments(parts@),
                below == forms::edges(edges@),
                count == edges@.len(),
                used <= count,
                used == terms::part_nodes(all.take(i as int)).len(),
                form_parts(*program, self@, all.take(i as int), below, bound as nat) == Ok::<
                    Seq<PartTree>,
                    Failure,
                >(ast::part_trees(out@)),
            decreases parts.len() - i,
        {
            proof {
                assert(all.take(i + 1).drop_last() =~= all.take(i as int));
                assert(all.take(i + 1).last() == parts@[i as int]@);
                if form_parts(*program, self@, all.take(i + 1), below, bound as nat) is Err {
                    lemma_form_stop(*program, self@, all, below, bound as nat, i + 1);
                }
                lemma_part_in_range(
                    *program,
                    self@,
                    parts@[i as int]@,
                    below,
                    used as int,
                    bound as nat,
                );
            }
            match self.part_below(program, &parts[i], edges, used, bound) {
                Err(e) => {
                    return Err(e);
                },
                Ok(p) => {
                    proof {
                        lemma_part_trees_push(out@, p);
                    }
                    out.push(p);
                },
            }
            match &parts[i] {
                ReferenceTermPart::Text(_) => {},
                ReferenceTermPart::Triple(_) => {},
                ReferenceTermPart::Interpolation { width, .. } => {
                    used = used + 1;
                    if width.is_some() {
                        used = used + 1;
                    }
                },
                ReferenceTermPart::Conditional { else_value, .. } => {
                    used = used + 2;
                    if else_value.is_some() {
                        used = used + 1;
                    }
                },
            }
            i = i + 1;
        }
        assert(all.take(i as int) =~= all);
        Ok(out)
    }
}

} // verus!
