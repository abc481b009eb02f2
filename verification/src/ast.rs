//! Expressions and formatted texts that are evaluated at run time.

use vstd::prelude::*;
use std::rc::Rc;
use crate::text;

verus! {

/// A range of source text.
#[derive(Clone, Copy, PartialEq, Eq, Debug, Structural)]
pub struct Span {
    pub start: usize,
    pub end: usize,
}

#[derive(Clone, Copy, PartialEq, Eq, Debug, Structural)]
pub enum UnaryOp {
    Plus,
    Minus,
    LogicalNot,
    BitNot,
    PreIncrement,
    PreDecrement,
}

#[derive(Clone, Copy, PartialEq, Eq, Debug, Structural)]
pub enum PostfixOp {
    Increment,
    Decrement,
}

#[derive(Clone, Copy, PartialEq, Eq, Debug, Structural)]
pub enum BinaryOp {
    Multiply,
    Divide,
    Modulo,
    Plus,
    Minus,
    ShiftLeft,
    ShiftRight,
    Less,
    LessEqual,
    Greater,
    GreaterEqual,
    Equal,
    NotEqual,
    BitAnd,
    BitXor,
    BitOr,
    LogicalAnd,
    LogicalXor,
    LogicalOr,
    Nand,
    Nor,
}

#[derive(Clone, Copy, PartialEq, Eq, Debug, Structural)]
pub enum Alignment {
    Left,
    Right,
}

/// An expression.
#[derive(PartialEq, Eq, Debug)]
pub struct Expr {
    pub kind: ExprKind,
    pub span: Span,
}

#[allow(inconsistent_fields)]
#[derive(PartialEq, Eq, Debug)]
pub enum ExprKind {
    Integer(i64),
    String(String),
    Identifier(String),
    Variable { name: String, indices: Vec<Rc<Expr>> },
    Group(Rc<Expr>),
    Unary { op: UnaryOp, operand: Rc<Expr> },
    Postfix { op: PostfixOp, operand: Rc<Expr> },
    Binary { op: BinaryOp, left: Rc<Expr>, right: Rc<Expr> },
    Ternary { condition: Rc<Expr>, then_expr: Rc<Expr>, else_expr: Rc<Expr> },
    Call { name: String, args: Rc<Vec<Option<Rc<Expr>>>> },
    Formatted(Rc<FormattedString>),
    Error,
}

/// A text with parts that are evaluated.
#[derive(PartialEq, Eq, Debug)]
pub struct FormattedString {
    pub parts: Vec<Rc<FormPart>>,
    pub span: Span,
}

#[derive(PartialEq, Eq, Debug)]
pub enum FormPart {
    Text(String),
    /// The value of an expression, a text or an integer, in a field of some width.
    Interpolation {
        string: bool,
        expression: Rc<Expr>,
        width: Option<Rc<Expr>>,
        alignment: Option<Alignment>,
    },
    Conditional {
        condition: Rc<Expr>,
        then_value: Rc<FormattedString>,
        else_value: Option<Rc<FormattedString>>,
    },
    Triple(char),
}

/// Mathematical content of an [`Expr`].
pub struct Tree {
    pub kind: TreeKind,
    pub span: Span,
}

pub enum TreeKind {
    Integer(i64),
    Text(Seq<char>),
    Identifier(Seq<char>),
    Variable(Seq<char>, Seq<Tree>),
    Group(Box<Tree>),
    Unary(UnaryOp, Box<Tree>),
    Postfix(PostfixOp, Box<Tree>),
    Binary(BinaryOp, Box<Tree>, Box<Tree>),
    Ternary(Box<Tree>, Box<Tree>, Box<Tree>),
    Call(Seq<char>, Seq<Option<Tree>>),
    Formatted(FormTree),
    Error,
}

/// Mathematical content of a [`FormattedString`].
pub struct FormTree {
    pub parts: Seq<PartTree>,
    pub span: Span,
}

pub enum PartTree {
    Text(Seq<char>),
    Interpolation(bool, Box<Tree>, Option<Box<Tree>>, Option<Alignment>),
    Conditional(Box<Tree>, FormTree, Option<FormTree>),
    Triple(char),
}

pub open spec fn tree(e: Expr) -> Tree
    decreases e,
{
    Tree {
        kind: match e.kind {
            ExprKind::Integer(n) => TreeKind::Integer(n),
            ExprKind::String(s) => TreeKind::Text(s@),
            ExprKind::Identifier(s) => TreeKind::Identifier(s@),
            ExprKind::Variable { name, indices } => TreeKind::Variable(name@, trees(indices@)),
            ExprKind::Group(x) => TreeKind::Group(Box::new(tree(*x))),
            ExprKind::Unary { op, operand } => TreeKind::Unary(op, Box::new(tree(*operand))),
            ExprKind::Postfix { op, operand } => TreeKind::Postfix(op, Box::new(tree(*operand))),
            ExprKind::Binary { op, left, right } => TreeKind::Binary(
                op,
                Box::new(tree(*left)),
                Box::new(tree(*right)),
            ),
            ExprKind::Ternary { condition, then_expr, else_expr } => TreeKind::Ternary(
                Box::new(tree(*condition)),
                Box::new(tree(*then_expr)),
                Box::new(tree(*else_expr)),
            ),
            ExprKind::Call { name, args } => TreeKind::Call(name@, argument_trees(args@)),
            ExprKind::Formatted(f) => TreeKind::Formatted(form_tree(*f)),
            ExprKind::Error => TreeKind::Error,
        },
        span: e.span,
    }
}

impl View for Expr {
    type V = Tree;

    open spec fn view(&self) -> Tree {
        tree(*self)
    }
}

impl View for FormattedString {
    type V = FormTree;

    open spec fn view(&self) -> FormTree {
        form_tree(*self)
    }
}

impl View for FormPart {
    type V = PartTree;

    open spec fn view(&self) -> PartTree {
        part_tree(*self)
    }
}

pub open spec fn trees(s: Seq<Rc<Expr>>) -> Seq<Tree>
    decreases s,
{
    if s.len() == 0 {
        Seq::empty()
    } else {
        trees(s.drop_last()).push(tree(*s[s.len() - 1]))
    }
}

pub open spec fn argument_trees(s: Seq<Option<Rc<Expr>>>) -> Seq<Option<Tree>>
    decreases s,
{
    if s.len() == 0 {
        Seq::empty()
    } else {
        argument_trees(s.drop_last()).push(
            match s[s.len() - 1] {
                Some(e) => Some(tree(*e)),
                None => None,
            },
        )
    }
}

pub open spec fn form_tree(f: FormattedString) -> FormTree
    decreases f,
{
    FormTree { parts: part_trees(f.parts@), span: f.span }
}

pub open spec fn part_trees(s: Seq<Rc<FormPart>>) -> Seq<PartTree>
    decreases s,
{
    if s.len() == 0 {
        Seq::empty()
    } else {
        part_trees(s.drop_last()).push(part_tree(*s[s.len() - 1]))
    }
}

pub open spec fn part_tree(p: FormPart) -> PartTree
    decreases p,
{
    match p {
        FormPart::Text(s) => PartTree::Text(s@),
        FormPart::Interpolation { string, expression, width, alignment } => PartTree::Interpolation(
            string,
            Box::new(tree(*expression)),
            match width {
                Some(w) => Some(Box::new(tree(*w))),
                None => None,
            },
            alignment,
        ),
        FormPart::Conditional { condition, then_value, else_value } => PartTree::Conditional(
            Box::new(tree(*condition)),
            form_tree(*then_value),
            match else_value {
                Some(f) => Some(form_tree(*f)),
                None => None,
            },
        ),
        FormPart::Triple(c) => PartTree::Triple(c),
    }
}

pub proof fn lemma_trees(s: Seq<Rc<Expr>>)
    ensures
        trees(s).len() == s.len(),
        forall|i: int| 0 <= i < s.len() ==> #[trigger] trees(s)[i] == tree(*s[i]),
    decreases s.len(),
{
    if s.len() > 0 {
        lemma_trees(s.drop_last());
    }
}

fn same_trees(a: &Vec<Rc<Expr>>, b: &Vec<Rc<Expr>>) -> (r: bool)
    ensures
        r == (trees(a@) == trees(b@)),
    decreases a,
{
    proof {
        lemma_trees(a@);
        lemma_trees(b@);
    }
    if a.len() != b.len() {
        return false;
    }
    let mut i: usize = 0;
    while i < a.len()
        invariant
            i <= a.len(),
            a@.len() == b@.len(),
            trees(a@).len() == a@.len(),
            trees(b@).len() == b@.len(),
            forall|j: int| 0 <= j < a@.len() ==> #[trigger] trees(a@)[j] == tree(*a@[j]),
            forall|j: int| 0 <= j < b@.len() ==> #[trigger] trees(b@)[j] == tree(*b@[j]),
            forall|j: int| 0 <= j < i ==> trees(a@)[j] == trees(b@)[j],
        decreases a.len() - i,
    {
        assert(decreases_to!(*a => a@[i as int]));
        if !same_expr(&a[i], &b[i]) {
            assert(trees(a@)[i as int] != trees(b@)[i as int]);
            return false;
        }
        i = i + 1;
    }
    assert(trees(a@) =~= trees(b@));
    true
}

pub proof fn lemma_argument_trees(s: Seq<Option<Rc<Expr>>>)
    ensures
        argument_trees(s).len() == s.len(),
        forall|i: int|
            0 <= i < s.len() ==> #[trigger] argument_trees(s)[i] == argument_tree(s[i]),
    decreases s.len(),
{
    if s.len() > 0 {
        lemma_argument_trees(s.drop_last());
    }
}

pub open spec fn argument_tree(a: Option<Rc<Expr>>) -> Option<Tree> {
    match a {
        Some(e) => Some(tree(*e)),
        None => None,
    }
}

/// Tells whether two argument lists are the same.
pub fn same_arguments(a: &Vec<Option<Rc<Expr>>>, b: &Vec<Option<Rc<Expr>>>) -> (r: bool)
    ensures
        r == (argument_trees(a@) == argument_trees(b@)),
    decreases a,
{
    proof {
        lemma_argument_trees(a@);
        lemma_argument_trees(b@);
    }
    if a.len() != b.len() {
        return false;
    }
    let mut i: usize = 0;
    while i < a.len()
        invariant
            i <= a.len(),
            a@.len() == b@.len(),
            argument_trees(a@).len() == a@.len(),
            argument_trees(b@).len() == b@.len(),
            forall|j: int|
                0 <= j < a@.len() ==> #[trigger] argument_trees(a@)[j] == argument_tree(a@[j]),
            forall|j: int|
                0 <= j < b@.len() ==> #[trigger] argument_trees(b@)[j] == argument_tree(b@[j]),
            forall|j: int| 0 <= j < i ==> argument_trees(a@)[j] == argument_trees(b@)[j],
        decreases a.len() - i,
    {
        assert(decreases_to!(*a => a@[i as int]));
        let same = match (&a[i], &b[i]) {
            (Some(x), Some(y)) => {
                assert(decreases_to!(*a => a@[i as int]->0));
                same_expr(x, y)
            },
            (None, None) => true,
            _ => false,
        };
        if !same {
            assert(argument_trees(a@)[i as int] != argument_trees(b@)[i as int]);
            return false;
        }
        i = i + 1;
    }
    assert(argument_trees(a@) =~= argument_trees(b@));
    true
}

pub proof fn lemma_part_trees(s: Seq<Rc<FormPart>>)
    ensures
        part_trees(s).len() == s.len(),
        forall|i: int| 0 <= i < s.len() ==> #[trigger] part_trees(s)[i] == part_tree(*s[i]),
    decreases s.len(),
{
    if s.len() > 0 {
        lemma_part_trees(s.drop_last());
    }
}

/// Tells whether two formatted texts are the same.
pub fn same_form(a: &Rc<FormattedString>, b: &Rc<FormattedString>) -> (r: bool)
    ensures
        r == (form_tree(**a) == form_tree(**b)),
    decreases a,
{
    proof {
        lemma_part_trees(a.parts@);
        lemma_part_trees(b.parts@);
    }
    if a.span != b.span || a.parts.len() != b.parts.len() {
        return false;
    }
    let mut i: usize = 0;
    while i < a.parts.len()
        invariant
            i <= a.parts.len(),
            a.parts@.len() == b.parts@.len(),
            part_trees(a.parts@).len() == a.parts@.len(),
            part_trees(b.parts@).len() == b.parts@.len(),
            forall|j: int|
                0 <= j < a.parts@.len() ==> #[trigger] part_trees(a.parts@)[j] == part_tree(
                    *a.parts@[j],
                ),
            forall|j: int|
                0 <= j < b.parts@.len() ==> #[trigger] part_trees(b.parts@)[j] == part_tree(
                    *b.parts@[j],
                ),
            forall|j: int| 0 <= j < i ==> part_trees(a.parts@)[j] == part_trees(b.parts@)[j],
        decreases a.parts.len() - i,
    {
        assert(decreases_to!(*a => a.parts@[i as int]));
        if !same_part(&a.parts[i], &b.parts[i]) {
            assert(part_trees(a.parts@)[i as int] != part_trees(b.parts@)[i as int]);
            return false;
        }
        i = i + 1;
    }
    assert(part_trees(a.parts@) =~= part_trees(b.parts@));
    true
}

fn same_part(a: &Rc<FormPart>, b: &Rc<FormPart>) -> (r: bool)
    ensures
        r == (part_tree(**a) == part_tree(**b)),
    decreases a,
{
    match (&**a, &**b) {
        (FormPart::Text(x), FormPart::Text(y)) => text::same_text(x.as_str(), y.as_str()),
        (
            FormPart::Interpolation { string: s1, expression: e1, width: w1, alignment: a1 },
            FormPart::Interpolation { string: s2, expression: e2, width: w2, alignment: a2 },
        ) => {
            let widths = match (w1, w2) {
                (Some(x), Some(y)) => same_expr(x, y),
                (None, None) => true,
                _ => false,
            };
            let alignments = match (*a1, *a2) {
                (Some(x), Some(y)) => x == y,
                (None, None) => true,
                _ => false,
            };
            *s1 == *s2 && same_expr(e1, e2) && widths && alignments
        },
        (
            FormPart::Conditional { condition: c1, then_value: t1, else_value: e1 },
            FormPart::Conditional { condition: c2, then_value: t2, else_value: e2 },
        ) => {
            let elses = match (e1, e2) {
                (Some(x), Some(y)) => same_form(x, y),
                (None, None) => true,
                _ => false,
            };
            same_expr(c1, c2) && same_form(t1, t2) && elses
        },
        (FormPart::Triple(x), FormPart::Triple(y)) => *x == *y,
        _ => false,
    }
}

/// Tells whether two expressions are the same.
pub fn same_expr(a: &Rc<Expr>, b: &Rc<Expr>) -> (r: bool)
    ensures
        r == (tree(**a) == tree(**b)),
    decreases a,
{
    if a.span != b.span {
        return false;
    }
    match (&a.kind, &b.kind) {
        (ExprKind::Integer(x), ExprKind::Integer(y)) => *x == *y,
        (ExprKind::String(x), ExprKind::String(y)) => text::same_text(x.as_str(), y.as_str()),
        (ExprKind::Identifier(x), ExprKind::Identifier(y)) => text::same_text(
            x.as_str(),
            y.as_str(),
        ),
        (
            ExprKind::Variable { name: n1, indices: i1 },
            ExprKind::Variable { name: n2, indices: i2 },
        ) => text::same_text(n1.as_str(), n2.as_str()) && same_trees(i1, i2),
        (ExprKind::Group(x), ExprKind::Group(y)) => same_expr(x, y),
        (ExprKind::Unary { op: o1, operand: x }, ExprKind::Unary { op: o2, operand: y }) => *o1
            == *o2 && same_expr(x, y),
        (ExprKind::Postfix { op: o1, operand: x }, ExprKind::Postfix { op: o2, operand: y }) => *o1
            == *o2 && same_expr(x, y),
        (
            ExprKind::Binary { op: o1, left: l1, right: r1 },
            ExprKind::Binary { op: o2, left: l2, right: r2 },
        ) => *o1 == *o2 && same_expr(l1, l2) && same_expr(r1, r2),
        (
            ExprKind::Ternary { condition: c1, then_expr: t1, else_expr: e1 },
            ExprKind::Ternary { condition: c2, then_expr: t2, else_expr: e2 },
        ) => same_expr(c1, c2) && same_expr(t1, t2) && same_expr(e1, e2),
        (ExprKind::Call { name: n1, args: a1 }, ExprKind::Call { name: n2, args: a2 }) => {
            text::same_text(n1.as_str(), n2.as_str()) && same_arguments(a1, a2)
        },
        (ExprKind::Formatted(x), ExprKind::Formatted(y)) => same_form(x, y),
        (ExprKind::Error, ExprKind::Error) => true,
        _ => false,
    }
}

/// An expression without the groups around it.
pub open spec fn bare(t: Tree) -> Tree
    decreases t,
{
    match t.kind {
        TreeKind::Group(inner) => bare(*inner),
        _ => t,
    }
}

/// An expression without the groups around it.
pub fn ungroup(e: &Rc<Expr>) -> (r: Rc<Expr>)
    ensures
        tree(*r) == bare(tree(**e)),
    decreases e,
{
    match &e.kind {
        ExprKind::Group(inner) => ungroup(inner),
        _ => e.clone(),
    }
}

/// The name of the variable that an expression stands for, if it is one.
pub open spec fn variable_in(t: Tree) -> Option<Seq<char>> {
    match bare(t).kind {
        TreeKind::Identifier(name) => Some(name),
        TreeKind::Variable(name, _) => Some(name),
        _ => None,
    }
}

/// The name of the variable that an expression stands for, if it is one.
pub fn variable_name(e: &Rc<Expr>) -> (r: Option<String>)
    ensures
        match r {
            Some(n) => variable_in(tree(**e)) == Some(n@),
            None => variable_in(tree(**e)) is None,
        },
{
    let inner = ungroup(e);
    match &inner.kind {
        ExprKind::Identifier(name) => Some(name.clone()),
        ExprKind::Variable { name, .. } => Some(name.clone()),
        _ => None,
    }
}

/// The arguments from a position on.
pub fn copy_arguments(arguments: &Vec<Option<Rc<Expr>>>, from: usize) -> (r: Vec<Option<Rc<Expr>>>)
    ensures
        argument_trees(r@) == if from <= arguments@.len() {
            argument_trees(arguments@).skip(from as int)
        } else {
            Seq::empty()
        },
        r@.len() == if from <= arguments@.len() {
            (arguments@.len() - from) as nat
        } else {
            0
        },
{
    let mut out: Vec<Option<Rc<Expr>>> = Vec::new();
    let mut i: usize = from;
    while i < arguments.len()
        invariant
            from <= i,
            from <= arguments.len() ==> i <= arguments.len(),
            from <= arguments.len() ==> out@.len() == i - from,
            from > arguments.len() ==> out@.len() == 0,
            forall|j: int|
                0 <= j < out@.len() ==> argument_tree(#[trigger] out@[j]) == argument_tree(
                    arguments@[from + j],
                ),
        decreases arguments.len() - i,
    {
        out.push(
            match &arguments[i] {
                Some(e) => Some(e.clone()),
                None => None,
            },
        );
        i = i + 1;
    }
    proof {
        lemma_argument_trees(arguments@);
        lemma_argument_trees(out@);
        if from <= arguments@.len() {
            assert(argument_trees(out@) =~= argument_trees(arguments@).skip(from as int));
        } else {
            assert(argument_trees(out@) =~= Seq::empty());
        }
    }
    out
}

/// A copy of a list of expressions.
pub fn copy_list(list: &Vec<Rc<Expr>>) -> (r: Vec<Rc<Expr>>)
    ensures
        trees(r@) == trees(list@),
{
    let mut out: Vec<Rc<Expr>> = Vec::new();
    let mut i: usize = 0;
    while i < list.len()
        invariant
            i <= list.len(),
            out@ == list@.take(i as int),
        decreases list.len() - i,
    {
        out.push(list[i].clone());
        assert(out@ =~= list@.take(i + 1));
        i = i + 1;
    }
    assert(out@ =~= list@);
    out
}

/// The expression in an optional argument.
pub fn copy_argument(argument: &Option<Rc<Expr>>) -> (r: Option<Rc<Expr>>)
    ensures
        argument_tree(r) == argument_tree(*argument),
        r is Some == argument is Some,
{
    match argument {
        Some(e) => Some(e.clone()),
        None => None,
    }
}

} // verus!
