//! From a source text to an evaluation: what is checked before and after parsing.

use vstd::prelude::*;
use std::rc::Rc;
use crate::ast::{
    self, Expr, ExprKind, FormPart, FormTree, FormattedString, PartTree, Tree, TreeKind,
};
use crate::fault::{self, Failure, ScriptFaultKind, StepError, VmFaultCode};
use crate::form_binding::NativeProviders;
use crate::form_plans;
use crate::form_resources;
use crate::form_typing::{self, Rules, TypeAnalysis};
use crate::forms::{
    self, Plan, RuntimeCallPlan, RuntimePlanSource, Source, MAX_RUNTIME_FORM_BYTES,
    MAX_RUNTIME_FORM_NESTING,
};
use crate::lookup;
use crate::memory::BytecodeStorage;
use crate::program::{BytecodeGlobal, NamedIndex, ProgramGeneration, UserArgumentSpec};
use crate::state::{Vm, VmModel};
use crate::text;
use crate::value::{GenerationId, SymbolKey};

verus! {

/// A character that starts or ends an interpolation, or an escape.
pub open spec fn is_special(c: char) -> bool {
    c == '%' || c == '{' || c == '}' || c == '\\'
}

/// A character that stands for a name where it stands three times in a row.
pub open spec fn is_triple(c: char) -> bool {
    c == '*' || c == '+' || c == '=' || c == '/' || c == '$'
}

pub open spec fn triple_at(s: Seq<char>, i: int) -> bool {
    0 <= i && i + 2 < s.len() && is_triple(s[i]) && s[i + 1] == s[i] && s[i + 2] == s[i]
}

/// A text that says something else than itself.
pub open spec fn needs_context(s: Seq<char>) -> bool {
    ||| exists|i: int| 0 <= i < s.len() && is_special(#[trigger] s[i])
    ||| exists|i: int| #[trigger] triple_at(s, i)
}

/// Tells whether a text has parts that must be evaluated.
pub fn requires_runtime_form_context(source: &str) -> (r: bool)
    ensures
        r == needs_context(source@),
{
    let s = text::characters(source);
    let mut i: usize = 0;
    while i < s.len()
        invariant
            i <= s.len(),
            s@ == source@,
            forall|j: int| 0 <= j < i ==> !is_special(#[trigger] s@[j]),
            forall|j: int| j < i ==> !#[trigger] triple_at(s@, j),
        decreases s.len() - i,
    {
        let c = s[i];
        if c == '%' || c == '{' || c == '}' || c == '\\' {
            assert(is_special(s@[i as int]));
            return true;
        }
        if s.len() - i > 2 {
            if (c == '*' || c == '+' || c == '=' || c == '/' || c == '$') && s[i + 1] == c && s[i
                + 2] == c {
                assert(triple_at(s@, i as int));
                return true;
            }
        }
        i = i + 1;
    }
    false
}

/// How deep a scan of a source is.
pub struct Nesting {
    pub braces: nat,
    pub parentheses: nat,
    pub percent: bool,
    pub quote: Option<char>,
    pub escaped: bool,
    pub unary_run: nat,
    pub ternaries: nat,
}

pub open spec fn less_one(n: nat) -> nat {
    if n > 0 {
        (n - 1) as nat
    } else {
        0
    }
}

/// A character with the Unicode property White_Space.
pub open spec fn is_whitespace(c: char) -> bool {
    let n = c as u32;
    (0x9 <= n && n <= 0xd) || n == 0x20 || n == 0x85 || n == 0xa0 || n == 0x1680 || (0x2000 <= n
        && n <= 0x200a) || n == 0x2028 || n == 0x2029 || n == 0x202f || n == 0x205f || n == 0x3000
}

fn whitespace(c: char) -> (r: bool)
    ensures
        r == is_whitespace(c),
{
    let n: u32 = c as u32;
    (0x9 <= n && n <= 0xd) || n == 0x20 || n == 0x85 || n == 0xa0 || n == 0x1680 || (0x2000 <= n
        && n <= 0x200a) || n == 0x2028 || n == 0x2029 || n == 0x202f || n == 0x205f || n == 0x3000
}

/// A scan that reads one more character that is neither escaped nor quoted.
pub open spec fn nested_by(n: Nesting, c: char) -> Nesting {
    Nesting {
        braces: if c == '{' {
            n.braces + 1
        } else if c == '}' {
            less_one(n.braces)
        } else {
            n.braces
        },
        parentheses: if c == '(' {
            n.parentheses + 1
        } else if c == ')' {
            less_one(n.parentheses)
        } else {
            n.parentheses
        },
        percent: if c == '%' && n.braces == 0 {
            !n.percent
        } else {
            n.percent
        },
        unary_run: if c == '!' || c == '~' || c == '+' || c == '-' {
            n.unary_run + 1
        } else if is_whitespace(c) {
            n.unary_run
        } else {
            0
        },
        ternaries: if c == '?' {
            n.ternaries + 1
        } else {
            n.ternaries
        },
        ..n
    }
}

/// A scan that reads one more character; nothing where the nesting is too deep.
pub open spec fn nesting_step(n: Nesting, c: char) -> Option<Nesting> {
    if n.escaped {
        Some(Nesting { escaped: false, ..n })
    } else if c == '\\' {
        Some(Nesting { escaped: true, ..n })
    } else if n.quote is Some {
        Some(
            Nesting {
                quote: if n.quote == Some(c) {
                    None
                } else {
                    n.quote
                },
                ..n
            },
        )
    } else if (c == '\'' || c == '"') && (n.braces > 0 || n.percent) {
        Some(Nesting { quote: Some(c), ..n })
    } else {
        let after = nested_by(n, c);
        if after.braces + after.parentheses > MAX_RUNTIME_FORM_NESTING || after.unary_run
            > MAX_RUNTIME_FORM_NESTING || after.ternaries > MAX_RUNTIME_FORM_NESTING {
            None
        } else {
            Some(after)
        }
    }
}

/// How deep a source is at its end; nothing where it is too deep somewhere.
pub open spec fn nesting_of(s: Seq<char>) -> Option<Nesting>
    decreases s.len(),
{
    if s.len() == 0 {
        Some(
            Nesting {
                braces: 0,
                parentheses: 0,
                percent: false,
                quote: None,
                escaped: false,
                unary_run: 0,
                ternaries: 0,
            },
        )
    } else {
        match nesting_of(s.drop_last()) {
            None => None,
            Some(n) => nesting_step(n, s.last()),
        }
    }
}

pub open spec fn preflighted(s: Seq<char>) -> Result<(), Failure> {
    if nesting_of(s) is Some {
        Ok(())
    } else {
        Err(form_resources::resource_failure("STRFORM parser nesting limit exceeded"@))
    }
}

proof fn lemma_nesting_stops(s: Seq<char>, n: int)
    requires
        0 <= n <= s.len(),
        nesting_of(s.take(n)) is None,
    ensures
        nesting_of(s) is None,
    decreases s.len() - n,
{
    if n == s.len() {
        assert(s.take(n) =~= s);
    } else {
        assert(s.take(n + 1).drop_last() =~= s.take(n));
        lemma_nesting_stops(s, n + 1);
    }
}

/// Refuses a source that is nested too deep for the parser.
pub fn preflight_nesting(source: &str) -> (r: Result<(), StepError>)
    ensures
        form_resources::unit_result(r) == preflighted(source@),
{
    let s = text::characters(source);
    let mut braces: usize = 0;
    let mut parentheses: usize = 0;
    let mut percent: bool = false;
    let mut quote: Option<char> = None;
    let mut escaped: bool = false;
    let mut unary_run: usize = 0;
    let mut ternaries: usize = 0;
    let mut i: usize = 0;
    assert(s@.take(0) =~= Seq::<char>::empty());
    while i < s.len()
        invariant
            i <= s.len(),
            s@ == source@,
            braces <= MAX_RUNTIME_FORM_NESTING,
            parentheses <= MAX_RUNTIME_FORM_NESTING,
            unary_run <= MAX_RUNTIME_FORM_NESTING,
            ternaries <= MAX_RUNTIME_FORM_NESTING,
            nesting_of(s@.take(i as int)) == Some(
                (Nesting {
                    braces: braces as nat,
                    parentheses: parentheses as nat,
                    percent,
                    quote,
                    escaped,
                    unary_run: unary_run as nat,
                    ternaries: ternaries as nat,
                }),
            ),
        decreases s.len() - i,
    {
        let c = s[i];
        proof {
            assert(s@.take(i + 1).drop_last() =~= s@.take(i as int));
            assert(s@.take(i + 1).last() == c);
        }
        i = i + 1;
        if escaped {
            escaped = false;
        } else if c == '\\' {
            escaped = true;
        } else if quote.is_some() {
            let closes = match quote {
                Some(q) => q == c,
                None => false,
            };
            if closes {
                quote = None;
            }
        } else if (c == '\'' || c == '"') && (braces > 0 || percent) {
            quote = Some(c);
        } else {
            if c == '%' && braces == 0 {
                percent = !percent;
            } else if c == '{' {
                braces = braces + 1;
            } else if c == '}' {
                if braces > 0 {
                    braces = braces - 1;
                }
            } else if c == '(' {
                parentheses = parentheses + 1;
            } else if c == ')' {
                if parentheses > 0 {
                    parentheses = parentheses - 1;
                }
            }
            if c == '!' || c == '~' || c == '+' || c == '-' {
                unary_run = unary_run + 1;
            } else if !whitespace(c) {
                unary_run = 0;
            }
            if c == '?' {
                ternaries = ternaries + 1;
            }
            if braces + parentheses > MAX_RUNTIME_FORM_NESTING || unary_run
                > MAX_RUNTIME_FORM_NESTING || ternaries > MAX_RUNTIME_FORM_NESTING {
                proof {
                    lemma_nesting_stops(s@, i as int);
                }
                return Err(
                    form_resources::resource_limit("STRFORM parser nesting limit exceeded"),
                );
            }
        }
    }
    assert(s@.take(i as int) =~= s@);
    Ok(())
}

pub open spec fn index_named(variable: Seq<char>, candidate: Seq<char>, dimension: int) -> spec_fn(
    NamedIndex,
) -> bool {
    |n: NamedIndex|
        n.variable@ == variable && n.candidate@ == candidate && n.dimension == dimension
}

/// The index that a name stands for in a dimension of a variable.
pub open spec fn named_value(
    program: ProgramGeneration,
    variable: Seq<char>,
    candidate: Seq<char>,
    dimension: int,
) -> Option<i64> {
    match lookup::first_index(
        program.named_indices@,
        index_named(variable, candidate, dimension),
    ) {
        Some(i) => Some(program.named_indices@[i].value),
        None => None,
    }
}

fn find_named_value(
    program: &ProgramGeneration,
    variable: &str,
    candidate: &str,
    dimension: usize,
) -> (r: Option<i64>)
    ensures
        r == named_value(*program, variable@, candidate@, dimension as int),
{
    let ghost p = index_named(variable@, candidate@, dimension as int);
    let mut i: usize = 0;
    while i < program.named_indices.len()
        invariant
            i <= program.named_indices.len(),
            p == index_named(variable@, candidate@, dimension as int),
            forall|j: int| 0 <= j < i ==> !p(#[trigger] program.named_indices@[j]),
        decreases program.named_indices.len() - i,
    {
        let n = &program.named_indices[i];
        if n.dimension == dimension && text::same_text(n.variable.as_str(), variable)
            && text::same_text(n.candidate.as_str(), candidate) {
            proof {
                lookup::lemma_first_found(program.named_indices@, p, i as int);
            }
            return Some(n.value);
        }
        i = i + 1;
    }
    proof {
        lookup::lemma_first_none(program.named_indices@, p);
    }
    None
}

pub open spec fn too_nested() -> Failure {
    form_resources::resource_failure("STRFORM named-index resolution exceeds the nesting limit"@)
}

/// An index: a name that is no variable is a function without arguments, or stands for a number.
pub open spec fn named_index(
    program: ProgramGeneration,
    function: SymbolKey,
    g: BytecodeGlobal,
    variable: Seq<char>,
    count: nat,
    position: int,
    t: Tree,
) -> Tree {
    let explicit = g.storage is Character && count > g.dimensions@.len();
    match t.kind {
        TreeKind::Identifier(candidate) => if explicit && position == 0 {
            t
        } else if program.spec_scoped_variable(function, candidate) is Some {
            t
        } else if program.spec_function_by_name(candidate) is Some {
            Tree { kind: TreeKind::Call(candidate, Seq::empty()), ..t }
        } else {
            let dimension = if explicit {
                position - 1
            } else {
                position
            };
            match named_value(program, variable, candidate, dimension) {
                Some(n) => Tree { kind: TreeKind::Integer(n), ..t },
                None => t,
            }
        },
        _ => t,
    }
}

pub open spec fn named_indices_of(
    program: ProgramGeneration,
    function: SymbolKey,
    variable: Seq<char>,
    indices: Seq<Tree>,
) -> Seq<Tree> {
    match program.spec_scoped_variable(function, variable) {
        None => indices,
        Some(g) => Seq::new(
            indices.len(),
            |i: int|
                named_index(program, function, *g, variable, indices.len(), i, indices[i]),
        ),
    }
}

/// An expression whose index names are replaced.
pub open spec fn named_expr(program: ProgramGeneration, function: SymbolKey, t: Tree, depth: nat) -> Result<
    Tree,
    Failure,
>
    decreases t, 2int,
{
    if depth > MAX_RUNTIME_FORM_NESTING {
        Err(too_nested())
    } else {
        match named_kind(program, function, t, depth) {
            Err(e) => Err(e),
            Ok(kind) => Ok(Tree { kind, span: t.span }),
        }
    }
}

pub open spec fn named_kind(program: ProgramGeneration, function: SymbolKey, t: Tree, depth: nat) -> Result<
    TreeKind,
    Failure,
>
    decreases t, 1int,
{
    match t.kind {
        TreeKind::Variable(name, indices) => match named_list(
            program,
            function,
            indices,
            depth + 1,
        ) {
            Err(e) => Err(e),
            Ok(list) => Ok(
                TreeKind::Variable(name, named_indices_of(program, function, name, list)),
            ),
        },
        TreeKind::Call(name, arguments) => match named_arguments(
            program,
            function,
            arguments,
            depth + 1,
        ) {
            Err(e) => Err(e),
            Ok(list) => Ok(TreeKind::Call(name, list)),
        },
        TreeKind::Group(x) => match named_expr(program, function, *x, depth + 1) {
            Err(e) => Err(e),
            Ok(x) => Ok(TreeKind::Group(Box::new(x))),
        },
        TreeKind::Unary(op, x) => match named_expr(program, function, *x, depth + 1) {
            Err(e) => Err(e),
            Ok(x) => Ok(TreeKind::Unary(op, Box::new(x))),
        },
        TreeKind::Postfix(op, x) => match named_expr(program, function, *x, depth + 1) {
            Err(e) => Err(e),
            Ok(x) => Ok(TreeKind::Postfix(op, Box::new(x))),
        },
        TreeKind::Binary(op, x, y) => match named_expr(program, function, *x, depth + 1) {
            Err(e) => Err(e),
            Ok(x) => match named_expr(program, function, *y, depth + 1) {
                Err(e) => Err(e),
                Ok(y) => Ok(TreeKind::Binary(op, Box::new(x), Box::new(y))),
            },
        },
        TreeKind::Ternary(x, y, z) => match named_expr(program, function, *x, depth + 1) {
            Err(e) => Err(e),
            Ok(x) => match named_expr(program, function, *y, depth + 1) {
                Err(e) => Err(e),
                Ok(y) => match named_expr(program, function, *z, depth + 1) {
                    Err(e) => Err(e),
                    Ok(z) => Ok(TreeKind::Ternary(Box::new(x), Box::new(y), Box::new(z))),
                },
            },
        },
        TreeKind::Formatted(f) => match named_form(program, function, f, depth + 1) {
            Err(e) => Err(e),
            Ok(f) => Ok(TreeKind::Formatted(f)),
        },
        _ => Ok(t.kind),
    }
}

pub open spec fn named_list(
    program: ProgramGeneration,
    function: SymbolKey,
    list: Seq<Tree>,
    depth: nat,
) -> Result<Seq<Tree>, Failure>
    decreases list, 0int,
{
    if list.len() == 0 {
        Ok(Seq::empty())
    } else {
        match named_list(program, function, list.drop_last(), depth) {
            Err(e) => Err(e),
            Ok(before) => match named_expr(program, function, list[list.len() - 1], depth) {
                Err(e) => Err(e),
                Ok(t) => Ok(before.push(t)),
            },
        }
    }
}

pub open spec fn named_arguments(
    program: ProgramGeneration,
    function: SymbolKey,
    list: Seq<Option<Tree>>,
    depth: nat,
) -> Result<Seq<Option<Tree>>, Failure>
    decreases list, 0int,
{
    if list.len() == 0 {
        Ok(Seq::empty())
    } else {
        match named_arguments(program, function, list.drop_last(), depth) {
            Err(e) => Err(e),
            Ok(before) => match list[list.len() - 1] {
                None => Ok(before.push(None)),
                Some(t) => match named_expr(program, function, t, depth) {
                    Err(e) => Err(e),
                    Ok(t) => Ok(before.push(Some(t))),
                },
            },
        }
    }
}

/// A formatted text whose index names are replaced.
pub open spec fn named_form(
    program: ProgramGeneration,
    function: SymbolKey,
    f: FormTree,
    depth: nat,
) -> Result<FormTree, Failure>
    decreases f, 2int,
{
    if depth > MAX_RUNTIME_FORM_NESTING {
        Err(too_nested())
    } else {
        match named_parts(program, function, f.parts, depth) {
            Err(e) => Err(e),
            Ok(parts) => Ok(FormTree { parts, span: f.span }),
        }
    }
}

pub open spec fn named_parts(
    program: ProgramGeneration,
    function: SymbolKey,
    parts: Seq<PartTree>,
    depth: nat,
) -> Result<Seq<PartTree>, Failure>
    decreases parts, 0int,
{
    if parts.len() == 0 {
        Ok(Seq::empty())
    } else {
        match named_parts(program, function, parts.drop_last(), depth) {
            Err(e) => Err(e),
            Ok(before) => match named_part(program, function, parts[parts.len() - 1], depth) {
                Err(e) => Err(e),
                Ok(p) => Ok(before.push(p)),
            },
        }
    }
}

pub open spec fn named_part(
    program: ProgramGeneration,
    function: SymbolKey,
    p: PartTree,
    depth: nat,
) -> Result<PartTree, Failure>
    decreases p, 1int,
{
    match p {
        PartTree::Interpolation(string, e, width, alignment) => match named_expr(
            program,
            function,
            *e,
            depth + 1,
        ) {
            Err(x) => Err(x),
            Ok(e) => match width {
                None => Ok(PartTree::Interpolation(string, Box::new(e), None, alignment)),
                Some(w) => match named_expr(program, function, *w, depth + 1) {
                    Err(x) => Err(x),
                    Ok(w) => Ok(
                        PartTree::Interpolation(
                            string,
                            Box::new(e),
                            Some(Box::new(w)),
                            alignment,
                        ),
                    ),
                },
            },
        },
        PartTree::Conditional(c, then_value, else_value) => match named_expr(
            program,
            function,
            *c,
            depth + 1,
        ) {
            Err(x) => Err(x),
            Ok(c) => match named_form(program, function, then_value, depth + 1) {
                Err(x) => Err(x),
                Ok(t) => match else_value {
                    None => Ok(PartTree::Conditional(Box::new(c), t, None)),
                    Some(f) => match named_form(program, function, f, depth + 1) {
                        Err(x) => Err(x),
                        Ok(f) => Ok(PartTree::Conditional(Box::new(c), t, Some(f))),
                    },
                },
            },
        },
        _ => Ok(p),
    }
}

proof fn lemma_list_stop(
    program: ProgramGeneration,
    function: SymbolKey,
    list: Seq<Tree>,
    depth: nat,
    n: int,
)
    requires
        0 <= n <= list.len(),
        named_list(program, function, list.take(n), depth) is Err,
    ensures
        named_list(program, function, list, depth) == named_list(
            program,
            function,
            list.take(n),
            depth,
        ),
    decreases list.len() - n,
{
    if n == list.len() {
        assert(list.take(n) =~= list);
    } else {
        assert(list.take(n + 1).drop_last() =~= list.take(n));
        lemma_list_stop(program, function, list, depth, n + 1);
    }
}

proof fn lemma_arguments_stop(
    program: ProgramGeneration,
    function: SymbolKey,
    list: Seq<Option<Tree>>,
    depth: nat,
    n: int,
)
    requires
        0 <= n <= list.len(),
        named_arguments(program, function, list.take(n), depth) is Err,
    ensures
        named_arguments(program, function, list, depth) == named_arguments(
            program,
            function,
            list.take(n),
            depth,
        ),
    decreases list.len() - n,
{
    if n == list.len() {
        assert(list.take(n) =~= list);
    } else {
        assert(list.take(n + 1).drop_last() =~= list.take(n));
        lemma_arguments_stop(program, function, list, depth, n + 1);
    }
}

proof fn lemma_parts_stop(
    program: ProgramGeneration,
    function: SymbolKey,
    parts: Seq<PartTree>,
    depth: nat,
    n: int,
)
    requires
        0 <= n <= parts.len(),
        named_parts(program, function, parts.take(n), depth) is Err,
    ensures
        named_parts(program, function, parts, depth) == named_parts(
            program,
            function,
            parts.take(n),
            depth,
        ),
    decreases parts.len() - n,
{
    if n == parts.len() {
        assert(parts.take(n) =~= parts);
    } else {
        assert(parts.take(n + 1).drop_last() =~= parts.take(n));
        lemma_parts_stop(program, function, parts, depth, n + 1);
    }
}

fn name_index(
    program: &ProgramGeneration,
    function: SymbolKey,
    g: &BytecodeGlobal,
    variable: &str,
    count: usize,
    position: usize,
    e: &Rc<Expr>,
) -> (r: Rc<Expr>)
    ensures
        r@ == named_index(
            *program,
            function,
            *g,
            variable@,
            count as nat,
            position as int,
            e@,
        ),
{
    let explicit = match g.storage {
        BytecodeStorage::Character => count > g.dimensions.len(),
        _ => false,
    };
    match &e.kind {
        ExprKind::Identifier(candidate) => {
            if explicit && position == 0 {
                return e.clone();
            }
            if program.scoped_variable(function, candidate.as_str()).is_some() {
                return e.clone();
            }
            if program.function_by_name(candidate.as_str()).is_some() {
                let args: Vec<Option<Rc<Expr>>> = Vec::new();
                assert(ast::argument_trees(args@) =~= Seq::<Option<Tree>>::empty());
                let call = ExprKind::Call { name: candidate.clone(), args: Rc::new(args) };
                return Rc::new(Expr { kind: call, span: e.span });
            }
            let dimension: usize = if explicit {
                position - 1
            } else {
                position
            };
            match find_named_value(program, variable, candidate.as_str(), dimension) {
                Some(n) => Rc::new(Expr { kind: ExprKind::Integer(n), span: e.span }),
                None => e.clone(),
            }
        },
        _ => e.clone(),
    }
}

pub open spec fn list_result(r: Result<Vec<Rc<Expr>>, StepError>) -> Result<Seq<Tree>, Failure> {
    match r {
        Ok(v) => Ok(ast::trees(v@)),
        Err(e) => Err(e@),
    }
}

pub open spec fn arguments_result(r: Result<Vec<Option<Rc<Expr>>>, StepError>) -> Result<
    Seq<Option<Tree>>,
    Failure,
> {
    match r {
        Ok(v) => Ok(ast::argument_trees(v@)),
        Err(e) => Err(e@),
    }
}

fn name_indices(
    program: &ProgramGeneration,
    function: SymbolKey,
    variable: &str,
    list: Vec<Rc<Expr>>,
) -> (r: Vec<Rc<Expr>>)
    ensures
        ast::trees(r@) == named_indices_of(*program, function, variable@, ast::trees(list@)),
{
    let g = match program.scoped_variable(function, variable) {
        None => {
            return list;
        },
        Some(g) => g,
    };
    let ghost all = ast::trees(list@);
    proof {
        ast::lemma_trees(list@);
    }
    let count: usize = list.len();
    let mut out: Vec<Rc<Expr>> = Vec::new();
    let mut i: usize = 0;
    while i < list.len()
        invariant
            i <= list.len(),
            count == list@.len(),
            all.len() == list@.len(),
            forall|j: int| 0 <= j < list@.len() ==> #[trigger] all[j] == ast::tree(*list@[j]),
            out@.len() == i,
            forall|j: int|
                0 <= j < i ==> ast::tree(*#[trigger] out@[j]) == named_index(
                    *program,
                    function,
                    *g,
                    variable@,
                    count as nat,
                    j,
                    all[j],
                ),
        decreases list.len() - i,
    {
        let e = name_index(program, function, g, variable, count, i, &list[i]);
        out.push(e);
        i = i + 1;
    }
    proof {
        ast::lemma_trees(out@);
        assert(ast::trees(out@) =~= named_indices_of(*program, function, variable@, all));
    }
    out
}

/// Replaces the index names in an expression.
pub fn resolve_expression_named_indices(
    program: &ProgramGeneration,
    function: SymbolKey,
    e: &Rc<Expr>,
    depth: usize,
) -> (r: Result<Rc<Expr>, StepError>)
    ensures
        fault::outcome(r) == named_expr(*program, function, e@, depth as nat),
    decreases e, 2int,
{
    if depth > MAX_RUNTIME_FORM_NESTING {
        return Err(
            form_resources::resource_limit(
                "STRFORM named-index resolution exceeds the nesting limit",
            ),
        );
    }
    match resolve_kind(program, function, e, depth) {
        Ok(Some(kind)) => Ok(Rc::new(Expr { kind, span: e.span })),
        Ok(None) => Ok(e.clone()),
        Err(error) => Err(error),
    }
}

pub open spec fn change_result(r: Result<Option<ExprKind>, StepError>, t: Tree) -> Result<
    TreeKind,
    Failure,
> {
    match r {
        Ok(Some(kind)) => Ok(ast::tree(Expr { kind, span: t.span }).kind),
        Ok(None) => Ok(t.kind),
        Err(e) => Err(e@),
    }
}

fn resolve_kind(program: &ProgramGeneration, function: SymbolKey, e: &Rc<Expr>, depth: usize) -> (r:
    Result<Option<ExprKind>, StepError>)
    requires
        depth <= MAX_RUNTIME_FORM_NESTING,
    ensures
        change_result(r, e@) == named_kind(*program, function, e@, depth as nat),
    decreases e, 1int,
{
    match &e.kind {
        ExprKind::Variable { name, indices } => match resolve_list(
            program,
            function,
            indices,
            depth + 1,
        ) {
            Err(x) => Err(x),
            Ok(list) => {
                let named = name_indices(program, function, name.as_str(), list);
                Ok(Some(ExprKind::Variable { name: name.clone(), indices: named }))
            },
        },
        ExprKind::Call { name, args } => match resolve_arguments(
            program,
            function,
            args,
            depth + 1,
        ) {
            Err(x) => Err(x),
            Ok(list) => Ok(Some(ExprKind::Call { name: name.clone(), args: Rc::new(list) })),
        },
        ExprKind::Group(x) => match resolve_expression_named_indices(
            program,
            function,
            x,
            depth + 1,
        ) {
            Err(error) => Err(error),
            Ok(x) => Ok(Some(ExprKind::Group(x))),
        },
        ExprKind::Unary { op, operand } => match resolve_expression_named_indices(
            program,
            function,
            operand,
            depth + 1,
        ) {
            Err(error) => Err(error),
            Ok(x) => Ok(Some(ExprKind::Unary { op: *op, operand: x })),
        },
        ExprKind::Postfix { op, operand } => match resolve_expression_named_indices(
            program,
            function,
            operand,
            depth + 1,
        ) {
            Err(error) => Err(error),
            Ok(x) => Ok(Some(ExprKind::Postfix { op: *op, operand: x })),
        },
        ExprKind::Binary { op, left, right } => {
            let left = match resolve_expression_named_indices(program, function, left, depth + 1) {
                Err(error) => {
                    return Err(error);
                },
                Ok(x) => x,
            };
            match resolve_expression_named_indices(program, function, right, depth + 1) {
                Err(error) => Err(error),
                Ok(right) => Ok(Some(ExprKind::Binary { op: *op, left, right })),
            }
        },
        ExprKind::Ternary { condition, then_expr, else_expr } => {
            let condition = match resolve_expression_named_indices(
                program,
                function,
                condition,
                depth + 1,
            ) {
                Err(error) => {
                    return Err(error);
                },
                Ok(x) => x,
            };
            let then_expr = match resolve_expression_named_indices(
                program,
                function,
                then_expr,
                depth + 1,
            ) {
                Err(error) => {
                    return Err(error);
                },
                Ok(x) => x,
            };
            match resolve_expression_named_indices(program, function, else_expr, depth + 1) {
                Err(error) => Err(error),
                Ok(else_expr) => Ok(Some(ExprKind::Ternary { condition, then_expr, else_expr })),
            }
        },
        ExprKind::Formatted(f) => match resolve_named_indices(program, function, f, depth + 1) {
            Err(error) => Err(error),
            Ok(f) => Ok(Some(ExprKind::Formatted(f))),
        },
        _ => Ok(None),
    }
}

#[verifier::loop_isolation(false)]
fn resolve_list(
    program: &ProgramGeneration,
    function: SymbolKey,
    list: &Vec<Rc<Expr>>,
    depth: usize,
) -> (r: Result<Vec<Rc<Expr>>, StepError>)
    ensures
        list_result(r) == named_list(*program, function, ast::trees(list@), depth as nat),
    decreases list, 0int,
{
    let ghost all = ast::trees(list@);
    proof {
        ast::lemma_trees(list@);
        assert(all.take(0) =~= Seq::<Tree>::empty());
    }
    let mut out: Vec<Rc<Expr>> = Vec::new();
    let mut i: usize = 0;
    while i < list.len()
        invariant
            i <= list.len(),
            named_list(*program, function, all.take(i as int), depth as nat) == Ok::<
                Seq<Tree>,
                Failure,
            >(ast::trees(out@)),
        decreases list.len() - i,
    {
        proof {
            assert(all.take(i + 1).drop_last() =~= all.take(i as int));
            assert(all.take(i + 1).last() == all[i as int]);
            assert(decreases_to!(*list => list@[i as int]));
        }
        match resolve_expression_named_indices(program, function, &list[i], depth) {
            Err(e) => {
                proof {
                    lemma_list_stop(*program, function, all, depth as nat, i + 1);
                }
                return Err(e);
            },
            Ok(e) => {
                let ghost before = out@;
                out.push(e);
                assert(out@.drop_last() =~= before);
            },
        }
        i = i + 1;
    }
    assert(all.take(i as int) =~= all);
    Ok(out)
}

/// Replaces the index names in arguments.
#[verifier::loop_isolation(false)]
pub fn resolve_arguments(
    program: &ProgramGeneration,
    function: SymbolKey,
    list: &Vec<Option<Rc<Expr>>>,
    depth: usize,
) -> (r: Result<Vec<Option<Rc<Expr>>>, StepError>)
    ensures
        arguments_result(r) == named_arguments(
            *program,
            function,
            ast::argument_trees(list@),
            depth as nat,
        ),
    decreases list, 0int,
{
    let ghost all = ast::argument_trees(list@);
    proof {
        ast::lemma_argument_trees(list@);
        assert(all.take(0) =~= Seq::<Option<Tree>>::empty());
    }
    let mut out: Vec<Option<Rc<Expr>>> = Vec::new();
    let mut i: usize = 0;
    while i < list.len()
        invariant
            i <= list.len(),
            named_arguments(*program, function, all.take(i as int), depth as nat) == Ok::<
                Seq<Option<Tree>>,
                Failure,
            >(ast::argument_trees(out@)),
        decreases list.len() - i,
    {
        proof {
            assert(all.take(i + 1).drop_last() =~= all.take(i as int));
            assert(all.take(i + 1).last() == all[i as int]);
            assert(decreases_to!(*list => list@[i as int]));
        }
        let ghost before = out@;
        match &list[i] {
            None => {
                out.push(None);
            },
            Some(e) => match resolve_expression_named_indices(program, function, e, depth) {
                Err(error) => {
                    proof {
                        lemma_arguments_stop(*program, function, all, depth as nat, i + 1);
                    }
                    return Err(error);
                },
                Ok(e) => {
                    out.push(Some(e));
                },
            },
        }
        assert(out@.drop_last() =~= before);
        i = i + 1;
    }
    assert(all.take(i as int) =~= all);
    Ok(out)
}

/// Replaces the index names in a formatted text.
#[verifier::loop_isolation(false)]
pub fn resolve_named_indices(
    program: &ProgramGeneration,
    function: SymbolKey,
    f: &Rc<FormattedString>,
    depth: usize,
) -> (r: Result<Rc<FormattedString>, StepError>)
    ensures
        fault::outcome(r) == named_form(*program, function, f@, depth as nat),
    decreases f, 2int,
{
    if depth > MAX_RUNTIME_FORM_NESTING {
        return Err(
            form_resources::resource_limit(
                "STRFORM named-index resolution exceeds the nesting limit",
            ),
        );
    }
    let ghost all = ast::part_trees(f.parts@);
    proof {
        ast::lemma_part_trees(f.parts@);
        assert(all.take(0) =~= Seq::<PartTree>::empty());
    }
    let mut out: Vec<Rc<FormPart>> = Vec::new();
    let mut i: usize = 0;
    while i < f.parts.len()
        invariant
            i <= f.parts.len(),
            named_parts(*program, function, all.take(i as int), depth as nat) == Ok::<
                Seq<PartTree>,
                Failure,
            >(ast::part_trees(out@)),
        decreases f.parts.len() - i,
    {
        proof {
            assert(all.take(i + 1).drop_last() =~= all.take(i as int));
            assert(all.take(i + 1).last() == all[i as int]);
            assert(decreases_to!(*f => f.parts));
            assert(decreases_to!(f.parts => f.parts@[i as int]));
        }
        match resolve_part(program, function, &f.parts[i], depth) {
            Err(e) => {
                proof {
                    lemma_parts_stop(*program, function, all, depth as nat, i + 1);
                }
                return Err(e);
            },
            Ok(p) => {
                let ghost before = out@;
                out.push(p);
                assert(out@.drop_last() =~= before);
            },
        }
        i = i + 1;
    }
    assert(all.take(i as int) =~= all);
    Ok(Rc::new(FormattedString { parts: out, span: f.span }))
}

fn resolve_part(program: &ProgramGeneration, function: SymbolKey, p: &Rc<FormPart>, depth: usize) -> (r:
    Result<Rc<FormPart>, StepError>)
    requires
        depth <= MAX_RUNTIME_FORM_NESTING,
    ensures
        fault::outcome(r) == named_part(*program, function, p@, depth as nat),
    decreases p, 1int,
{
    match &**p {
        FormPart::Interpolation { string, expression, width, alignment } => {
            let e = match resolve_expression_named_indices(
                program,
                function,
                expression,
                depth + 1,
            ) {
                Err(x) => {
                    return Err(x);
                },
                Ok(e) => e,
            };
            let w = match width {
                None => None,
                Some(w) => match resolve_expression_named_indices(
                    program,
                    function,
                    w,
                    depth + 1,
                ) {
                    Err(x) => {
                        return Err(x);
                    },
                    Ok(w) => Some(w),
                },
            };
            Ok(
                Rc::new(
                    FormPart::Interpolation {
                        string: *string,
                        expression: e,
                        width: w,
                        alignment: *alignment,
                    },
                ),
            )
        },
        FormPart::Conditional { condition, then_value, else_value } => {
            let c = match resolve_expression_named_indices(
                program,
                function,
                condition,
                depth + 1,
            ) {
                Err(x) => {
                    return Err(x);
                },
                Ok(c) => c,
            };
            let t = match resolve_named_indices(program, function, then_value, depth + 1) {
                Err(x) => {
                    return Err(x);
                },
                Ok(t) => t,
            };
            let f = match else_value {
                None => None,
                Some(f) => match resolve_named_indices(program, function, f, depth + 1) {
                    Err(x) => {
                        return Err(x);
                    },
                    Ok(f) => Some(f),
                },
            };
            Ok(
                Rc::new(
                    FormPart::Conditional { condition: c, then_value: t, else_value: f },
                ),
            )
        },
        _ => Ok(p.clone()),
    }
}

/// What a parser goes by.
#[derive(Clone, Copy, PartialEq, Eq, Debug, Structural)]
pub struct ParserContext {
    pub allow_full_width_space: bool,
    pub debug_semicolon: bool,
    pub ignore_triple_symbols: bool,
}

/// What a parser of sources of a program goes by.
pub fn parser_context(program: &ProgramGeneration) -> (r: ParserContext)
    ensures
        r.allow_full_width_space == program.call_compatibility.allow_full_width_space,
        r.debug_semicolon == program.call_compatibility.debug_semicolon,
        r.ignore_triple_symbols == program.call_compatibility.ignore_triple_symbols,
{
    let compatibility = program.call_compatibility;
    ParserContext {
        allow_full_width_space: compatibility.allow_full_width_space,
        debug_semicolon: compatibility.debug_semicolon,
        ignore_triple_symbols: compatibility.ignore_triple_symbols,
    }
}

/// What a parser has made of a source.
#[derive(PartialEq, Eq, Debug)]
pub struct ParsedForm {
    pub has_errors: bool,
    pub diagnostics: Vec<String>,
    pub value: Option<Rc<FormattedString>>,
}

/// Mathematical content of a [`ParsedForm`].
pub struct Parsed {
    pub has_errors: bool,
    pub diagnostics: Seq<Seq<char>>,
    pub value: Option<FormTree>,
}

pub open spec fn lines(s: Seq<String>) -> Seq<Seq<char>> {
    s.map_values(|t: String| t@)
}

impl View for ParsedForm {
    type V = Parsed;

    open spec fn view(&self) -> Parsed {
        Parsed {
            has_errors: self.has_errors,
            diagnostics: lines(self.diagnostics@),
            value: forms::optional_form(self.value),
        }
    }
}

/// Texts with a semicolon and a space between them.
pub open spec fn listing(s: Seq<Seq<char>>) -> Seq<char>
    decreases s.len(),
{
    if s.len() == 0 {
        Seq::empty()
    } else if s.len() == 1 {
        s[0]
    } else {
        listing(s.drop_last()) + "; "@ + s.last()
    }
}

/// Joins texts with a semicolon and a space between them.
pub(crate) fn join_lines(s: &Vec<String>) -> (r: String)
    ensures
        r@ == listing(lines(s@)),
{
    let ghost all = lines(s@);
    if s.len() == 0 {
        return String::new();
    }
    let mut out = s[0].clone();
    let mut i: usize = 1;
    assert(all.take(1) =~= seq![s@[0]@]);
    while i < s.len()
        invariant
            1 <= i <= s.len(),
            all == lines(s@),
            out@ == listing(all.take(i as int)),
        decreases s.len() - i,
    {
        proof {
            assert(all.take(i + 1).drop_last() =~= all.take(i as int));
            assert(all.take(i + 1).last() == s@[i as int]@);
        }
        out = text::join3(out.as_str(), "; ", s[i].as_str());
        i = i + 1;
    }
    assert(all.take(i as int) =~= all);
    out
}

/// A source is small and flat enough for the parser.
pub open spec fn source_checked(source: Seq<char>) -> Result<(), Failure> {
    if form_resources::size(source) > MAX_RUNTIME_FORM_BYTES {
        Err(
            form_resources::resource_failure("STRFORM source exceeds the runtime parser limit"@),
        )
    } else {
        preflighted(source)
    }
}

/// Refuses a source that is too large or nested too deep for the parser.
pub fn preflight_source(source: &str) -> (r: Result<(), StepError>)
    ensures
        form_resources::unit_result(r) == source_checked(source@),
{
    if form_resources::byte_count(source) > MAX_RUNTIME_FORM_BYTES {
        return Err(
            form_resources::resource_limit("STRFORM source exceeds the runtime parser limit"),
        );
    }
    preflight_nesting(source)
}

pub open spec fn generation_missing() -> Failure {
    Failure::of(VmFaultCode::MissingSymbol, "STRFORM generation is missing"@)
}

/// What a pass over a formatted text finds.
pub open spec fn form_validated(
    program: ProgramGeneration,
    providers: NativeProviders,
    function: SymbolKey,
    f: FormTree,
    limit: usize,
) -> Result<Plan, Failure> {
    let c = Rules { program, function, probe: false, providers: Some(providers), limit };
    match form_plans::source_found(c, Source::Form(f)) {
        (_, Err(e)) => Err(e),
        (found, Ok(_)) => form_plans::plan_of(Source::Form(f), found),
    }
}

/// A formatted text and its plan, made of what a parser gave.
pub open spec fn form_accepted(
    vm: VmModel,
    providers: NativeProviders,
    generation: GenerationId,
    function: SymbolKey,
    parsed: Parsed,
    limit: usize,
) -> Result<(FormTree, Plan), Failure> {
    match vm.program(generation) {
        None => Err(generation_missing()),
        Some(program) => if parsed.has_errors {
            Err(
                Failure::script(
                    ScriptFaultKind::Parse,
                    VmFaultCode::Native,
                    "STRFORM expansion failed: "@ + listing(parsed.diagnostics),
                ),
            )
        } else {
            match parsed.value {
                None => Err(
                    Failure::of(
                        VmFaultCode::Native,
                        "STRFORM expansion produced no formatted string"@,
                    ),
                ),
                Some(f) => match named_form(program, function, f, 0) {
                    Err(e) => Err(e),
                    Ok(f) => match form_validated(program, providers, function, f, limit) {
                        Err(e) => Err(e),
                        Ok(plan) => Ok((f, plan)),
                    },
                },
            }
        },
    }
}

/// Types a formatted text and binds its calls.
pub fn validate_form(
    program: &ProgramGeneration,
    natives: &NativeProviders,
    function: SymbolKey,
    f: &Rc<FormattedString>,
    limit: usize,
) -> (r: Result<RuntimeCallPlan, StepError>)
    requires
        form_typing::results_scalar(*program),
    ensures
        fault::outcome(r) == form_validated(*program, *natives, function, f@, limit),
{
    let mut analysis = TypeAnalysis::new(program, function, false, limit, Some(natives));
    match analysis.form(f, 0) {
        Err(e) => Err(e),
        Ok(_) => RuntimeCallPlan::from_analysis(RuntimePlanSource::Form(f.clone()), analysis),
    }
}

pub open spec fn parse_result(r: Result<(Rc<FormattedString>, RuntimeCallPlan), StepError>) -> Result<
    (FormTree, Plan),
    Failure,
> {
    match r {
        Ok((f, p)) => Ok((f@, p@)),
        Err(e) => Err(e@),
    }
}

/// Makes a formatted text and its plan of what a parser gave for a source.
pub fn parse_runtime_form(
    vm: &Vm,
    natives: &NativeProviders,
    generation: GenerationId,
    function: SymbolKey,
    parsed: ParsedForm,
    limit: usize,
) -> (r: Result<(Rc<FormattedString>, RuntimeCallPlan), StepError>)
    requires
        match vm@.program(generation) {
            Some(p) => form_typing::results_scalar(p),
            None => true,
        },
    ensures
        parse_result(r) == form_accepted(vm@, *natives, generation, function, parsed@, limit),
{
    let program = match vm.program(generation) {
        None => {
            return Err(
                StepError::new(VmFaultCode::MissingSymbol, "STRFORM generation is missing"),
            );
        },
        Some(p) => p,
    };
    if parsed.has_errors {
        let message = join_lines(&parsed.diagnostics);
        let message = text::join2("STRFORM expansion failed: ", message.as_str());
        return Err(
            StepError::script(ScriptFaultKind::Parse, VmFaultCode::Native, message.as_str()),
        );
    }
    match parsed.value {
        None => Err(
            StepError::new(
                VmFaultCode::Native,
                "STRFORM expansion produced no formatted string",
            ),
        ),
        Some(f) => match resolve_named_indices(&program, function, &f, 0) {
            Err(e) => Err(e),
            Ok(f) => match validate_form(&program, natives, function, &f, limit) {
                Err(e) => Err(e),
                Ok(plan) => Ok((f, plan)),
            },
        },
    }
}

pub open spec fn expression_validated(
    program: ProgramGeneration,
    providers: NativeProviders,
    function: SymbolKey,
    t: Tree,
    limit: usize,
) -> Result<(usize, UserArgumentSpec), Failure> {
    let c = Rules { program, function, probe: false, providers: Some(providers), limit };
    let start = form_typing::Found { nodes: 0, types: Seq::empty(), calls: Seq::empty() };
    match form_typing::typed(c, start, t, 0) {
        (_, Err(e)) => Err(e),
        (found, Ok(kind)) => Ok(
            (found.nodes, form_typing::argument_spec(program, function, t, kind)),
        ),
    }
}

/// Types an expression that stands alone: how many nodes it has and how it is passed.
pub fn validate_runtime_expression(
    program: &ProgramGeneration,
    natives: &NativeProviders,
    function: SymbolKey,
    e: &Rc<Expr>,
    limit: usize,
) -> (r: Result<(usize, UserArgumentSpec), StepError>)
    requires
        form_typing::results_scalar(*program),
    ensures
        match r {
            Ok(pair) => expression_validated(*program, *natives, function, e@, limit) == Ok::<
                (usize, UserArgumentSpec),
                Failure,
            >(pair),
            Err(x) => expression_validated(*program, *natives, function, e@, limit) == Err::<
                (usize, UserArgumentSpec),
                Failure,
            >(x@),
        },
{
    let mut analysis = TypeAnalysis::new(program, function, false, limit, Some(natives));
    match analysis.expression(e, 0) {
        Err(x) => Err(x),
        Ok(kind) => Ok(
            (analysis.nodes(), form_typing::shape_spec(program, function, e, kind)),
        ),
    }
}

} // verus!
