//! Types of the expressions in a formatted text.
//!
//! One pass over a source finds the type of every expression and binds every call. It reads no
//! storage.

use vstd::prelude::*;
use std::rc::Rc;
use crate::ast::{
    self, BinaryOp, Expr, ExprKind, FormPart, FormTree, FormattedString, PartTree, Span, Tree,
    TreeKind, UnaryOp,
};
use crate::bit_calls;
use crate::fault::{self, Failure, ScriptFaultKind, StepError, VmFaultCode};
use crate::form_binding::{self, NativeProviders};
use crate::form_resources;
use crate::forms::{
    self, BoundCall, MatchSource, MatchSpecModel, MethodResult, RuntimeBoundCall,
    MAX_RUNTIME_FORM_NESTING,
};
use crate::lookup;
use crate::memory::BytecodeStorage;
use crate::program::{
    BitCallSpec, BitOperation, BytecodeFunctionKind, BytecodeGlobal, MapOperation, MatchCallSpec,
    MatchInput, ProgramGeneration, RuntimeExpressionShape, RuntimeStagedKind, UserArgumentSpec,
    UserCallMode,
};
use crate::text;
use crate::value::{BytecodeType, SymbolKey};

verus! {

/// What a pass goes by.
pub struct Rules {
    pub program: ProgramGeneration,
    pub function: SymbolKey,
    /// The expression is only asked about, not evaluated.
    pub probe: bool,
    pub providers: Option<NativeProviders>,
    pub limit: usize,
}

/// What a pass has found.
#[verifier::ext_equal]
pub struct Found {
    pub nodes: usize,
    pub types: Seq<(Span, BytecodeType)>,
    pub calls: Seq<(Span, BoundCall)>,
}

/// Every call that a program can bind gives a value.
pub open spec fn results_scalar(program: ProgramGeneration) -> bool {
    &&& forall|i: int, k: int|
        0 <= i < program.native_authorizations@.len() && 0 <= k
            < program.native_authorizations@[i].bindings@.len()
            ==> (#[trigger] program.native_authorizations@[i].bindings@[k]).bound.import.result
            is Some
    &&& forall|i: int, k: int|
        0 <= i < program.host_authorizations@.len() && 0 <= k
            < program.host_authorizations@[i].bindings@.len()
            ==> (#[trigger] program.host_authorizations@[i].bindings@[k]).bound.import.result
            is Some
}

pub open spec fn missing_failure(name: Seq<char>) -> Failure {
    Failure::script(
        ScriptFaultKind::Resolve,
        VmFaultCode::MissingSymbol,
        "runtime expression symbol "@ + name + " is missing"@,
    )
}

/// A name that nothing stands for.
pub fn missing(name: &str) -> (r: StepError)
    ensures
        r@ == missing_failure(name@),
{
    let message = text::join3("runtime expression symbol ", name, " is missing");
    StepError::script(ScriptFaultKind::Resolve, VmFaultCode::MissingSymbol, message.as_str())
}

pub open spec fn bad(message: Seq<char>) -> Failure {
    form_binding::argument_failure(message)
}

/// The variable that an expression stands for.
pub open spec fn definition(program: ProgramGeneration, function: SymbolKey, t: Tree) -> Option<
    BytecodeGlobal,
> {
    match ast::variable_in(t) {
        None => None,
        Some(name) => match program.spec_scoped_variable(function, name) {
            Some(g) => Some(*g),
            None => None,
        },
    }
}

/// The variable that an expression stands for.
pub fn variable<'a>(program: &'a ProgramGeneration, function: SymbolKey, e: &Rc<Expr>) -> (r: Option<
    &'a BytecodeGlobal,
>)
    ensures
        match r {
            Some(g) => definition(*program, function, e@) == Some(*g),
            None => definition(*program, function, e@) is None,
        },
{
    match ast::variable_name(e) {
        None => None,
        Some(name) => program.scoped_variable(function, name.as_str()),
    }
}

/// How an expression is passed to a user function.
pub open spec fn argument_spec(
    program: ProgramGeneration,
    function: SymbolKey,
    t: Tree,
    kind: BytecodeType,
) -> UserArgumentSpec {
    match definition(program, function, t) {
        Some(g) => UserArgumentSpec::Variable(g.key),
        None => UserArgumentSpec::Value(kind),
    }
}

/// How an expression is passed to a user function.
pub fn shape_spec(
    program: &ProgramGeneration,
    function: SymbolKey,
    e: &Rc<Expr>,
    kind: BytecodeType,
) -> (r: UserArgumentSpec)
    ensures
        r == argument_spec(*program, function, e@, kind),
{
    match variable(program, function, e) {
        Some(g) => UserArgumentSpec::Variable(g.key),
        None => UserArgumentSpec::Value(kind),
    }
}

/// What an argument looks like.
pub open spec fn shape_of(
    program: ProgramGeneration,
    function: SymbolKey,
    t: Tree,
    value_type: BytecodeType,
) -> RuntimeExpressionShape {
    let g = definition(program, function, t);
    RuntimeExpressionShape {
        value_type,
        variable: g is Some,
        mutable: g is Some && g->0.mutable,
    }
}

/// What an argument looks like.
pub fn source_shape(
    program: &ProgramGeneration,
    function: SymbolKey,
    e: &Rc<Expr>,
    value_type: BytecodeType,
) -> (r: RuntimeExpressionShape)
    ensures
        r == shape_of(*program, function, e@, value_type),
{
    match variable(program, function, e) {
        Some(g) => RuntimeExpressionShape { value_type, variable: true, mutable: g.mutable },
        None => RuntimeExpressionShape { value_type, variable: false, mutable: false },
    }
}

/// A type is there and is the one that is needed.
pub open spec fn required(actual: Option<BytecodeType>, expected: BytecodeType) -> Result<
    (),
    Failure,
> {
    if actual == Some(expected) {
        Ok(())
    } else {
        Err(bad("runtime expression has an incompatible or omitted type"@))
    }
}

/// Checks that a type is there and is the one that is needed.
pub fn require_type(actual: Option<BytecodeType>, expected: BytecodeType) -> (r: Result<
    (),
    StepError,
>)
    ensures
        form_resources::unit_result(r) == required(actual, expected),
{
    let same = match actual {
        Some(t) => t == expected,
        None => false,
    };
    if same {
        Ok(())
    } else {
        Err(form_binding::bad_type("runtime expression has an incompatible or omitted type"))
    }
}

pub open spec fn is_comparison(op: BinaryOp) -> bool {
    op is Less || op is LessEqual || op is Greater || op is GreaterEqual || op is Equal || op
        is NotEqual
}

/// The type of a binary operation.
pub open spec fn binary_type(op: BinaryOp, left: BytecodeType, right: BytecodeType) -> Result<
    BytecodeType,
    Failure,
> {
    if is_comparison(op) {
        if left == right && (left is Integer || left is String) {
            Ok(BytecodeType::Integer)
        } else {
            Err(bad("STRFORM comparison operands must have the same scalar type"@))
        }
    } else if (op is Plus && left is String && right is String) || (op is Multiply && ((left
        is String && right is Integer) || (left is Integer && right is String))) {
        Ok(BytecodeType::String)
    } else if left is Integer && right is Integer {
        Ok(BytecodeType::Integer)
    } else {
        Err(bad("STRFORM binary operands must be integers"@))
    }
}

pub open spec fn type_result(r: Result<BytecodeType, StepError>) -> Result<BytecodeType, Failure> {
    match r {
        Ok(t) => Ok(t),
        Err(e) => Err(e@),
    }
}

/// The type of a binary operation.
pub fn binary_result_type(op: BinaryOp, left: BytecodeType, right: BytecodeType) -> (r: Result<
    BytecodeType,
    StepError,
>)
    ensures
        type_result(r) == binary_type(op, left, right),
{
    let comparison = match op {
        BinaryOp::Less | BinaryOp::LessEqual | BinaryOp::Greater | BinaryOp::GreaterEqual
        | BinaryOp::Equal | BinaryOp::NotEqual => true,
        _ => false,
    };
    let integers = left == BytecodeType::Integer && right == BytecodeType::Integer;
    let strings = left == BytecodeType::String && right == BytecodeType::String;
    if comparison {
        return if integers || strings {
            Ok(BytecodeType::Integer)
        } else {
            Err(
                form_binding::bad_type(
                    "STRFORM comparison operands must have the same scalar type",
                ),
            )
        };
    }
    let mixed = (left == BytecodeType::String && right == BytecodeType::Integer) || (left
        == BytecodeType::Integer && right == BytecodeType::String);
    if (op == BinaryOp::Plus && strings) || (op == BinaryOp::Multiply && mixed) {
        Ok(BytecodeType::String)
    } else if integers {
        Ok(BytecodeType::Integer)
    } else {
        Err(form_binding::bad_type("STRFORM binary operands must be integers"))
    }
}

/// A literal zero, whatever groups and plus signs stand around it.
pub open spec fn literal_zero(t: Tree) -> bool
    decreases t,
{
    match t.kind {
        TreeKind::Integer(n) => n == 0,
        TreeKind::Group(inner) => literal_zero(*inner),
        TreeKind::Unary(UnaryOp::Plus, inner) => literal_zero(*inner),
        _ => false,
    }
}

/// Tells a literal zero, whatever groups and plus signs stand around it.
pub fn probe_literal_zero(e: &Rc<Expr>) -> (r: bool)
    ensures
        r == literal_zero(e@),
    decreases e,
{
    match &e.kind {
        ExprKind::Integer(n) => *n == 0,
        ExprKind::Group(inner) => probe_literal_zero(inner),
        ExprKind::Unary { op, operand } => match op {
            UnaryOp::Plus => probe_literal_zero(operand),
            _ => false,
        },
        _ => false,
    }
}

/// A variable that is only asked about has as many indices as it may have.
pub open spec fn probe_shape(
    program: ProgramGeneration,
    g: BytecodeGlobal,
    indices: Seq<Tree>,
) -> Result<(), Failure> {
    let rank = g.dimensions@.len();
    let character = g.storage is Character;
    let extra: nat = if character {
        1
    } else {
        0
    };
    let valid = if character && rank == 1 {
        indices.len() == 0 || indices.len() == 2 || (indices.len() == 1
            && !program.call_compatibility.system_no_target)
    } else if rank >= 2 {
        indices.len() == 0 || indices.len() == rank + extra
    } else {
        indices.len() <= rank + extra
    };
    if !valid {
        Err(bad("expression variable index count differs from its schema"@))
    } else if g.storage is Calculated && text::same_ignoring_case(g.name@, "RAND"@)
        && !program.call_compatibility.compatible_rand && (indices.len() == 0 || literal_zero(
        indices[0],
    )) {
        Err(bad("RAND argument is omitted or literal zero"@))
    } else {
        Ok(())
    }
}

/// Checks that a variable that is only asked about has as many indices as it may have.
pub fn probe_variable_shape(
    program: &ProgramGeneration,
    g: &BytecodeGlobal,
    indices: &Vec<Rc<Expr>>,
) -> (r: Result<(), StepError>)
    ensures
        form_resources::unit_result(r) == probe_shape(*program, *g, ast::trees(indices@)),
{
    proof {
        ast::lemma_trees(indices@);
    }
    let rank: usize = g.dimensions.len();
    let count: usize = indices.len();
    let character = g.storage == BytecodeStorage::Character;
    let within = if character {
        count == 0 || count - 1 <= rank
    } else {
        count <= rank
    };
    let full = if character {
        count > 0 && count - 1 == rank
    } else {
        count == rank
    };
    let valid = if character && rank == 1 {
        count == 0 || count == 2 || (count == 1 && !program.call_compatibility.system_no_target)
    } else if rank >= 2 {
        count == 0 || full
    } else {
        within
    };
    if !valid {
        return Err(
            form_binding::bad_type("expression variable index count differs from its schema"),
        );
    }
    if g.storage == BytecodeStorage::Calculated && text::eq_ignore_ascii_case(
        g.name.as_str(),
        "RAND",
    ) && !program.call_compatibility.compatible_rand && (count == 0 || probe_literal_zero(
        &indices[0],
    )) {
        return Err(form_binding::bad_type("RAND argument is omitted or literal zero"));
    }
    Ok(())
}

/// An expression can be incremented and decremented.
pub open spec fn mutable_integer(c: Rules, t: Tree) -> Result<(), Failure> {
    match definition(c.program, c.function, t) {
        None => Err(bad("increment/decrement needs a variable"@)),
        Some(g) => if !g.mutable || g.value_type != BytecodeType::Integer {
            Err(bad("increment/decrement needs a writable Integer"@))
        } else if !c.probe && index_count(t) > g.dimensions@.len() + (if g.storage is Character {
            1nat
        } else {
            0
        }) {
            Err(bad("mutation index count exceeds variable rank"@))
        } else {
            Ok(())
        },
    }
}

/// The number of indices that a variable is given.
pub open spec fn index_count(t: Tree) -> nat {
    match ast::bare(t).kind {
        TreeKind::Variable(_, indices) => indices.len(),
        _ => 0,
    }
}

/// The bits that tell which of the first `n` arguments behind the array are given.
pub open spec fn presence(shapes: Seq<Option<RuntimeExpressionShape>>, n: nat) -> u8
    decreases n,
{
    if n == 0 || n > 3 {
        0
    } else {
        let before = presence(shapes, (n - 1) as nat);
        if n < shapes.len() && shapes[n as int] is Some {
            before | (1u8 << ((n - 1) as u8))
        } else {
            before
        }
    }
}

/// Every argument behind the array that is given is an integer, and there are at most three.
pub open spec fn tail_fits(shapes: Seq<Option<RuntimeExpressionShape>>) -> bool {
    forall|i: int|
        1 <= i < shapes.len() ==> (#[trigger] shapes[i] matches Some(s) ==> s.value_type is Integer
            && i <= 3)
}

/// The operands of a BIT call in a source.
pub open spec fn bit_shaped(
    operation: BitOperation,
    g: Option<BytecodeGlobal>,
    shapes: Seq<Option<RuntimeExpressionShape>>,
) -> Result<BitCallSpec, Failure> {
    match g {
        None => Err(bad("BIT input must be a variable token"@)),
        Some(g) => if !g.mutable || g.value_type != BytecodeType::Integer || g.dimensions@.len()
            != 1 {
            Err(bad("BIT input must be a mutable Integer array of rank one"@))
        } else if shapes.len() > 256 {
            Err(bad("BIT arity exceeds limit"@))
        } else if shapes.len() == 0 || !(shapes[0] matches Some(s) && s.variable && s.mutable
            && s.value_type is Integer) {
            Err(bad("BIT input cannot be omitted or passed by value"@))
        } else if !tail_fits(shapes) {
            Err(bad("BIT tail must contain Integer values"@))
        } else if shapes.len() > 4 {
            Err(bad("BIT argument presence or arity differs"@))
        } else {
            Ok(
                BitCallSpec {
                    operation,
                    input: g.key,
                    tail_count: (shapes.len() - 1) as u8,
                    present: presence(shapes, 3),
                },
            )
        },
    }
}

/// Makes the operands of a BIT call in a source.
#[verifier::loop_isolation(false)]
pub fn validate_shapes(
    operation: BitOperation,
    g: Option<&BytecodeGlobal>,
    shapes: &Vec<Option<RuntimeExpressionShape>>,
) -> (r: Result<BitCallSpec, StepError>)
    ensures
        bit_calls::spec_result(r) == bit_shaped(
            operation,
            match g {
                Some(g) => Some(*g),
                None => None,
            },
            shapes@,
        ),
{
    let g = match g {
        Some(g) => g,
        None => {
            return Err(form_binding::bad_type("BIT input must be a variable token"));
        },
    };
    if !g.mutable || g.value_type != BytecodeType::Integer || g.dimensions.len() != 1 {
        return Err(
            form_binding::bad_type("BIT input must be a mutable Integer array of rank one"),
        );
    }
    if shapes.len() > 256 {
        return Err(form_binding::bad_type("BIT arity exceeds limit"));
    }
    let first = if shapes.len() == 0 {
        false
    } else {
        match shapes[0] {
            Some(s) => s.variable && s.mutable && s.value_type == BytecodeType::Integer,
            None => false,
        }
    };
    if !first {
        return Err(form_binding::bad_type("BIT input cannot be omitted or passed by value"));
    }
    let mut present: u8 = 0;
    let mut i: usize = 1;
    while i < shapes.len()
        invariant
            1 <= i <= shapes.len(),
            forall|j: int|
                1 <= j < i ==> (#[trigger] shapes@[j] matches Some(s) ==> s.value_type is Integer
                    && j <= 3),
            present == presence(
                shapes@,
                if i <= 4 {
                    (i - 1) as nat
                } else {
                    3
                },
            ),
        decreases shapes.len() - i,
    {
        match shapes[i] {
            Some(s) => {
                if s.value_type != BytecodeType::Integer || i > 3 {
                    assert(!tail_fits(shapes@)) by {
                        assert(shapes@[i as int] is Some);
                    }
                    return Err(form_binding::bad_type("BIT tail must contain Integer values"));
                }
                present = present | (1u8 << ((i - 1) as u8));
            },
            None => {},
        }
        i = i + 1;
    }
    if shapes.len() > 4 {
        return Err(form_binding::bad_type("BIT argument presence or arity differs"));
    }
    proof {
        lemma_presence_rest(shapes@, (shapes@.len() - 1) as nat);
    }
    Ok(BitCallSpec { operation, input: g.key, tail_count: (shapes.len() - 1) as u8, present })
}

proof fn lemma_presence_rest(shapes: Seq<Option<RuntimeExpressionShape>>, n: nat)
    requires
        n <= 3,
        shapes.len() <= n + 1,
    ensures
        presence(shapes, 3) == presence(shapes, n),
    decreases 3 - n,
{
    if n < 3 {
        lemma_presence_rest(shapes, n + 1);
    }
}

pub open spec fn match_named(name: Seq<char>) -> bool {
    text::same_ignoring_case(name, "MATCHALL"@) || text::same_ignoring_case(name, "MATCHALLEX"@)
}

/// Tells whether a name means MATCH.
pub fn is_match(name: &str) -> (r: bool)
    ensures
        r == match_named(name@),
{
    text::eq_ignore_ascii_case(name, "MATCHALL") || text::eq_ignore_ascii_case(name, "MATCHALLEX")
}

/// The variable that a MATCH argument stands for.
pub open spec fn match_key(program: ProgramGeneration, function: SymbolKey, t: Tree) -> Result<
    SymbolKey,
    Failure,
> {
    match ast::variable_in(t) {
        None => Err(form_binding::unsupported_failure("MATCH requires a variable token"@)),
        Some(name) => match program.spec_scoped_variable(function, name) {
            None => Err(form_binding::unsupported_failure("MATCH variable token does not exist"@)),
            Some(g) => Ok(g.key),
        },
    }
}

fn match_variable(program: &ProgramGeneration, function: SymbolKey, e: &Rc<Expr>) -> (r: Result<
    SymbolKey,
    StepError,
>)
    ensures
        (match r {
            Ok(k) => Ok(k),
            Err(e) => Err(e@),
        }) == match_key(*program, function, e@),
{
    match ast::variable_name(e) {
        None => Err(form_binding::unsupported("MATCH requires a variable token")),
        Some(name) => match program.scoped_variable(function, name.as_str()) {
            None => Err(form_binding::unsupported("MATCH variable token does not exist")),
            Some(g) => Ok(g.key),
        },
    }
}

/// The type of a MATCH argument, if it is given.
pub open spec fn scalar_at(types: Seq<Option<BytecodeType>>, i: int) -> Result<
    Option<BytecodeType>,
    Failure,
> {
    if i >= types.len() {
        Ok(None)
    } else {
        match types[i] {
            Some(t) => if t is Integer || t is String {
                Ok(Some(t))
            } else {
                Err(form_binding::unsupported_failure("MATCH value is not scalar"@))
            },
            None => Ok(None),
        }
    }
}

fn match_scalar(types: &Vec<Option<BytecodeType>>, i: usize) -> (r: Result<
    Option<BytecodeType>,
    StepError,
>)
    ensures
        (match r {
            Ok(t) => Ok(t),
            Err(e) => Err(e@),
        }) == scalar_at(types@, i as int),
{
    if i >= types.len() {
        return Ok(None);
    }
    match types[i] {
        Some(t) => match t {
            BytecodeType::Integer | BytecodeType::String => Ok(Some(t)),
            _ => Err(form_binding::unsupported("MATCH value is not scalar")),
        },
        None => Ok(None),
    }
}

/// Where a MATCH call searches.
pub open spec fn match_source(
    program: ProgramGeneration,
    function: SymbolKey,
    name: Seq<char>,
    first: Tree,
) -> Result<MatchSource, Failure> {
    if text::same_ignoring_case(name, "MATCHALLEX"@) {
        match ast::bare(first).kind {
            TreeKind::Text(s) => Ok(MatchSource::Name(s)),
            _ => Err(
                form_binding::unsupported_failure("MATCHALLEX requires a source string literal"@),
            ),
        }
    } else {
        match match_key(program, function, first) {
            Ok(k) => Ok(MatchSource::Variable(k)),
            Err(e) => Err(e),
        }
    }
}

/// The variable that a MATCH call writes to, if it is given one.
pub open spec fn match_output(
    program: ProgramGeneration,
    function: SymbolKey,
    arguments: Seq<Option<Tree>>,
) -> Result<Option<SymbolKey>, Failure> {
    if arguments.len() < 5 {
        Ok(None)
    } else {
        match arguments[4] {
            None => Err(form_binding::unsupported_failure("MATCH output omitted"@)),
            Some(t) => match match_key(program, function, t) {
                Ok(k) => Ok(Some(k)),
                Err(e) => Err(e),
            },
        }
    }
}

/// The operands of a MATCH call in a source.
pub open spec fn match_shaped(
    program: ProgramGeneration,
    function: SymbolKey,
    name: Seq<char>,
    arguments: Seq<Option<Tree>>,
    types: Seq<Option<BytecodeType>>,
) -> Result<MatchSpecModel, Failure> {
    if !program.snake_data_apis {
        Err(bit_calls::forbidden("MATCH is unavailable in this identity"@))
    } else if !match_named(name) || arguments.len() < 2 || arguments.len() > 5 || types.len()
        != arguments.len() {
        Err(form_binding::unsupported_failure("MATCH requires two to five arguments"@))
    } else {
        match arguments[0] {
            None => Err(form_binding::unsupported_failure("MATCH input omitted"@)),
            Some(first) => match match_source(program, function, name, first) {
                Err(e) => Err(e),
                Ok(input) => match match_output(program, function, arguments) {
                    Err(e) => Err(e),
                    Ok(output) => match (scalar_at(types, 1), scalar_at(types, 2), scalar_at(
                        types,
                        3,
                    )) {
                        (Err(e), _, _) => Err(e),
                        (Ok(None), _, _) => Err(
                            form_binding::unsupported_failure("MATCH needle omitted"@),
                        ),
                        (_, Err(e), _) => Err(e),
                        (_, _, Err(e)) => Err(e),
                        (Ok(Some(needle)), Ok(begin), Ok(end)) => Ok(
                            MatchSpecModel {
                                input,
                                output,
                                needle,
                                begin_type: match begin {
                                    Some(t) => t,
                                    None => BytecodeType::Integer,
                                },
                                end_type: end,
                            },
                        ),
                    },
                },
            },
        }
    }
}

/// Makes the operands of a MATCH call in a source.
pub fn match_spec(
    program: &ProgramGeneration,
    function: SymbolKey,
    name: &str,
    arguments: &Vec<Option<Rc<Expr>>>,
    types: &Vec<Option<BytecodeType>>,
) -> (r: Result<Rc<MatchCallSpec>, StepError>)
    ensures
        fault::outcome(r) == match_shaped(
            *program,
            function,
            name@,
            ast::argument_trees(arguments@),
            types@,
        ),
{
    proof {
        ast::lemma_argument_trees(arguments@);
    }
    if !program.snake_data_apis {
        return Err(form_binding::permission_denied("MATCH is unavailable in this identity"));
    }
    if !is_match(name) || arguments.len() < 2 || arguments.len() > 5 || types.len()
        != arguments.len() {
        return Err(form_binding::unsupported("MATCH requires two to five arguments"));
    }
    let first = match &arguments[0] {
        Some(e) => e,
        None => {
            return Err(form_binding::unsupported("MATCH input omitted"));
        },
    };
    let input = if text::eq_ignore_ascii_case(name, "MATCHALLEX") {
        let atom = ast::ungroup(first);
        match &atom.kind {
            ExprKind::String(s) => MatchInput::Name(s.clone()),
            _ => {
                return Err(form_binding::unsupported("MATCHALLEX requires a source string literal"));
            },
        }
    } else {
        match match_variable(program, function, first) {
            Ok(k) => MatchInput::Variable(k),
            Err(e) => {
                return Err(e);
            },
        }
    };
    let output = if arguments.len() < 5 {
        None
    } else {
        match &arguments[4] {
            None => {
                return Err(form_binding::unsupported("MATCH output omitted"));
            },
            Some(e) => match match_variable(program, function, e) {
                Ok(k) => Some(k),
                Err(e) => {
                    return Err(e);
                },
            },
        }
    };
    let needle = match match_scalar(types, 1) {
        Err(e) => {
            return Err(e);
        },
        Ok(None) => {
            return Err(form_binding::unsupported("MATCH needle omitted"));
        },
        Ok(Some(t)) => t,
    };
    let begin_type = match match_scalar(types, 2) {
        Err(e) => {
            return Err(e);
        },
        Ok(None) => BytecodeType::Integer,
        Ok(Some(t)) => t,
    };
    let end_type = match match_scalar(types, 3) {
        Err(e) => {
            return Err(e);
        },
        Ok(t) => t,
    };
    Ok(Rc::new(MatchCallSpec { input, output, needle, begin_type, end_type }))
}

/// The output of a map operation that hands out values is an array of texts.
pub open spec fn map_output(m: MapOperation, arity: nat, g: Option<BytecodeGlobal>) -> Result<
    (),
    Failure,
> {
    if m.values && arity == 3 && !(g matches Some(g) && g.value_type is String && g.mutable
        && g.dimensions@.len() == 1) {
        Err(bad("MAP_VALUES output must be a mutable String array of rank one"@))
    } else {
        Ok(())
    }
}

/// Checks the output of a map operation.
pub fn validate_map_output_definition(m: &MapOperation, arity: usize, g: Option<&BytecodeGlobal>) -> (r:
    Result<(), StepError>)
    ensures
        form_resources::unit_result(r) == map_output(
            *m,
            arity as nat,
            match g {
                Some(g) => Some(*g),
                None => None,
            },
        ),
{
    if m.values && arity == 3 {
        let fits = match g {
            Some(g) => g.value_type == BytecodeType::String && g.mutable && g.dimensions.len()
                == 1,
            None => false,
        };
        if !fits {
            return Err(
                form_binding::bad_type(
                    "MAP_VALUES output must be a mutable String array of rank one",
                ),
            );
        }
    }
    Ok(())
}

/// The type that a name for a dynamic method gives.
pub open spec fn method_named(name: Seq<char>) -> Option<MethodResult> {
    if text::same_ignoring_case(name, "GETMETH"@) {
        Some(MethodResult::Integer)
    } else if text::same_ignoring_case(name, "GETMETHS"@) {
        Some(MethodResult::String)
    } else {
        None
    }
}

/// The type that a name for a dynamic method gives.
pub fn method_result(name: &str) -> (r: Option<MethodResult>)
    ensures
        r == method_named(name@),
{
    if text::eq_ignore_ascii_case(name, "GETMETH") {
        Some(MethodResult::Integer)
    } else if text::eq_ignore_ascii_case(name, "GETMETHS") {
        Some(MethodResult::String)
    } else {
        None
    }
}

pub type Shapes = Seq<Option<RuntimeExpressionShape>>;

pub open spec fn shape_types(shapes: Shapes) -> Seq<Option<BytecodeType>> {
    shapes.map_values(
        |s: Option<RuntimeExpressionShape>|
            match s {
                Some(s) => Some(s.value_type),
                None => None,
            },
    )
}

fn types_of(shapes: &Vec<Option<RuntimeExpressionShape>>) -> (r: Vec<Option<BytecodeType>>)
    ensures
        r@ == shape_types(shapes@),
{
    let mut out: Vec<Option<BytecodeType>> = Vec::new();
    let mut i: usize = 0;
    while i < shapes.len()
        invariant
            i <= shapes.len(),
            out@ == shape_types(shapes@.take(i as int)),
        decreases shapes.len() - i,
    {
        out.push(
            match shapes[i] {
                Some(s) => Some(s.value_type),
                None => None,
            },
        );
        i = i + 1;
        assert(out@ =~= shape_types(shapes@.take(i as int)));
    }
    assert(shapes@.take(i as int) =~= shapes@);
    out
}

/// How the arguments of a call are passed to a user function.
pub open spec fn argument_specs(
    program: ProgramGeneration,
    function: SymbolKey,
    arguments: Seq<Option<Tree>>,
    shapes: Shapes,
) -> Seq<UserArgumentSpec> {
    Seq::new(
        arguments.len(),
        |i: int|
            match (shapes[i], arguments[i]) {
                (Some(s), Some(t)) => argument_spec(program, function, t, s.value_type),
                _ => UserArgumentSpec::Omitted,
            },
    )
}

fn specs_of(
    program: &ProgramGeneration,
    function: SymbolKey,
    arguments: &Vec<Option<Rc<Expr>>>,
    shapes: &Vec<Option<RuntimeExpressionShape>>,
) -> (r: Vec<UserArgumentSpec>)
    requires
        shapes@.len() == arguments@.len(),
    ensures
        r@ == argument_specs(*program, function, ast::argument_trees(arguments@), shapes@),
{
    let ghost all = argument_specs(*program, function, ast::argument_trees(arguments@), shapes@);
    proof {
        ast::lemma_argument_trees(arguments@);
    }
    let mut out: Vec<UserArgumentSpec> = Vec::new();
    let mut i: usize = 0;
    while i < arguments.len()
        invariant
            i <= arguments.len(),
            shapes@.len() == arguments@.len(),
            all == argument_specs(
                *program,
                function,
                ast::argument_trees(arguments@),
                shapes@,
            ),
            ast::argument_trees(arguments@).len() == arguments@.len(),
            forall|j: int|
                0 <= j < arguments@.len() ==> #[trigger] ast::argument_trees(arguments@)[j]
                    == ast::argument_tree(arguments@[j]),
            out@.len() == i,
            forall|j: int| 0 <= j < i ==> #[trigger] out@[j] == all[j],
        decreases arguments.len() - i,
    {
        assert(ast::argument_trees(arguments@)[i as int] == ast::argument_tree(
            arguments@[i as int],
        ));
        out.push(
            match (shapes[i], &arguments[i]) {
                (Some(s), Some(e)) => shape_spec(program, function, e, s.value_type),
                _ => UserArgumentSpec::Omitted,
            },
        );
        i = i + 1;
    }
    assert(out@ =~= all);
    out
}

pub open spec fn with_call(s: Found, span: Span, call: BoundCall) -> Found {
    Found { calls: s.calls.push((span, call)), ..s }
}

/// What a call of a user function in a source comes to.
pub open spec fn user_typed(
    c: Rules,
    name: Seq<char>,
    arguments: Seq<Option<Tree>>,
    shapes: Shapes,
) -> Result<BytecodeType, Failure> {
    let target = c.program.spec_function_by_name(name)->0;
    if target.kind != BytecodeFunctionKind::Method {
        Err(bad("runtime target "@ + name + " is not a method"@))
    } else {
        match target.result {
            None => Err(bad("runtime method has no scalar result"@)),
            Some(result) => if !(result is Integer || result is String) {
                Err(bad("runtime method result is not scalar"@))
            } else {
                match form_binding::user_resolved(
                    c.program,
                    name,
                    UserCallMode::Value(result),
                    argument_specs(c.program, c.function, arguments, shapes),
                ) {
                    Err(e) => Err(fault::mapped(e)),
                    Ok(_) => Ok(result),
                }
            },
        }
    }
}

/// What a map call in a source that is evaluated comes to.
pub open spec fn map_typed(
    c: Rules,
    s: Found,
    m: MapOperation,
    name: Seq<char>,
    arguments: Seq<Option<Tree>>,
    shapes: Shapes,
    span: Span,
) -> (Found, Result<BytecodeType, Failure>) {
    if !c.program.map_extensions {
        (s, Err(bit_calls::forbidden("MAP extensions are unavailable in this identity"@)))
    } else {
        match form_binding::native_bound(c.program, name, shapes, c.providers) {
            Err(e) => (s, Err(e)),
            Ok(bound) => if bound.omitted.len() != 0 || has_omitted(arguments)
                || !form_binding::map_takes(m, bound.import.parameters) {
                (s, Err(bad("MAP extension source overload differs"@)))
            } else {
                (with_call(s, span, BoundCall::Native(bound)), Ok(m.result))
            },
        }
    }
}

/// Some argument is omitted.
pub open spec fn has_omitted(arguments: Seq<Option<Tree>>) -> bool {
    exists|i: int| 0 <= i < arguments.len() && #[trigger] arguments[i] is None
}

/// Tells whether some argument is omitted.
pub fn any_omitted(arguments: &Vec<Option<Rc<Expr>>>) -> (r: bool)
    ensures
        r == has_omitted(ast::argument_trees(arguments@)),
{
    proof {
        ast::lemma_argument_trees(arguments@);
    }
    let ghost all = ast::argument_trees(arguments@);
    let mut i: usize = 0;
    while i < arguments.len()
        invariant
            i <= arguments.len(),
            all == ast::argument_trees(arguments@),
            all.len() == arguments@.len(),
            forall|j: int|
                0 <= j < arguments@.len() ==> #[trigger] all[j] == ast::argument_tree(
                    arguments@[j],
                ),
            forall|j: int| 0 <= j < i ==> #[trigger] all[j] is Some,
        decreases arguments.len() - i,
    {
        if arguments[i].is_none() {
            assert(all[i as int] is None);
            return true;
        }
        i = i + 1;
    }
    false
}

/// Types that are all there.
pub open spec fn all_types(types: Seq<Option<BytecodeType>>) -> Option<Seq<BytecodeType>>
    decreases types.len(),
{
    if types.len() == 0 {
        Some(Seq::empty())
    } else {
        match (all_types(types.drop_last()), types.last()) {
            (Some(s), Some(t)) => Some(s.push(t)),
            _ => None,
        }
    }
}

proof fn lemma_all_types_stop(types: Seq<Option<BytecodeType>>, n: int)
    requires
        0 <= n <= types.len(),
        all_types(types.take(n)) is None,
    ensures
        all_types(types) is None,
    decreases types.len() - n,
{
    if n == types.len() {
        assert(types.take(n) =~= types);
    } else {
        assert(types.take(n + 1).drop_last() =~= types.take(n));
        lemma_all_types_stop(types, n + 1);
    }
}

fn present_types(types: &Vec<Option<BytecodeType>>) -> (r: Option<Vec<BytecodeType>>)
    ensures
        match r {
            Some(v) => all_types(types@) == Some(v@),
            None => all_types(types@) is None,
        },
{
    let mut out: Vec<BytecodeType> = Vec::new();
    let mut i: usize = 0;
    assert(types@.take(0) =~= Seq::<Option<BytecodeType>>::empty());
    while i < types.len()
        invariant
            i <= types.len(),
            all_types(types@.take(i as int)) == Some(out@),
        decreases types.len() - i,
    {
        assert(types@.take(i + 1).drop_last() =~= types@.take(i as int));
        match types[i] {
            Some(t) => {
                out.push(t);
            },
            None => {
                proof {
                    lemma_all_types_stop(types@, i + 1);
                }
                return None;
            },
        }
        i = i + 1;
    }
    assert(types@.take(i as int) =~= types@);
    Some(out)
}

/// What an input call in a source comes to.
pub open spec fn input_typed(c: Rules, name: Seq<char>, shapes: Shapes) -> Result<
    BytecodeType,
    Failure,
> {
    if !c.program.snake_input {
        Err(bit_calls::forbidden("snake input form API unavailable"@))
    } else if all_types(shape_types(shapes)) matches Some(parameters) && lookup::first_index(
        c.program.host_imports@,
        form_binding::input_import(name, parameters),
    ) is Some {
        Ok(BytecodeType::Integer)
    } else {
        Err(bad("input form callable signature differs"@))
    }
}

/// What a callable name that is only asked about comes to.
pub open spec fn probe_typed(c: Rules, name: Seq<char>, shapes: Shapes) -> Result<
    BytecodeType,
    Failure,
> {
    match lookup::first_index(c.program.builtins@, form_binding::builtin_named(name)) {
        None => Err(missing_failure(name)),
        Some(i) => if bit_calls::accepts(c.program.builtins@[i].accepted@, shapes) {
            Ok(c.program.builtins@[i].result)
        } else {
            Err(bad("expression callable "@ + name + " has incompatible arguments"@))
        },
    }
}

/// What a host call in a source comes to.
pub open spec fn host_typed(
    c: Rules,
    s: Found,
    name: Seq<char>,
    arguments: Seq<Option<Tree>>,
    shapes: Shapes,
    span: Span,
) -> (Found, Result<BytecodeType, Failure>) {
    match form_binding::source_tokens(c.program, c.function, name, arguments) {
        Err(e) => (s, Err(e)),
        Ok(_) => match form_binding::host_bound(c.program, name, shapes) {
            Err(e) => (s, Err(e)),
            Ok(bound) => (
                with_call(s, span, BoundCall::Host(bound)),
                Ok(bound.import.result->0),
            ),
        },
    }
}

/// What a service call in a source comes to.
pub open spec fn native_typed(c: Rules, s: Found, name: Seq<char>, shapes: Shapes, span: Span) -> (
    Found,
    Result<BytecodeType, Failure>,
) {
    match form_binding::native_bound(c.program, name, shapes, c.providers) {
        Err(e) => (s, Err(e)),
        Ok(bound) => (
            with_call(s, span, BoundCall::Native(bound)),
            Ok(bound.import.result->0),
        ),
    }
}

pub open spec fn type_at(types: Seq<Option<BytecodeType>>, i: int) -> Option<BytecodeType> {
    if i < types.len() {
        types[i]
    } else {
        None
    }
}

/// What EXISTVAR in a source comes to.
pub open spec fn existvar_typed(program: ProgramGeneration, types: Seq<Option<BytecodeType>>) -> Result<
    BytecodeType,
    Failure,
> {
    let max: nat = if program.existvar_expression_probe {
        2
    } else {
        1
    };
    if types.len() == 0 || types.len() > max {
        Err(bad("EXISTVAR expects String and optional Integer mode"@))
    } else {
        match required(types[0], BytecodeType::String) {
            Err(e) => Err(e),
            Ok(_) => if types.len() > 1 && types[1] is Some && types[1]
                != Some(BytecodeType::Integer) {
                Err(bad("runtime expression has an incompatible or omitted type"@))
            } else {
                Ok(BytecodeType::Integer)
            },
        }
    }
}

/// What a nested formatted text in a source comes to.
pub open spec fn nested_typed(c: Rules, name: Seq<char>, types: Seq<Option<BytecodeType>>) -> Result<
    BytecodeType,
    Failure,
> {
    match form_binding::authorized(c.program, name) {
        Err(e) => Err(e),
        Ok(family) => match (match c.providers {
            Some(p) => form_binding::provider_checked(p, family),
            None => Ok(()),
        }) {
            Err(e) => Err(e),
            Ok(_) => if types.len() != 1 {
                Err(bad("formatted-string function expects one String"@))
            } else {
                match required(types[0], BytecodeType::String) {
                    Err(e) => Err(e),
                    Ok(_) => if text::same_ignoring_case(name, "STRFORMCHECK"@) {
                        Ok(BytecodeType::Integer)
                    } else {
                        Ok(BytecodeType::String)
                    },
                }
            },
        },
    }
}

/// What a dynamic method in a source comes to.
pub open spec fn method_typed(result: MethodResult, types: Seq<Option<BytecodeType>>) -> Result<
    BytecodeType,
    Failure,
> {
    match required(type_at(types, 0), BytecodeType::String) {
        Err(e) => Err(e),
        Ok(_) => match type_at(types, 1) {
            Some(fallback) => match required(Some(fallback), result.kind()) {
                Err(e) => Err(e),
                Ok(_) => Ok(result.kind()),
            },
            None => Ok(result.kind()),
        },
    }
}

pub open spec fn is_nested(name: Seq<char>) -> bool {
    text::same_ignoring_case(name, "STRFORM"@) || text::same_ignoring_case(name, "STRFORMCHECK"@)
}

/// What a call of a callable name of the language comes to.
pub open spec fn normal_typed(c: Rules, s: Found, name: Seq<char>, shapes: Shapes, span: Span) -> (
    Found,
    Result<BytecodeType, Failure>,
) {
    let types = shape_types(shapes);
    match method_named(name) {
        Some(result) => (s, method_typed(result, types)),
        None => if text::same_ignoring_case(name, "EXISTMETH"@) {
            (
                s,
                match form_binding::authorized(c.program, name) {
                    Err(e) => Err(e),
                    Ok(_) => if types.len() != 1 {
                        Err(bad("EXISTMETH expects one String"@))
                    } else {
                        match required(types[0], BytecodeType::String) {
                            Err(e) => Err(e),
                            Ok(_) => Ok(BytecodeType::Integer),
                        }
                    },
                },
            )
        } else if text::same_ignoring_case(name, "EXISTVAR"@) {
            (s, existvar_typed(c.program, types))
        } else if is_nested(name) {
            (s, nested_typed(c, name, types))
        } else {
            native_typed(c, s, name, shapes, span)
        },
    }
}

/// The first argument of a call, if it is given.
pub open spec fn argument_at(arguments: Seq<Option<Tree>>, i: int) -> Option<Tree> {
    if 0 <= i < arguments.len() {
        arguments[i]
    } else {
        None
    }
}

pub open spec fn argument_definition(c: Rules, arguments: Seq<Option<Tree>>, i: int) -> Option<
    BytecodeGlobal,
> {
    match argument_at(arguments, i) {
        Some(t) => definition(c.program, c.function, t),
        None => None,
    }
}

/// The staged part of a call: its result, or nothing where the search for a meaning goes on.
pub open spec fn bit_typed(
    c: Rules,
    s: Found,
    operation: BitOperation,
    name: Seq<char>,
    arguments: Seq<Option<Tree>>,
    shapes: Shapes,
    span: Span,
) -> (Found, Result<Option<BytecodeType>, Failure>) {
    match (if c.probe {
        Ok(())
    } else {
        form_binding::staged_authorized(
            c.program,
            name,
            RuntimeStagedKind::Bit(operation),
            shapes,
        )
    }) {
        Err(e) => (s, Err(e)),
        Ok(_) => match bit_shaped(operation, argument_definition(c, arguments, 0), shapes) {
            Err(e) => (s, Err(e)),
            Ok(spec) => if c.probe {
                (s, Ok(None))
            } else {
                (with_call(s, span, BoundCall::Bit(spec)), Ok(Some(BytecodeType::Integer)))
            },
        },
    }
}

pub open spec fn match_kind(name: Seq<char>) -> RuntimeStagedKind {
    if text::same_ignoring_case(name, "MATCHALLEX"@) {
        RuntimeStagedKind::MatchAllEx
    } else {
        RuntimeStagedKind::MatchAll
    }
}

/// The MATCH part of a call: its result, or nothing where the search for a meaning goes on.
pub open spec fn match_typed(
    c: Rules,
    s: Found,
    name: Seq<char>,
    arguments: Seq<Option<Tree>>,
    shapes: Shapes,
    span: Span,
) -> (Found, Result<Option<BytecodeType>, Failure>) {
    match (if c.probe {
        Ok(())
    } else {
        form_binding::staged_authorized(c.program, name, match_kind(name), shapes)
    }) {
        Err(e) => (s, Err(e)),
        Ok(_) => match match_shaped(
            c.program,
            c.function,
            name,
            arguments,
            shape_types(shapes),
        ) {
            Err(e) => (s, Err(e)),
            Ok(spec) => if c.probe {
                (s, Ok(None))
            } else {
                (with_call(s, span, BoundCall::Match(spec)), Ok(Some(BytecodeType::Integer)))
            },
        },
    }
}

/// What a call in a source comes to, once it is no user function and no staged operation.
pub open spec fn other_typed(
    c: Rules,
    s: Found,
    name: Seq<char>,
    arguments: Seq<Option<Tree>>,
    shapes: Shapes,
    span: Span,
) -> (Found, Result<BytecodeType, Failure>) {
    if form_binding::input_named(name) is Some {
        (s, input_typed(c, name, shapes))
    } else if c.probe {
        (s, probe_typed(c, name, shapes))
    } else if form_binding::host_family_named(c.program, name) is Some {
        host_typed(c, s, name, arguments, shapes, span)
    } else {
        normal_typed(c, s, name, shapes, span)
    }
}

/// What a call in a source comes to, once it is no user function, BIT or MATCH.
pub open spec fn mapped_typed(
    c: Rules,
    s: Found,
    name: Seq<char>,
    arguments: Seq<Option<Tree>>,
    shapes: Shapes,
    span: Span,
) -> (Found, Result<BytecodeType, Failure>) {
    match form_binding::map_kind(c.program, name) {
        None => other_typed(c, s, name, arguments, shapes, span),
        Some(kind) => {
            let m = c.program.map_operations@[kind];
            match map_output(m, arguments.len(), argument_definition(c, arguments, 1)) {
                Err(e) => (s, Err(e)),
                Ok(_) => if c.probe {
                    other_typed(c, s, name, arguments, shapes, span)
                } else {
                    map_typed(c, s, m, name, arguments, shapes, span)
                },
            }
        },
    }
}

/// What a call in a source comes to, once it is no user function and no BIT operation.
pub open spec fn matched_typed(
    c: Rules,
    s: Found,
    name: Seq<char>,
    arguments: Seq<Option<Tree>>,
    shapes: Shapes,
    span: Span,
) -> (Found, Result<BytecodeType, Failure>) {
    if match_named(name) {
        match match_typed(c, s, name, arguments, shapes, span) {
            (s1, Err(e)) => (s1, Err(e)),
            (s1, Ok(Some(t))) => (s1, Ok(t)),
            (s1, Ok(None)) => mapped_typed(c, s1, name, arguments, shapes, span),
        }
    } else {
        mapped_typed(c, s, name, arguments, shapes, span)
    }
}

/// What a call in a source comes to.
///
/// A user function comes first, then the BIT, MATCH and map operations, the input operations,
/// and last the services of the host and the machine.
#[verifier::opaque]
pub open spec fn call_typed(
    c: Rules,
    s: Found,
    name: Seq<char>,
    arguments: Seq<Option<Tree>>,
    shapes: Shapes,
    span: Span,
) -> (Found, Result<BytecodeType, Failure>) {
    if c.program.spec_function_by_name(name) is Some {
        (s, user_typed(c, name, arguments, shapes))
    } else {
        match form_binding::bit_named(name) {
            Some(operation) => match bit_typed(c, s, operation, name, arguments, shapes, span) {
                (s1, Err(e)) => (s1, Err(e)),
                (s1, Ok(Some(t))) => (s1, Ok(t)),
                (s1, Ok(None)) => matched_typed(c, s1, name, arguments, shapes, span),
            },
            None => matched_typed(c, s, name, arguments, shapes, span),
        }
    }
}

/// One more node is visited.
pub open spec fn visited(c: Rules, s: Found, depth: nat) -> (Found, Result<(), Failure>) {
    if depth > MAX_RUNTIME_FORM_NESTING {
        (
            s,
            Err(
                form_resources::resource_failure("runtime expression type nesting exceeds limit"@),
            ),
        )
    } else if s.nodes >= c.limit {
        (
            s,
            Err(
                form_resources::resource_failure(
                    "runtime expression AST exceeds the VM operand limit"@,
                ),
            ),
        )
    } else {
        (Found { nodes: (s.nodes + 1) as usize, ..s }, Ok(()))
    }
}

/// The type of an expression, and what the pass has found after it.
pub open spec fn typed(c: Rules, s: Found, t: Tree, depth: nat) -> (
    Found,
    Result<BytecodeType, Failure>,
)
    decreases t, 1int,
{
    match visited(c, s, depth) {
        (s1, Err(e)) => (s1, Err(e)),
        (s1, Ok(_)) => match typed_kind(c, s1, t, depth) {
            (s2, Err(e)) => (s2, Err(e)),
            (s2, Ok(ty)) => (Found { types: s2.types.push((t.span, ty)), ..s2 }, Ok(ty)),
        },
    }
}

pub open spec fn typed_kind(c: Rules, s: Found, t: Tree, depth: nat) -> (
    Found,
    Result<BytecodeType, Failure>,
)
    decreases t, 0int,
{
    match t.kind {
        TreeKind::Integer(_) => (s, Ok(BytecodeType::Integer)),
        TreeKind::Text(_) => (s, Ok(BytecodeType::String)),
        TreeKind::Formatted(f) => match typed_form(c, s, f, depth + 1) {
            (s1, Err(e)) => (s1, Err(e)),
            (s1, Ok(_)) => (s1, Ok(BytecodeType::String)),
        },
        TreeKind::Identifier(name) => match c.program.spec_scoped_variable(c.function, name) {
            None => (s, Err(missing_failure(name))),
            Some(g) => match (if c.probe {
                probe_shape(c.program, *g, Seq::empty())
            } else {
                Ok(())
            }) {
                Err(e) => (s, Err(e)),
                Ok(_) => (s, Ok(g.value_type)),
            },
        },
        TreeKind::Variable(name, indices) => match c.program.spec_scoped_variable(
            c.function,
            name,
        ) {
            None => (s, Err(missing_failure(name))),
            Some(g) => match (if c.probe {
                probe_shape(c.program, *g, indices)
            } else {
                Ok(())
            }) {
                Err(e) => (s, Err(e)),
                Ok(_) => match typed_indices(c, s, indices, depth + 1) {
                    (s1, Err(e)) => (s1, Err(e)),
                    (s1, Ok(_)) => (s1, Ok(g.value_type)),
                },
            },
        },
        TreeKind::Group(inner) => typed(c, s, *inner, depth + 1),
        TreeKind::Unary(op, operand) => match typed(c, s, *operand, depth + 1) {
            (s1, Err(e)) => (s1, Err(e)),
            (s1, Ok(ty)) => match (if op is PreIncrement || op is PreDecrement {
                mutable_integer(c, *operand)
            } else {
                Ok(())
            }) {
                Err(e) => (s1, Err(e)),
                Ok(_) => match required(Some(ty), BytecodeType::Integer) {
                    Err(e) => (s1, Err(e)),
                    Ok(_) => (s1, Ok(BytecodeType::Integer)),
                },
            },
        },
        TreeKind::Postfix(_, operand) => match typed(c, s, *operand, depth + 1) {
            (s1, Err(e)) => (s1, Err(e)),
            (s1, Ok(ty)) => match mutable_integer(c, *operand) {
                Err(e) => (s1, Err(e)),
                Ok(_) => match required(Some(ty), BytecodeType::Integer) {
                    Err(e) => (s1, Err(e)),
                    Ok(_) => (s1, Ok(BytecodeType::Integer)),
                },
            },
        },
        TreeKind::Call(name, arguments) => match arguments_typed(c, s, arguments, depth + 1) {
            (s1, Err(e)) => (s1, Err(e)),
            (s1, Ok(shapes)) => call_typed(c, s1, name, arguments, shapes, t.span),
        },
        TreeKind::Binary(op, left, right) => match typed(c, s, *left, depth + 1) {
            (s1, Err(e)) => (s1, Err(e)),
            (s1, Ok(l)) => match typed(c, s1, *right, depth + 1) {
                (s2, Err(e)) => (s2, Err(e)),
                (s2, Ok(r)) => (s2, binary_type(op, l, r)),
            },
        },
        TreeKind::Ternary(condition, then_expr, else_expr) => match typed(
            c,
            s,
            *condition,
            depth + 1,
        ) {
            (s1, Err(e)) => (s1, Err(e)),
            (s1, Ok(ty)) => match required(Some(ty), BytecodeType::Integer) {
                Err(e) => (s1, Err(e)),
                Ok(_) => match typed(c, s1, *then_expr, depth + 1) {
                    (s2, Err(e)) => (s2, Err(e)),
                    (s2, Ok(a)) => match typed(c, s2, *else_expr, depth + 1) {
                        (s3, Err(e)) => (s3, Err(e)),
                        (s3, Ok(b)) => match required(Some(b), a) {
                            Err(e) => (s3, Err(e)),
                            Ok(_) => (s3, Ok(a)),
                        },
                    },
                },
            },
        },
        TreeKind::Error => (s, Err(bad("runtime expression contains a parser error"@))),
    }
}

pub open spec fn typed_indices(c: Rules, s: Found, indices: Seq<Tree>, depth: nat) -> (
    Found,
    Result<(), Failure>,
)
    decreases indices, 0int,
{
    if indices.len() == 0 {
        (s, Ok(()))
    } else {
        match typed_indices(c, s, indices.drop_last(), depth) {
            (s1, Err(e)) => (s1, Err(e)),
            (s1, Ok(_)) => match typed(c, s1, indices[indices.len() - 1], depth) {
                (s2, Err(e)) => (s2, Err(e)),
                (s2, Ok(ty)) => if ty is Integer || (c.probe && ty is String) {
                    (s2, Ok(()))
                } else {
                    (s2, Err(bad("runtime variable index must be an integer"@)))
                },
            },
        }
    }
}

/// The shapes of the arguments of a call.
pub open spec fn arguments_typed(c: Rules, s: Found, arguments: Seq<Option<Tree>>, depth: nat) -> (
    Found,
    Result<Shapes, Failure>,
)
    decreases arguments, 1int,
{
    if arguments.len() > 65535 || arguments.len() + s.nodes > (if s.nodes <= c.limit {
        c.limit
    } else {
        s.nodes
    }) {
        (
            s,
            Err(
                form_resources::resource_failure(
                    "runtime Native source arguments exceed operand limit"@,
                ),
            ),
        )
    } else {
        typed_arguments(c, s, arguments, depth)
    }
}

pub open spec fn typed_arguments(c: Rules, s: Found, arguments: Seq<Option<Tree>>, depth: nat) -> (
    Found,
    Result<Shapes, Failure>,
)
    decreases arguments, 0int,
{
    if arguments.len() == 0 {
        (s, Ok(Seq::empty()))
    } else {
        match typed_arguments(c, s, arguments.drop_last(), depth) {
            (s1, Err(e)) => (s1, Err(e)),
            (s1, Ok(shapes)) => match arguments[arguments.len() - 1] {
                None => (s1, Ok(shapes.push(None))),
                Some(t) => match typed(c, s1, t, depth) {
                    (s2, Err(e)) => (s2, Err(e)),
                    (s2, Ok(ty)) => (
                        s2,
                        Ok(shapes.push(Some(shape_of(c.program, c.function, t, ty)))),
                    ),
                },
            },
        }
    }
}

/// The variables that a triple symbol reads: the text and the character.
pub open spec fn triple_names(symbol: char) -> Option<(Seq<char>, Seq<char>)> {
    if symbol == '*' {
        Some(("NAME"@, "TARGET"@))
    } else if symbol == '+' {
        Some(("CALLNAME"@, "MASTER"@))
    } else if symbol == '=' {
        Some(("CALLNAME"@, "PLAYER"@))
    } else if symbol == '/' {
        Some(("NAME"@, "ASSI"@))
    } else if symbol == '$' {
        Some(("CALLNAME"@, "TARGET"@))
    } else {
        None
    }
}

/// The variables that a triple symbol reads: the text and the character.
pub fn triple_variables(symbol: char) -> (r: Option<(&'static str, &'static str)>)
    ensures
        match r {
            Some((a, b)) => triple_names(symbol) == Some((a@, b@)),
            None => triple_names(symbol) is None,
        },
{
    if symbol == '*' {
        Some(("NAME", "TARGET"))
    } else if symbol == '+' {
        Some(("CALLNAME", "MASTER"))
    } else if symbol == '=' {
        Some(("CALLNAME", "PLAYER"))
    } else if symbol == '/' {
        Some(("NAME", "ASSI"))
    } else if symbol == '$' {
        Some(("CALLNAME", "TARGET"))
    } else {
        None
    }
}

pub open spec fn triple_unsupported(symbol: char) -> Failure {
    form_binding::unsupported_failure(
        "STRFORM triple symbol "@ + text::quoted(symbol) + " is unsupported"@,
    )
}

/// A triple symbol that means nothing.
pub fn unsupported_triple(symbol: char) -> (r: StepError)
    ensures
        r@ == triple_unsupported(symbol),
{
    let quoted = text::quote_char(symbol);
    let message = text::join3("STRFORM triple symbol ", quoted.as_str(), " is unsupported");
    form_binding::unsupported(message.as_str())
}

/// A formatted text is well typed; what the pass has found after it.
pub open spec fn typed_form(c: Rules, s: Found, f: FormTree, depth: nat) -> (
    Found,
    Result<(), Failure>,
)
    decreases f, 0int,
{
    match visited(c, s, depth) {
        (s1, Err(e)) => (s1, Err(e)),
        (s1, Ok(_)) => typed_parts(c, s1, f.parts, depth),
    }
}

pub open spec fn typed_parts(c: Rules, s: Found, parts: Seq<PartTree>, depth: nat) -> (
    Found,
    Result<(), Failure>,
)
    decreases parts, 0int,
{
    if parts.len() == 0 {
        (s, Ok(()))
    } else {
        match typed_parts(c, s, parts.drop_last(), depth) {
            (s1, Err(e)) => (s1, Err(e)),
            (s1, Ok(_)) => typed_part(c, s1, parts[parts.len() - 1], depth),
        }
    }
}

/// The type of an expression is the one that is needed.
pub open spec fn as_type(r: (Found, Result<BytecodeType, Failure>), expected: BytecodeType) -> (
    Found,
    Result<(), Failure>,
) {
    match r {
        (s, Err(e)) => (s, Err(e)),
        (s, Ok(ty)) => (s, required(Some(ty), expected)),
    }
}

pub open spec fn typed_part(c: Rules, s: Found, p: PartTree, depth: nat) -> (
    Found,
    Result<(), Failure>,
)
    decreases p, 1int,
{
    match visited(c, s, depth) {
        (s1, Err(e)) => (s1, Err(e)),
        (s1, Ok(_)) => typed_part_kind(c, s1, p, depth),
    }
}

pub open spec fn typed_part_kind(c: Rules, s: Found, p: PartTree, depth: nat) -> (
    Found,
    Result<(), Failure>,
)
    decreases p, 0int,
{
    match p {
        PartTree::Text(_) => (s, Ok(())),
        PartTree::Triple(symbol) => match triple_names(symbol) {
            None => (s, Err(triple_unsupported(symbol))),
            Some((value, index)) => if c.program.spec_scoped_variable(c.function, value)
                is None {
                (s, Err(missing_failure(value)))
            } else if c.program.spec_scoped_variable(c.function, index) is None {
                (s, Err(missing_failure(index)))
            } else {
                (s, Ok(()))
            },
        },
        PartTree::Interpolation(string, e, width, _) => match as_type(
            typed(c, s, *e, depth + 1),
            if string {
                BytecodeType::String
            } else {
                BytecodeType::Integer
            },
        ) {
            (s2, Err(e)) => (s2, Err(e)),
            (s2, Ok(_)) => match width {
                None => (s2, Ok(())),
                Some(w) => as_type(typed(c, s2, *w, depth + 1), BytecodeType::Integer),
            },
        },
        PartTree::Conditional(condition, then_value, else_value) => match as_type(
            typed(c, s, *condition, depth + 1),
            BytecodeType::Integer,
        ) {
            (s2, Err(e)) => (s2, Err(e)),
            (s2, Ok(_)) => match typed_form(c, s2, then_value, depth + 1) {
                (s3, Err(e)) => (s3, Err(e)),
                (s3, Ok(_)) => match else_value {
                    None => (s3, Ok(())),
                    Some(f) => typed_form(c, s3, f, depth + 1),
                },
            },
        },
    }
}

/// One pass over a source.
pub struct TypeAnalysis<'a> {
    pub program: &'a ProgramGeneration,
    pub function: SymbolKey,
    pub probe: bool,
    pub natives: Option<&'a NativeProviders>,
    pub nodes: usize,
    pub limit: usize,
    pub source_types: Vec<(Span, BytecodeType)>,
    pub bound_calls: Vec<(Span, RuntimeBoundCall)>,
}

impl<'a> View for TypeAnalysis<'a> {
    type V = Found;

    open spec fn view(&self) -> Found {
        Found {
            nodes: self.nodes,
            types: self.source_types@,
            calls: forms::call_views(self.bound_calls@),
        }
    }
}

pub open spec fn shapes_result(r: Result<Vec<Option<RuntimeExpressionShape>>, StepError>) -> Result<
    Shapes,
    Failure,
> {
    match r {
        Ok(v) => Ok(v@),
        Err(e) => Err(e@),
    }
}

pub open spec fn stage_result(r: Result<Option<BytecodeType>, StepError>) -> Result<
    Option<BytecodeType>,
    Failure,
> {
    match r {
        Ok(t) => Ok(t),
        Err(e) => Err(e@),
    }
}

impl<'a> TypeAnalysis<'a> {
    /// What this pass goes by.
    pub open spec fn rules(&self) -> Rules {
        Rules {
            program: *self.program,
            function: self.function,
            probe: self.probe,
            providers: form_binding::provider_view(self.natives),
            limit: self.limit,
        }
    }

    /// A pass that has found nothing yet.
    pub fn new(
        program: &'a ProgramGeneration,
        function: SymbolKey,
        probe: bool,
        limit: usize,
        natives: Option<&'a NativeProviders>,
    ) -> (r: TypeAnalysis<'a>)
        ensures
            r.rules() == (Rules {
                program: *program,
                function,
                probe,
                providers: form_binding::provider_view(natives),
                limit,
            }),
            r@ == (Found { nodes: 0, types: Seq::empty(), calls: Seq::empty() }),
    {
        let r = TypeAnalysis {
            program,
            function,
            probe,
            natives,
            nodes: 0,
            limit,
            source_types: Vec::new(),
            bound_calls: Vec::new(),
        };
        assert(forms::call_views(r.bound_calls@) =~= Seq::empty());
        r
    }

    /// The number of nodes that were visited.
    pub fn nodes(&self) -> (r: usize)
        ensures
            r == self@.nodes,
    {
        self.nodes
    }

    fn visit(&mut self, depth: usize) -> (r: Result<(), StepError>)
        ensures
            final(self).rules() == old(self).rules(),
            (final(self)@, form_resources::unit_result(r)) == visited(
                old(self).rules(),
                old(self)@,
                depth as nat,
            ),
            r is Ok ==> depth <= MAX_RUNTIME_FORM_NESTING,
    {
        if depth > MAX_RUNTIME_FORM_NESTING {
            return Err(
                form_resources::resource_limit("runtime expression type nesting exceeds limit"),
            );
        }
        if self.nodes >= self.limit {
            return Err(
                form_resources::resource_limit(
                    "runtime expression AST exceeds the VM operand limit",
                ),
            );
        }
        self.nodes = self.nodes + 1;
        Ok(())
    }

    fn push_call(&mut self, span: Span, call: RuntimeBoundCall)
        ensures
            final(self).rules() == old(self).rules(),
            final(self)@ == with_call(old(self)@, span, call@),
    {
        self.bound_calls.push((span, call));
        assert(forms::call_views(self.bound_calls@) =~= forms::call_views(
            old(self).bound_calls@,
        ).push((span, call@)));
    }

    fn check_mutable(&self, e: &Rc<Expr>) -> (r: Result<(), StepError>)
        ensures
            form_resources::unit_result(r) == mutable_integer(self.rules(), e@),
    {
        let g = match variable(self.program, self.function, e) {
            Some(g) => g,
            None => {
                return Err(form_binding::bad_type("increment/decrement needs a variable"));
            },
        };
        if !g.mutable || g.value_type != BytecodeType::Integer {
            return Err(form_binding::bad_type("increment/decrement needs a writable Integer"));
        }
        if !self.probe {
            let inner = ast::ungroup(e);
            let count: usize = match &inner.kind {
                ExprKind::Variable { indices, .. } => {
                    proof {
                        ast::lemma_trees(indices@);
                    }
                    indices.len()
                },
                _ => 0,
            };
            assert(count == index_count(e@));
            let character = g.storage == BytecodeStorage::Character;
            let over = if character {
                count > 0 && count - 1 > g.dimensions.len()
            } else {
                count > g.dimensions.len()
            };
            if over {
                return Err(form_binding::bad_type("mutation index count exceeds variable rank"));
            }
        }
        Ok(())
    }

    fn user_call(
        &self,
        name: &str,
        arguments: &Vec<Option<Rc<Expr>>>,
        shapes: &Vec<Option<RuntimeExpressionShape>>,
    ) -> (r: Result<BytecodeType, StepError>)
        requires
            self.rules().program.spec_function_by_name(name@) is Some,
            shapes@.len() == arguments@.len(),
        ensures
            type_result(r) == user_typed(
                self.rules(),
                name@,
                ast::argument_trees(arguments@),
                shapes@,
            ),
    {
        let target = match self.program.function_by_name(name) {
            Some(t) => t,
            None => {
                return Err(missing(name));
            },
        };
        match target.kind {
            BytecodeFunctionKind::Method => {},
            _ => {
                let message = text::join3("runtime target ", name, " is not a method");
                return Err(form_binding::bad_type(message.as_str()));
            },
        }
        let result = match target.result {
            None => {
                return Err(form_binding::bad_type("runtime method has no scalar result"));
            },
            Some(t) => t,
        };
        match result {
            BytecodeType::Integer | BytecodeType::String => {},
            _ => {
                return Err(form_binding::bad_type("runtime method result is not scalar"));
            },
        }
        let specs = specs_of(self.program, self.function, arguments, shapes);
        match form_binding::resolve_user_call(
            self.program,
            name,
            UserCallMode::Value(result),
            &specs,
        ) {
            Err(e) => Err(fault::map_vm_error(e)),
            Ok(_) => Ok(result),
        }
    }

    fn definition_at(&self, arguments: &Vec<Option<Rc<Expr>>>, i: usize) -> (r: Option<
        &'a BytecodeGlobal,
    >)
        ensures
            match r {
                Some(g) => argument_definition(
                    self.rules(),
                    ast::argument_trees(arguments@),
                    i as int,
                ) == Some(*g),
                None => argument_definition(
                    self.rules(),
                    ast::argument_trees(arguments@),
                    i as int,
                ) is None,
            },
    {
        proof {
            ast::lemma_argument_trees(arguments@);
        }
        if i >= arguments.len() {
            return None;
        }
        assert(ast::argument_trees(arguments@)[i as int] == ast::argument_tree(
            arguments@[i as int],
        ));
        match &arguments[i] {
            Some(e) => variable(self.program, self.function, e),
            None => None,
        }
    }

    fn bit_call(
        &mut self,
        operation: BitOperation,
        name: &str,
        arguments: &Vec<Option<Rc<Expr>>>,
        shapes: &Vec<Option<RuntimeExpressionShape>>,
        span: Span,
    ) -> (r: Result<Option<BytecodeType>, StepError>)
        ensures
            final(self).rules() == old(self).rules(),
            (final(self)@, stage_result(r)) == bit_typed(
                old(self).rules(),
                old(self)@,
                operation,
                name@,
                ast::argument_trees(arguments@),
                shapes@,
                span,
            ),
    {
        if !self.probe {
            match form_binding::authorize(
                self.program,
                name,
                RuntimeStagedKind::Bit(operation),
                shapes,
            ) {
                Err(e) => {
                    return Err(e);
                },
                Ok(_) => {},
            }
        }
        let g = self.definition_at(arguments, 0);
        let spec = match validate_shapes(operation, g, shapes) {
            Err(e) => {
                return Err(e);
            },
            Ok(s) => s,
        };
        if self.probe {
            Ok(None)
        } else {
            self.push_call(span, RuntimeBoundCall::Bit(spec));
            Ok(Some(BytecodeType::Integer))
        }
    }

    fn match_call(
        &mut self,
        name: &str,
        arguments: &Vec<Option<Rc<Expr>>>,
        shapes: &Vec<Option<RuntimeExpressionShape>>,
        span: Span,
    ) -> (r: Result<Option<BytecodeType>, StepError>)
        ensures
            final(self).rules() == old(self).rules(),
            (final(self)@, stage_result(r)) == match_typed(
                old(self).rules(),
                old(self)@,
                name@,
                ast::argument_trees(arguments@),
                shapes@,
                span,
            ),
    {
        if !self.probe {
            let kind = if text::eq_ignore_ascii_case(name, "MATCHALLEX") {
                RuntimeStagedKind::MatchAllEx
            } else {
                RuntimeStagedKind::MatchAll
            };
            match form_binding::authorize(self.program, name, kind, shapes) {
                Err(e) => {
                    return Err(e);
                },
                Ok(_) => {},
            }
        }
        let types = types_of(shapes);
        let spec = match match_spec(self.program, self.function, name, arguments, &types) {
            Err(e) => {
                return Err(e);
            },
            Ok(s) => s,
        };
        if self.probe {
            Ok(None)
        } else {
            self.push_call(span, RuntimeBoundCall::Match(spec));
            Ok(Some(BytecodeType::Integer))
        }
    }

    fn map_call(
        &mut self,
        kind: usize,
        name: &str,
        arguments: &Vec<Option<Rc<Expr>>>,
        shapes: &Vec<Option<RuntimeExpressionShape>>,
        span: Span,
    ) -> (r: Result<BytecodeType, StepError>)
        requires
            kind < old(self).rules().program.map_operations@.len(),
        ensures
            final(self).rules() == old(self).rules(),
            (final(self)@, type_result(r)) == map_typed(
                old(self).rules(),
                old(self)@,
                old(self).rules().program.map_operations@[kind as int],
                name@,
                ast::argument_trees(arguments@),
                shapes@,
                span,
            ),
    {
        if !self.program.map_extensions {
            return Err(
                form_binding::permission_denied("MAP extensions are unavailable in this identity"),
            );
        }
        let m = &self.program.map_operations[kind];
        let bound = match form_binding::bind(self.program, name, shapes, self.natives) {
            Err(e) => {
                return Err(e);
            },
            Ok(b) => b,
        };
        if bound.omitted_arguments.len() != 0 || any_omitted(arguments) || !m.valid_parameters(
            &bound.import.parameters,
        ) {
            return Err(form_binding::bad_type("MAP extension source overload differs"));
        }
        self.push_call(span, RuntimeBoundCall::Native(bound));
        Ok(m.result)
    }

    fn input_call(&self, name: &str, shapes: &Vec<Option<RuntimeExpressionShape>>) -> (r: Result<
        BytecodeType,
        StepError,
    >)
        ensures
            type_result(r) == input_typed(self.rules(), name@, shapes@),
    {
        if !self.program.snake_input {
            return Err(form_binding::permission_denied("snake input form API unavailable"));
        }
        let types = types_of(shapes);
        let found = match present_types(&types) {
            Some(parameters) => form_binding::find_input_import(self.program, name, &parameters)
                .is_some(),
            None => false,
        };
        if found {
            Ok(BytecodeType::Integer)
        } else {
            Err(form_binding::bad_type("input form callable signature differs"))
        }
    }

    fn probe_call(&self, name: &str, shapes: &Vec<Option<RuntimeExpressionShape>>) -> (r: Result<
        BytecodeType,
        StepError,
    >)
        ensures
            type_result(r) == probe_typed(self.rules(), name@, shapes@),
    {
        let symbol = match form_binding::find_builtin(self.program, name) {
            None => {
                return Err(missing(name));
            },
            Some(s) => s,
        };
        if form_binding::is_accepted(&symbol.accepted, shapes) {
            Ok(symbol.result)
        } else {
            let message = text::join3(
                "expression callable ",
                name,
                " has incompatible arguments",
            );
            Err(form_binding::bad_type(message.as_str()))
        }
    }

    fn host_call(
        &mut self,
        name: &str,
        arguments: &Vec<Option<Rc<Expr>>>,
        shapes: &Vec<Option<RuntimeExpressionShape>>,
        span: Span,
    ) -> (r: Result<BytecodeType, StepError>)
        requires
            results_scalar(old(self).rules().program),
        ensures
            final(self).rules() == old(self).rules(),
            (final(self)@, type_result(r)) == host_typed(
                old(self).rules(),
                old(self)@,
                name@,
                ast::argument_trees(arguments@),
                shapes@,
                span,
            ),
    {
        match form_binding::validate_source_tokens(self.program, self.function, name, arguments) {
            Err(e) => {
                return Err(e);
            },
            Ok(_) => {},
        }
        let bound = match form_binding::bind_host(self.program, name, shapes) {
            Err(e) => {
                return Err(e);
            },
            Ok(b) => b,
        };
        proof {
            lemma_host_scalar(*self.program, name@, shapes@);
        }
        match bound.import.result {
            Some(result) => {
                self.push_call(span, RuntimeBoundCall::Host(bound));
                Ok(result)
            },
            None => Err(missing(name)),
        }
    }

    fn native_call(
        &mut self,
        name: &str,
        shapes: &Vec<Option<RuntimeExpressionShape>>,
        span: Span,
    ) -> (r: Result<BytecodeType, StepError>)
        requires
            results_scalar(old(self).rules().program),
        ensures
            final(self).rules() == old(self).rules(),
            (final(self)@, type_result(r)) == native_typed(
                old(self).rules(),
                old(self)@,
                name@,
                shapes@,
                span,
            ),
    {
        let bound = match form_binding::bind(self.program, name, shapes, self.natives) {
            Err(e) => {
                return Err(e);
            },
            Ok(b) => b,
        };
        proof {
            lemma_native_scalar(
                *self.program,
                name@,
                shapes@,
                form_binding::provider_view(self.natives),
            );
        }
        match bound.import.result {
            Some(result) => {
                self.push_call(span, RuntimeBoundCall::Native(bound));
                Ok(result)
            },
            None => Err(missing(name)),
        }
    }

    fn nested_call(&self, name: &str, types: &Vec<Option<BytecodeType>>) -> (r: Result<
        BytecodeType,
        StepError,
    >)
        ensures
            type_result(r) == nested_typed(self.rules(), name@, types@),
    {
        let family = match form_binding::authorization(self.program, name) {
            Err(e) => {
                return Err(e);
            },
            Ok(f) => f,
        };
        match self.natives {
            Some(p) => match form_binding::require_provider(p, family) {
                Err(e) => {
                    return Err(e);
                },
                Ok(_) => {},
            },
            None => {},
        }
        if types.len() != 1 {
            return Err(form_binding::bad_type("formatted-string function expects one String"));
        }
        match require_type(types[0], BytecodeType::String) {
            Err(e) => {
                return Err(e);
            },
            Ok(_) => {},
        }
        if text::eq_ignore_ascii_case(name, "STRFORMCHECK") {
            Ok(BytecodeType::Integer)
        } else {
            Ok(BytecodeType::String)
        }
    }

    fn normal_call(
        &mut self,
        name: &str,
        shapes: &Vec<Option<RuntimeExpressionShape>>,
        span: Span,
    ) -> (r: Result<BytecodeType, StepError>)
        requires
            results_scalar(old(self).rules().program),
        ensures
            final(self).rules() == old(self).rules(),
            (final(self)@, type_result(r)) == normal_typed(
                old(self).rules(),
                old(self)@,
                name@,
                shapes@,
                span,
            ),
    {
        let types = types_of(shapes);
        match method_result(name) {
            Some(result) => {
                let first = if types.len() > 0 {
                    types[0]
                } else {
                    None
                };
                match require_type(first, BytecodeType::String) {
                    Err(e) => {
                        return Err(e);
                    },
                    Ok(_) => {},
                }
                if types.len() > 1 {
                    match types[1] {
                        Some(fallback) => match require_type(
                            Some(fallback),
                            result.bytecode_type(),
                        ) {
                            Err(e) => {
                                return Err(e);
                            },
                            Ok(_) => {},
                        },
                        None => {},
                    }
                }
                return Ok(result.bytecode_type());
            },
            None => {},
        }
        if text::eq_ignore_ascii_case(name, "EXISTMETH") {
            match form_binding::authorization(self.program, name) {
                Err(e) => {
                    return Err(e);
                },
                Ok(_) => {},
            }
            if types.len() != 1 {
                return Err(form_binding::bad_type("EXISTMETH expects one String"));
            }
            return match require_type(types[0], BytecodeType::String) {
                Err(e) => Err(e),
                Ok(_) => Ok(BytecodeType::Integer),
            };
        }
        if text::eq_ignore_ascii_case(name, "EXISTVAR") {
            let max: usize = if self.program.existvar_expression_probe {
                2
            } else {
                1
            };
            if types.len() == 0 || types.len() > max {
                return Err(
                    form_binding::bad_type("EXISTVAR expects String and optional Integer mode"),
                );
            }
            match require_type(types[0], BytecodeType::String) {
                Err(e) => {
                    return Err(e);
                },
                Ok(_) => {},
            }
            if types.len() > 1 {
                match types[1] {
                    Some(mode) => match require_type(Some(mode), BytecodeType::Integer) {
                        Err(e) => {
                            return Err(e);
                        },
                        Ok(_) => {},
                    },
                    None => {},
                }
            }
            return Ok(BytecodeType::Integer);
        }
        if text::eq_ignore_ascii_case(name, "STRFORM") || text::eq_ignore_ascii_case(
            name,
            "STRFORMCHECK",
        ) {
            return self.nested_call(name, &types);
        }
        self.native_call(name, shapes, span)
    }

    fn other_call(
        &mut self,
        name: &str,
        arguments: &Vec<Option<Rc<Expr>>>,
        shapes: &Vec<Option<RuntimeExpressionShape>>,
        span: Span,
    ) -> (r: Result<BytecodeType, StepError>)
        requires
            results_scalar(old(self).rules().program),
        ensures
            final(self).rules() == old(self).rules(),
            (final(self)@, type_result(r)) == other_typed(
                old(self).rules(),
                old(self)@,
                name@,
                ast::argument_trees(arguments@),
                shapes@,
                span,
            ),
    {
        if form_binding::allowed(name).is_some() {
            return self.input_call(name, shapes);
        }
        if self.probe {
            return self.probe_call(name, shapes);
        }
        if form_binding::find_host_family(self.program, name).is_some() {
            return self.host_call(name, arguments, shapes, span);
        }
        self.normal_call(name, shapes, span)
    }

    fn mapped_call(
        &mut self,
        name: &str,
        arguments: &Vec<Option<Rc<Expr>>>,
        shapes: &Vec<Option<RuntimeExpressionShape>>,
        span: Span,
    ) -> (r: Result<BytecodeType, StepError>)
        requires
            results_scalar(old(self).rules().program),
        ensures
            final(self).rules() == old(self).rules(),
            (final(self)@, type_result(r)) == mapped_typed(
                old(self).rules(),
                old(self)@,
                name@,
                ast::argument_trees(arguments@),
                shapes@,
                span,
            ),
    {
        match form_binding::find_map(self.program, name) {
            None => {},
            Some(kind) => {
                proof {
                    ast::lemma_argument_trees(arguments@);
                }
                let output = self.definition_at(arguments, 1);
                match validate_map_output_definition(
                    &self.program.map_operations[kind],
                    arguments.len(),
                    output,
                ) {
                    Err(e) => {
                        return Err(e);
                    },
                    Ok(_) => {},
                }
                if !self.probe {
                    return self.map_call(kind, name, arguments, shapes, span);
                }
            },
        }
        self.other_call(name, arguments, shapes, span)
    }

    fn matched_call(
        &mut self,
        name: &str,
        arguments: &Vec<Option<Rc<Expr>>>,
        shapes: &Vec<Option<RuntimeExpressionShape>>,
        span: Span,
    ) -> (r: Result<BytecodeType, StepError>)
        requires
            results_scalar(old(self).rules().program),
        ensures
            final(self).rules() == old(self).rules(),
            (final(self)@, type_result(r)) == matched_typed(
                old(self).rules(),
                old(self)@,
                name@,
                ast::argument_trees(arguments@),
                shapes@,
                span,
            ),
    {
        if is_match(name) {
            match self.match_call(name, arguments, shapes, span) {
                Err(e) => {
                    return Err(e);
                },
                Ok(Some(t)) => {
                    return Ok(t);
                },
                Ok(None) => {},
            }
        }
        self.mapped_call(name, arguments, shapes, span)
    }

    /// Finds what a call comes to, given what its arguments look like.
    pub fn call(
        &mut self,
        name: &str,
        arguments: &Vec<Option<Rc<Expr>>>,
        shapes: &Vec<Option<RuntimeExpressionShape>>,
        span: Span,
    ) -> (r: Result<BytecodeType, StepError>)
        requires
            results_scalar(old(self).rules().program),
            shapes@.len() == arguments@.len(),
        ensures
            final(self).rules() == old(self).rules(),
            (final(self)@, type_result(r)) == call_typed(
                old(self).rules(),
                old(self)@,
                name@,
                ast::argument_trees(arguments@),
                shapes@,
                span,
            ),
    {
        proof {
            reveal(call_typed);
        }
        if self.program.function_by_name(name).is_some() {
            return self.user_call(name, arguments, shapes);
        }
        match form_binding::bit_operation(name) {
            Some(operation) => match self.bit_call(operation, name, arguments, shapes, span) {
                Err(e) => {
                    return Err(e);
                },
                Ok(Some(t)) => {
                    return Ok(t);
                },
                Ok(None) => {},
            },
            None => {},
        }
        self.matched_call(name, arguments, shapes, span)
    }

    /// Finds the type of an expression.
    pub fn expression(&mut self, e: &Rc<Expr>, depth: usize) -> (r: Result<BytecodeType, StepError>)
        requires
            results_scalar(old(self).rules().program),
        ensures
            final(self).rules() == old(self).rules(),
            (final(self)@, type_result(r)) == typed(
                old(self).rules(),
                old(self)@,
                e@,
                depth as nat,
            ),
        decreases e, 2int,
    {
        match self.visit(depth) {
            Err(e) => {
                return Err(e);
            },
            Ok(_) => {},
        }
        match self.expression_kind(e, depth) {
            Err(e) => Err(e),
            Ok(t) => {
                self.source_types.push((e.span, t));
                Ok(t)
            },
        }
    }

    fn expression_kind(&mut self, e: &Rc<Expr>, depth: usize) -> (r: Result<BytecodeType, StepError>)
        requires
            results_scalar(old(self).rules().program),
            depth <= MAX_RUNTIME_FORM_NESTING,
        ensures
            final(self).rules() == old(self).rules(),
            (final(self)@, type_result(r)) == typed_kind(
                old(self).rules(),
                old(self)@,
                e@,
                depth as nat,
            ),
        decreases e, 1int,
    {
        match &e.kind {
            ExprKind::Integer(_) => Ok(BytecodeType::Integer),
            ExprKind::String(_) => Ok(BytecodeType::String),
            ExprKind::Formatted(f) => match self.form(f, depth + 1) {
                Err(e) => Err(e),
                Ok(_) => Ok(BytecodeType::String),
            },
            ExprKind::Group(inner) => self.expression(inner, depth + 1),
            ExprKind::Identifier(_) => self.identifier_kind(e, depth),
            ExprKind::Variable { .. } => self.variable_kind(e, depth),
            ExprKind::Unary { .. } => self.unary_kind(e, depth),
            ExprKind::Postfix { .. } => self.postfix_kind(e, depth),
            ExprKind::Call { .. } => self.call_kind(e, depth),
            ExprKind::Binary { .. } => self.binary_kind(e, depth),
            ExprKind::Ternary { .. } => self.ternary_kind(e, depth),
            ExprKind::Error => Err(
                form_binding::bad_type("runtime expression contains a parser error"),
            ),
        }
    }

    fn identifier_kind(&mut self, e: &Rc<Expr>, depth: usize) -> (r: Result<BytecodeType, StepError>)
        requires
            results_scalar(old(self).rules().program),
            depth <= MAX_RUNTIME_FORM_NESTING,
            e.kind is Identifier,
        ensures
            final(self).rules() == old(self).rules(),
            (final(self)@, type_result(r)) == typed_kind(
                old(self).rules(),
                old(self)@,
                e@,
                depth as nat,
            ),
        decreases e, 0int,
    {
        match &e.kind {
            ExprKind::Identifier(name) => {
                let g = match self.program.scoped_variable(self.function, name.as_str()) {
                    None => {
                        return Err(missing(name.as_str()));
                    },
                    Some(g) => g,
                };
                if self.probe {
                    let none: Vec<Rc<Expr>> = Vec::new();
                    assert(ast::trees(none@) =~= Seq::empty());
                    match probe_variable_shape(self.program, g, &none) {
                        Err(e) => {
                            return Err(e);
                        },
                        Ok(_) => {},
                    }
                }
                Ok(g.value_type)
            },
            _ => Err(form_binding::bad_type("runtime expression contains a parser error")),
        }
    }

    fn variable_kind(&mut self, e: &Rc<Expr>, depth: usize) -> (r: Result<BytecodeType, StepError>)
        requires
            results_scalar(old(self).rules().program),
            depth <= MAX_RUNTIME_FORM_NESTING,
            e.kind is Variable,
        ensures
            final(self).rules() == old(self).rules(),
            (final(self)@, type_result(r)) == typed_kind(
                old(self).rules(),
                old(self)@,
                e@,
                depth as nat,
            ),
        decreases e, 0int,
    {
        match &e.kind {
            ExprKind::Variable { name, indices } => {
                let g = match self.program.scoped_variable(self.function, name.as_str()) {
                    None => {
                        return Err(missing(name.as_str()));
                    },
                    Some(g) => g,
                };
                if self.probe {
                    match probe_variable_shape(self.program, g, indices) {
                        Err(e) => {
                            return Err(e);
                        },
                        Ok(_) => {},
                    }
                }
                match self.indices(indices, depth + 1) {
                    Err(e) => Err(e),
                    Ok(_) => Ok(g.value_type),
                }
            },
            _ => Err(form_binding::bad_type("runtime expression contains a parser error")),
        }
    }

    fn unary_kind(&mut self, e: &Rc<Expr>, depth: usize) -> (r: Result<BytecodeType, StepError>)
        requires
            results_scalar(old(self).rules().program),
            depth <= MAX_RUNTIME_FORM_NESTING,
            e.kind is Unary,
        ensures
            final(self).rules() == old(self).rules(),
            (final(self)@, type_result(r)) == typed_kind(
                old(self).rules(),
                old(self)@,
                e@,
                depth as nat,
            ),
        decreases e, 0int,
    {
        match &e.kind {
            ExprKind::Unary { op, operand } => {
                let t = match self.expression(operand, depth + 1) {
                    Err(e) => {
                        return Err(e);
                    },
                    Ok(t) => t,
                };
                match op {
                    UnaryOp::PreIncrement | UnaryOp::PreDecrement => match self.check_mutable(
                        operand,
                    ) {
                        Err(e) => {
                            return Err(e);
                        },
                        Ok(_) => {},
                    },
                    _ => {},
                }
                match require_type(Some(t), BytecodeType::Integer) {
                    Err(e) => Err(e),
                    Ok(_) => Ok(BytecodeType::Integer),
                }
            },
            _ => Err(form_binding::bad_type("runtime expression contains a parser error")),
        }
    }

    fn postfix_kind(&mut self, e: &Rc<Expr>, depth: usize) -> (r: Result<BytecodeType, StepError>)
        requires
            results_scalar(old(self).rules().program),
            depth <= MAX_RUNTIME_FORM_NESTING,
            e.kind is Postfix,
        ensures
            final(self).rules() == old(self).rules(),
            (final(self)@, type_result(r)) == typed_kind(
                old(self).rules(),
                old(self)@,
                e@,
                depth as nat,
            ),
        decreases e, 0int,
    {
        match &e.kind {
            ExprKind::Postfix { operand, .. } => {
                let t = match self.expression(operand, depth + 1) {
                    Err(e) => {
                        return Err(e);
                    },
                    Ok(t) => t,
                };
                match self.check_mutable(operand) {
                    Err(e) => {
                        return Err(e);
                    },
                    Ok(_) => {},
                }
                match require_type(Some(t), BytecodeType::Integer) {
                    Err(e) => Err(e),
                    Ok(_) => Ok(BytecodeType::Integer),
                }
            },
            _ => Err(form_binding::bad_type("runtime expression contains a parser error")),
        }
    }

    fn call_kind(&mut self, e: &Rc<Expr>, depth: usize) -> (r: Result<BytecodeType, StepError>)
        requires
            results_scalar(old(self).rules().program),
            depth <= MAX_RUNTIME_FORM_NESTING,
            e.kind is Call,
        ensures
            final(self).rules() == old(self).rules(),
            (final(self)@, type_result(r)) == typed_kind(
                old(self).rules(),
                old(self)@,
                e@,
                depth as nat,
            ),
        decreases e, 0int,
    {
        match &e.kind {
            ExprKind::Call { name, args } => {
                let shapes = match self.arguments(args, depth + 1) {
                    Err(e) => {
                        return Err(e);
                    },
                    Ok(s) => s,
                };
                self.call(name.as_str(), args, &shapes, e.span)
            },
            _ => Err(form_binding::bad_type("runtime expression contains a parser error")),
        }
    }

    fn binary_kind(&mut self, e: &Rc<Expr>, depth: usize) -> (r: Result<BytecodeType, StepError>)
        requires
            results_scalar(old(self).rules().program),
            depth <= MAX_RUNTIME_FORM_NESTING,
            e.kind is Binary,
        ensures
            final(self).rules() == old(self).rules(),
            (final(self)@, type_result(r)) == typed_kind(
                old(self).rules(),
                old(self)@,
                e@,
                depth as nat,
            ),
        decreases e, 0int,
    {
        match &e.kind {
            ExprKind::Binary { op, left, right } => {
                let l = match self.expression(left, depth + 1) {
                    Err(e) => {
                        return Err(e);
                    },
                    Ok(t) => t,
                };
                let r = match self.expression(right, depth + 1) {
                    Err(e) => {
                        return Err(e);
                    },
                    Ok(t) => t,
                };
                binary_result_type(*op, l, r)
            },
            _ => Err(form_binding::bad_type("runtime expression contains a parser error")),
        }
    }

    fn ternary_kind(&mut self, e: &Rc<Expr>, depth: usize) -> (r: Result<BytecodeType, StepError>)
        requires
            results_scalar(old(self).rules().program),
            depth <= MAX_RUNTIME_FORM_NESTING,
            e.kind is Ternary,
        ensures
            final(self).rules() == old(self).rules(),
            (final(self)@, type_result(r)) == typed_kind(
                old(self).rules(),
                old(self)@,
                e@,
                depth as nat,
            ),
        decreases e, 0int,
    {
        match &e.kind {
            ExprKind::Ternary { condition, then_expr, else_expr } => {
                let t = match self.expression(condition, depth + 1) {
                    Err(e) => {
                        return Err(e);
                    },
                    Ok(t) => t,
                };
                match require_type(Some(t), BytecodeType::Integer) {
                    Err(e) => {
                        return Err(e);
                    },
                    Ok(_) => {},
                }
                let a = match self.expression(then_expr, depth + 1) {
                    Err(e) => {
                        return Err(e);
                    },
                    Ok(t) => t,
                };
                let b = match self.expression(else_expr, depth + 1) {
                    Err(e) => {
                        return Err(e);
                    },
                    Ok(t) => t,
                };
                match require_type(Some(b), a) {
                    Err(e) => Err(e),
                    Ok(_) => Ok(a),
                }
            },
            _ => Err(form_binding::bad_type("runtime expression contains a parser error")),
        }
    }

    #[verifier::loop_isolation(false)]
    fn indices(&mut self, indices: &Vec<Rc<Expr>>, depth: usize) -> (r: Result<(), StepError>)
        requires
            results_scalar(old(self).rules().program),
        ensures
            final(self).rules() == old(self).rules(),
            (final(self)@, form_resources::unit_result(r)) == typed_indices(
                old(self).rules(),
                old(self)@,
                ast::trees(indices@),
                depth as nat,
            ),
        decreases indices, 0int,
    {
        let ghost c = self.rules();
        let ghost start = self@;
        let ghost all = ast::trees(indices@);
        proof {
            ast::lemma_trees(indices@);
            assert(all.take(0) =~= Seq::<Tree>::empty());
        }
        let mut i: usize = 0;
        while i < indices.len()
            invariant
                i <= indices.len(),
                results_scalar(c.program),
                self.rules() == c,
                all == ast::trees(indices@),
                all.len() == indices@.len(),
                forall|j: int|
                    0 <= j < indices@.len() ==> #[trigger] all[j] == ast::tree(*indices@[j]),
                typed_indices(c, start, all.take(i as int), depth as nat) == (self@, Ok::<
                    (),
                    Failure,
                >(())),
            decreases indices.len() - i,
        {
            assert(decreases_to!(*indices => indices@[i as int]));
            let ghost upto = all.take(i + 1);
            proof {
                assert(upto.drop_last() =~= all.take(i as int));
                assert(upto[upto.len() - 1] == all[i as int]);
                if typed_indices(c, start, upto, depth as nat).1 is Err {
                    lemma_indices_stop(c, start, all, depth as nat, i + 1);
                }
            }
            match self.expression(&indices[i], depth) {
                Err(e) => {
                    return Err(e);
                },
                Ok(t) => {
                    if t != BytecodeType::Integer && !(self.probe && t == BytecodeType::String) {
                        return Err(
                            form_binding::bad_type("runtime variable index must be an integer"),
                        );
                    }
                },
            }
            i = i + 1;
        }
        assert(all.take(i as int) =~= all);
        Ok(())
    }

    /// Finds what the arguments of a call look like.
    #[verifier::loop_isolation(false)]
    pub fn arguments(&mut self, arguments: &Vec<Option<Rc<Expr>>>, depth: usize) -> (r: Result<
        Vec<Option<RuntimeExpressionShape>>,
        StepError,
    >)
        requires
            results_scalar(old(self).rules().program),
        ensures
            final(self).rules() == old(self).rules(),
            (final(self)@, shapes_result(r)) == arguments_typed(
                old(self).rules(),
                old(self)@,
                ast::argument_trees(arguments@),
                depth as nat,
            ),
            r matches Ok(v) ==> v@.len() == arguments@.len(),
        decreases arguments, 0int,
    {
        let ghost c = self.rules();
        let ghost start = self@;
        let ghost all = ast::argument_trees(arguments@);
        proof {
            ast::lemma_argument_trees(arguments@);
            assert(all.take(0) =~= Seq::<Option<Tree>>::empty());
        }
        let room: usize = if self.nodes <= self.limit {
            self.limit - self.nodes
        } else {
            0
        };
        if arguments.len() > 65535 || arguments.len() > room {
            return Err(
                form_resources::resource_limit(
                    "runtime Native source arguments exceed operand limit",
                ),
            );
        }
        assert(arguments_typed(c, start, all, depth as nat) == typed_arguments(
            c,
            start,
            all,
            depth as nat,
        ));
        let mut out: Vec<Option<RuntimeExpressionShape>> = Vec::new();
        let mut i: usize = 0;
        while i < arguments.len()
            invariant
                i <= arguments.len(),
                results_scalar(c.program),
                self.rules() == c,
                all == ast::argument_trees(arguments@),
                all.len() == arguments@.len(),
                forall|j: int|
                    0 <= j < arguments@.len() ==> #[trigger] all[j] == ast::argument_tree(
                        arguments@[j],
                    ),
                arguments_typed(c, start, all, depth as nat) == typed_arguments(
                    c,
                    start,
                    all,
                    depth as nat,
                ),
                out@.len() == i,
                typed_arguments(c, start, all.take(i as int), depth as nat) == (self@, Ok::<
                    Shapes,
                    Failure,
                >(out@)),
            decreases arguments.len() - i,
        {
            assert(decreases_to!(*arguments => arguments@[i as int]));
            let ghost upto = all.take(i + 1);
            proof {
                assert(upto.drop_last() =~= all.take(i as int));
                assert(upto[upto.len() - 1] == all[i as int]);
                if typed_arguments(c, start, upto, depth as nat).1 is Err {
                    lemma_arguments_stop(c, start, all, depth as nat, i + 1);
                }
            }
            match &arguments[i] {
                None => {
                    out.push(None);
                },
                Some(e) => {
                    assert(decreases_to!(*arguments => arguments@[i as int]->0));
                    match self.expression(e, depth) {
                        Err(e) => {
                            return Err(e);
                        },
                        Ok(t) => {
                            out.push(Some(source_shape(self.program, self.function, e, t)));
                        },
                    }
                },
            }
            i = i + 1;
        }
        assert(all.take(i as int) =~= all);
        Ok(out)
    }

    /// Checks a formatted text.
    #[verifier::loop_isolation(false)]
    pub fn form(&mut self, f: &Rc<FormattedString>, depth: usize) -> (r: Result<(), StepError>)
        requires
            results_scalar(old(self).rules().program),
        ensures
            final(self).rules() == old(self).rules(),
            (final(self)@, form_resources::unit_result(r)) == typed_form(
                old(self).rules(),
                old(self)@,
                f@,
                depth as nat,
            ),
        decreases f, 0int,
    {
        match self.visit(depth) {
            Err(e) => {
                return Err(e);
            },
            Ok(_) => {},
        }
        let ghost c = self.rules();
        let ghost start = self@;
        let ghost all = ast::part_trees(f.parts@);
        proof {
            ast::lemma_part_trees(f.parts@);
            assert(all.take(0) =~= Seq::<PartTree>::empty());
        }
        let mut i: usize = 0;
        while i < f.parts.len()
            invariant
                i <= f.parts.len(),
                depth <= MAX_RUNTIME_FORM_NESTING,
                results_scalar(c.program),
                self.rules() == c,
                all == ast::part_trees(f.parts@),
                all.len() == f.parts@.len(),
                forall|j: int|
                    0 <= j < f.parts@.len() ==> #[trigger] all[j] == ast::part_tree(*f.parts@[j]),
                typed_parts(c, start, all.take(i as int), depth as nat) == (self@, Ok::<
                    (),
                    Failure,
                >(())),
            decreases f.parts.len() - i,
        {
            assert(decreases_to!(*f => f.parts@[i as int]));
            let ghost upto = all.take(i + 1);
            proof {
                assert(upto.drop_last() =~= all.take(i as int));
                assert(upto[upto.len() - 1] == all[i as int]);
                if typed_parts(c, start, upto, depth as nat).1 is Err {
                    lemma_parts_stop(c, start, all, depth as nat, i + 1);
                }
            }
            match self.part(&f.parts[i], depth) {
                Err(e) => {
                    return Err(e);
                },
                Ok(_) => {},
            }
            i = i + 1;
        }
        assert(all.take(i as int) =~= all);
        Ok(())
    }

    fn expression_as(&mut self, e: &Rc<Expr>, depth: usize, expected: BytecodeType) -> (r: Result<
        (),
        StepError,
    >)
        requires
            results_scalar(old(self).rules().program),
        ensures
            final(self).rules() == old(self).rules(),
            (final(self)@, form_resources::unit_result(r)) == as_type(
                typed(old(self).rules(), old(self)@, e@, depth as nat),
                expected,
            ),
        decreases e, 3int,
    {
        match self.expression(e, depth) {
            Err(e) => Err(e),
            Ok(t) => require_type(Some(t), expected),
        }
    }

    fn part(&mut self, p: &Rc<FormPart>, depth: usize) -> (r: Result<(), StepError>)
        requires
            results_scalar(old(self).rules().program),
            depth <= MAX_RUNTIME_FORM_NESTING,
        ensures
            final(self).rules() == old(self).rules(),
            (final(self)@, form_resources::unit_result(r)) == typed_part(
                old(self).rules(),
                old(self)@,
                p@,
                depth as nat,
            ),
        decreases p, 1int,
    {
        match self.visit(depth) {
            Err(e) => {
                return Err(e);
            },
            Ok(_) => {},
        }
        match &**p {
            FormPart::Text(_) => Ok(()),
            FormPart::Triple(_) => self.triple(p, depth),
            FormPart::Interpolation { .. } => self.interpolation(p, depth),
            FormPart::Conditional { .. } => self.conditional(p, depth),
        }
    }

    fn triple(&mut self, p: &Rc<FormPart>, depth: usize) -> (r: Result<(), StepError>)
        requires
            results_scalar(old(self).rules().program),
            depth <= MAX_RUNTIME_FORM_NESTING,
            **p is Triple,
        ensures
            final(self).rules() == old(self).rules(),
            (final(self)@, form_resources::unit_result(r)) == typed_part_kind(
                old(self).rules(),
                old(self)@,
                p@,
                depth as nat,
            ),
        decreases p, 0int,
    {
        match &**p {
            FormPart::Triple(symbol) => {
                let (value, index) = match triple_variables(*symbol) {
                    None => {
                        return Err(unsupported_triple(*symbol));
                    },
                    Some(p) => p,
                };
                if self.program.scoped_variable(self.function, value).is_none() {
                    return Err(missing(value));
                }
                if self.program.scoped_variable(self.function, index).is_none() {
                    return Err(missing(index));
                }
                Ok(())
            },
            _ => Ok(()),
        }
    }

    fn interpolation(&mut self, p: &Rc<FormPart>, depth: usize) -> (r: Result<(), StepError>)
        requires
            results_scalar(old(self).rules().program),
            depth <= MAX_RUNTIME_FORM_NESTING,
            **p is Interpolation,
        ensures
            final(self).rules() == old(self).rules(),
            (final(self)@, form_resources::unit_result(r)) == typed_part_kind(
                old(self).rules(),
                old(self)@,
                p@,
                depth as nat,
            ),
        decreases p, 0int,
    {
        match &**p {
            FormPart::Interpolation { string, expression, width, alignment } => {
                assert(p@ == PartTree::Interpolation(
                    *string,
                    Box::new(expression@),
                    match width {
                        Some(w) => Some(Box::new(w@)),
                        None => None,
                    },
                    *alignment,
                ));
                let expected = if *string {
                    BytecodeType::String
                } else {
                    BytecodeType::Integer
                };
                match self.expression_as(expression, depth + 1, expected) {
                    Err(e) => {
                        return Err(e);
                    },
                    Ok(_) => {},
                }
                match width {
                    None => Ok(()),
                    Some(w) => self.expression_as(w, depth + 1, BytecodeType::Integer),
                }
            },
            _ => Ok(()),
        }
    }

    fn conditional(&mut self, p: &Rc<FormPart>, depth: usize) -> (r: Result<(), StepError>)
        requires
            results_scalar(old(self).rules().program),
            depth <= MAX_RUNTIME_FORM_NESTING,
            **p is Conditional,
        ensures
            final(self).rules() == old(self).rules(),
            (final(self)@, form_resources::unit_result(r)) == typed_part_kind(
                old(self).rules(),
                old(self)@,
                p@,
                depth as nat,
            ),
        decreases p, 0int,
    {
        match &**p {
            FormPart::Conditional { condition, then_value, else_value } => {
                assert(p@ == PartTree::Conditional(
                    Box::new(condition@),
                    then_value@,
                    forms::optional_form(*else_value),
                ));
                match self.expression_as(condition, depth + 1, BytecodeType::Integer) {
                    Err(e) => {
                        return Err(e);
                    },
                    Ok(_) => {},
                }
                match self.form(then_value, depth + 1) {
                    Err(e) => {
                        return Err(e);
                    },
                    Ok(_) => {},
                }
                match else_value {
                    None => Ok(()),
                    Some(f) => self.form(f, depth + 1),
                }
            },
            _ => Ok(()),
        }
    }

}

proof fn lemma_native_scalar(
    program: ProgramGeneration,
    name: Seq<char>,
    shapes: Shapes,
    providers: Option<NativeProviders>,
)
    requires
        results_scalar(program),
    ensures
        form_binding::native_bound(program, name, shapes, providers) matches Ok(b)
            ==> b.import.result is Some,
{
    if form_binding::native_bound(program, name, shapes, providers) is Ok {
        let p = form_binding::native_named(name);
        lookup::lemma_first_index(program.native_authorizations@, p);
        let i = lookup::first_index(program.native_authorizations@, p)->0;
        let family = program.native_authorizations@[i];
        let q = form_binding::native_shaped(shapes);
        lookup::lemma_first_index(family.bindings@, q);
        let k = lookup::first_index(family.bindings@, q)->0;
        assert(program.native_authorizations@[i].bindings@[k].bound.import.result is Some);
    }
}

proof fn lemma_host_scalar(program: ProgramGeneration, name: Seq<char>, shapes: Shapes)
    requires
        results_scalar(program),
    ensures
        form_binding::host_bound(program, name, shapes) matches Ok(b) ==> b.import.result is Some,
{
    if form_binding::host_bound(program, name, shapes) is Ok {
        let p = form_binding::host_named(name);
        lookup::lemma_first_index(program.host_authorizations@, p);
        let i = lookup::first_index(program.host_authorizations@, p)->0;
        let family = program.host_authorizations@[i];
        let q = form_binding::host_shaped(shapes);
        lookup::lemma_first_index(family.bindings@, q);
        let k = lookup::first_index(family.bindings@, q)->0;
        assert(program.host_authorizations@[i].bindings@[k].bound.import.result is Some);
    }
}

proof fn lemma_indices_stop(c: Rules, s: Found, indices: Seq<Tree>, depth: nat, n: int)
    requires
        0 <= n <= indices.len(),
        typed_indices(c, s, indices.take(n), depth).1 is Err,
    ensures
        typed_indices(c, s, indices, depth) == typed_indices(c, s, indices.take(n), depth),
    decreases indices.len() - n,
{
    if n == indices.len() {
        assert(indices.take(n) =~= indices);
    } else {
        assert(indices.take(n + 1).drop_last() =~= indices.take(n));
        lemma_indices_stop(c, s, indices, depth, n + 1);
    }
}

proof fn lemma_arguments_stop(c: Rules, s: Found, arguments: Seq<Option<Tree>>, depth: nat, n: int)
    requires
        0 <= n <= arguments.len(),
        typed_arguments(c, s, arguments.take(n), depth).1 is Err,
    ensures
        typed_arguments(c, s, arguments, depth) == typed_arguments(
            c,
            s,
            arguments.take(n),
            depth,
        ),
    decreases arguments.len() - n,
{
    if n == arguments.len() {
        assert(arguments.take(n) =~= arguments);
    } else {
        assert(arguments.take(n + 1).drop_last() =~= arguments.take(n));
        lemma_arguments_stop(c, s, arguments, depth, n + 1);
    }
}

proof fn lemma_parts_stop(c: Rules, s: Found, parts: Seq<PartTree>, depth: nat, n: int)
    requires
        0 <= n <= parts.len(),
        typed_parts(c, s, parts.take(n), depth).1 is Err,
    ensures
        typed_parts(c, s, parts, depth) == typed_parts(c, s, parts.take(n), depth),
    decreases parts.len() - n,
{
    if n == parts.len() {
        assert(parts.take(n) =~= parts);
    } else {
        assert(parts.take(n + 1).drop_last() =~= parts.take(n));
        lemma_parts_stop(c, s, parts, depth, n + 1);
    }
}

proof fn lemma_call_keeps_nodes(
    c: Rules,
    s: Found,
    name: Seq<char>,
    arguments: Seq<Option<Tree>>,
    shapes: Shapes,
    span: Span,
)
    ensures
        call_typed(c, s, name, arguments, shapes, span).0.nodes == s.nodes,
        call_typed(c, s, name, arguments, shapes, span).0.types == s.types,
{
    reveal(call_typed);
}

/// The pass visits every node of an expression exactly once: where an expression has a type, the
/// count of visited nodes has grown by the number of its nodes.
pub proof fn law_each_node_is_visited_once(c: Rules, s: Found, t: Tree, depth: nat)
    ensures
        typed(c, s, t, depth).1 is Ok ==> typed(c, s, t, depth).0.nodes == s.nodes
            + form_resources::expr_weight(t).slots,
    decreases t, 1int,
{
    if visited(c, s, depth).1 is Ok {
        lemma_kind_nodes(c, visited(c, s, depth).0, t, depth);
    }
}

proof fn lemma_kind_nodes(c: Rules, s: Found, t: Tree, depth: nat)
    ensures
        typed_kind(c, s, t, depth).1 is Ok ==> typed_kind(c, s, t, depth).0.nodes + 1 == s.nodes
            + form_resources::expr_weight(t).slots,
    decreases t, 0int,
{
    match t.kind {
        TreeKind::Formatted(f) => {
            lemma_form_nodes(c, s, f, depth + 1);
        },
        TreeKind::Variable(_, indices) => {
            lemma_index_nodes(c, s, indices, depth + 1);
        },
        TreeKind::Group(x) => {
            law_each_node_is_visited_once(c, s, *x, depth + 1);
        },
        TreeKind::Unary(_, x) => {
            law_each_node_is_visited_once(c, s, *x, depth + 1);
        },
        TreeKind::Postfix(_, x) => {
            law_each_node_is_visited_once(c, s, *x, depth + 1);
        },
        TreeKind::Call(name, arguments) => {
            lemma_argument_nodes(c, s, arguments, depth + 1);
            let (s1, r) = arguments_typed(c, s, arguments, depth + 1);
            if r is Ok {
                lemma_call_keeps_nodes(c, s1, name, arguments, r->Ok_0, t.span);
            }
        },
        TreeKind::Binary(_, x, y) => {
            law_each_node_is_visited_once(c, s, *x, depth + 1);
            let (s1, r) = typed(c, s, *x, depth + 1);
            law_each_node_is_visited_once(c, s1, *y, depth + 1);
        },
        TreeKind::Ternary(x, y, z) => {
            law_each_node_is_visited_once(c, s, *x, depth + 1);
            let (s1, r) = typed(c, s, *x, depth + 1);
            law_each_node_is_visited_once(c, s1, *y, depth + 1);
            let (s2, r2) = typed(c, s1, *y, depth + 1);
            law_each_node_is_visited_once(c, s2, *z, depth + 1);
        },
        _ => {},
    }
}

proof fn lemma_index_nodes(c: Rules, s: Found, indices: Seq<Tree>, depth: nat)
    ensures
        typed_indices(c, s, indices, depth).1 is Ok ==> typed_indices(c, s, indices, depth).0.nodes
            == s.nodes + form_resources::list_weight(indices).slots,
    decreases indices, 0int,
{
    if indices.len() > 0 {
        let (s1, r) = typed_indices(c, s, indices.drop_last(), depth);
        lemma_index_nodes(c, s, indices.drop_last(), depth);
        law_each_node_is_visited_once(c, s1, indices[indices.len() - 1], depth);
    }
}

proof fn lemma_argument_nodes(c: Rules, s: Found, arguments: Seq<Option<Tree>>, depth: nat)
    ensures
        arguments_typed(c, s, arguments, depth).1 is Ok ==> arguments_typed(
            c,
            s,
            arguments,
            depth,
        ).0.nodes == s.nodes + form_resources::arguments_weight(arguments).slots,
        typed_arguments(c, s, arguments, depth).1 is Ok ==> typed_arguments(
            c,
            s,
            arguments,
            depth,
        ).0.nodes == s.nodes + form_resources::arguments_weight(arguments).slots,
    decreases arguments, 0int,
{
    if arguments.len() > 0 {
        let (s1, r) = typed_arguments(c, s, arguments.drop_last(), depth);
        lemma_argument_nodes(c, s, arguments.drop_last(), depth);
        match arguments[arguments.len() - 1] {
            Some(t) => {
                law_each_node_is_visited_once(c, s1, t, depth);
            },
            None => {},
        }
    }
}

proof fn lemma_form_nodes(c: Rules, s: Found, f: FormTree, depth: nat)
    ensures
        typed_form(c, s, f, depth).1 is Ok ==> typed_form(c, s, f, depth).0.nodes == s.nodes
            + form_resources::form_weight(f).slots,
    decreases f, 0int,
{
    if visited(c, s, depth).1 is Ok {
        lemma_part_nodes(c, visited(c, s, depth).0, f.parts, depth);
    }
}

proof fn lemma_part_nodes(c: Rules, s: Found, parts: Seq<PartTree>, depth: nat)
    ensures
        typed_parts(c, s, parts, depth).1 is Ok ==> typed_parts(c, s, parts, depth).0.nodes
            == s.nodes + form_resources::parts_weight(parts).slots,
    decreases parts, 0int,
{
    if parts.len() > 0 {
        let (s1, r) = typed_parts(c, s, parts.drop_last(), depth);
        lemma_part_nodes(c, s, parts.drop_last(), depth);
        lemma_one_part_nodes(c, s1, parts[parts.len() - 1], depth);
    }
}

proof fn lemma_one_part_nodes(c: Rules, s: Found, p: PartTree, depth: nat)
    ensures
        typed_part(c, s, p, depth).1 is Ok ==> typed_part(c, s, p, depth).0.nodes == s.nodes
            + form_resources::part_weight(p).slots,
    decreases p, 0int,
{
    let (s1, v) = visited(c, s, depth);
    match p {
        PartTree::Interpolation(string, e, width, _) => {
            law_each_node_is_visited_once(c, s1, *e, depth + 1);
            let (s2, r) = typed(c, s1, *e, depth + 1);
            match width {
                Some(w) => {
                    law_each_node_is_visited_once(c, s2, *w, depth + 1);
                },
                None => {},
            }
        },
        PartTree::Conditional(condition, then_value, else_value) => {
            law_each_node_is_visited_once(c, s1, *condition, depth + 1);
            let (s2, r) = typed(c, s1, *condition, depth + 1);
            lemma_form_nodes(c, s2, then_value, depth + 1);
            let (s3, r3) = typed_form(c, s2, then_value, depth + 1);
            match else_value {
                Some(f) => {
                    lemma_form_nodes(c, s3, f, depth + 1);
                },
                None => {},
            }
        },
        _ => {},
    }
    assert(typed_part(c, s, p, depth) == (match v {
        Err(e) => (s1, Err(e)),
        Ok(_) => typed_part_kind(c, s1, p, depth),
    }));
}

} // verus!
