//! Reduction of the arguments of a call before they are bound: which children of a term are
//! visited, and which terms are replaced by their values.

use vstd::prelude::*;
use crate::ast::UnaryOp;
use crate::existvar::invalid;
use crate::fault::{Failure, ScriptFaultKind, StepError, VmFaultCode};
use crate::form_binding;
use crate::form_resources::{self, Count};
use crate::form_terms;
use crate::forms::{self, Edge, Prepared, PreparedReferenceArguments, TermRef};
use crate::lookup;
use crate::memory::BytecodeStorage;
use crate::program::{BytecodeGlobal, ProgramGeneration, RuntimeVariable};
use crate::terms::{
    self, Callee, Fragment, Graph, Literal, ReferenceTermArgument, ReferenceTermCall,
    ReferenceTermGraph, ReferenceTermKind, ReferenceTermPart, ReferenceTermValue, Term,
};
use crate::text;
use crate::value::{SymbolKey, Val, VmValue};

verus! {

/// Which arguments of a call are visited, and whether their results replace them.
#[derive(Clone, Copy, PartialEq, Eq, Debug, Structural)]
pub enum ChildRule {
    /// All of them; the results replace them.
    All,
    /// One of them; its result is not kept.
    Only(usize),
    /// All of them; the results are not kept.
    Scratch,
    /// All but the first; the results are not kept.
    ScratchTail,
    Nothing,
    /// All of them; the results replace them but for one.
    AllBut(usize),
    /// Those that a user function takes; the results replace those passed by value.
    Parameters(SymbolKey),
}

/// The rule of a service.
pub open spec fn service_rule(name: Seq<char>, host: bool) -> ChildRule {
    if text::same_ignoring_case(name, "VARSIZE"@) {
        ChildRule::Scratch
    } else if name == "GETNUM"@ || name == "ERDNAME"@ {
        ChildRule::Only(1)
    } else if name == "FINDELEMENT"@ || name == "FINDLASTELEMENT"@ {
        ChildRule::Scratch
    } else if name == "STRJOIN"@ {
        ChildRule::ScratchTail
    } else if name == "REPLACE"@ {
        ChildRule::Nothing
    } else if host && name == "GDRAWG"@ {
        ChildRule::AllBut(10)
    } else if host && name == "GDRAWSPRITE"@ {
        ChildRule::AllBut(6)
    } else if name == "MATCH"@ || name == "CMATCH"@ || name == "ARRAYMSORT"@ || name
        == "ARRAYMSORTEX"@ || name == "GDRAWG"@ || name == "GDRAWSPRITE"@ {
        ChildRule::Scratch
    } else {
        ChildRule::All
    }
}

/// The rule of a callee.
pub open spec fn rule_of(target: Callee) -> ChildRule {
    match target {
        Callee::User(key) => ChildRule::Parameters(key),
        Callee::Intrinsic(name) => if text::same_ignoring_case(name, "STRFORM"@) {
            ChildRule::Only(0)
        } else {
            ChildRule::All
        },
        Callee::Native(_, name) => if text::same_ignoring_case(name, "STRFORM"@) {
            ChildRule::Only(0)
        } else {
            service_rule(name, false)
        },
        Callee::DynamicNative(_, name) => if text::same_ignoring_case(name, "STRFORM"@) {
            ChildRule::Only(0)
        } else {
            service_rule(name, false)
        },
        Callee::Host(_, name) => if text::same_ignoring_case(name, "STRFORM"@) {
            ChildRule::Only(0)
        } else {
            service_rule(name, true)
        },
    }
}

/// Whether a slot is visited, and then whether its result replaces it.
pub open spec fn slot_visit(program: ProgramGeneration, rule: ChildRule, slot: int) -> Option<bool> {
    match rule {
        ChildRule::All => Some(true),
        ChildRule::Only(n) => if slot == n {
            Some(false)
        } else {
            None
        },
        ChildRule::Scratch => Some(false),
        ChildRule::ScratchTail => if slot == 0 {
            None
        } else {
            Some(false)
        },
        ChildRule::Nothing => None,
        ChildRule::AllBut(n) => Some(slot != n),
        ChildRule::Parameters(key) => match program.spec_function(key) {
            None => None,
            Some(f) => if slot < f.parameters@.len() {
                Some(!f.parameters@[slot].by_reference)
            } else {
                None
            },
        },
    }
}

/// The visits of the arguments that are there: the child of each, and whether its result replaces
/// it.
pub open spec fn slot_visits(
    program: ProgramGeneration,
    rule: ChildRule,
    arguments: Seq<ReferenceTermArgument>,
) -> Seq<(usize, bool)>
    decreases arguments.len(),
{
    if arguments.len() == 0 {
        Seq::empty()
    } else {
        let before = slot_visits(program, rule, arguments.drop_last());
        match (arguments.last().node, slot_visit(program, rule, arguments.len() - 1)) {
            (Some(_), Some(keep)) => before.push(
                (terms::argument_nodes(arguments.drop_last()).len() as usize, keep),
            ),
            _ => before,
        }
    }
}

/// A visit of each child.
pub open spec fn all_visits(n: nat) -> Seq<(usize, bool)> {
    Seq::new(n, |i: int| (i as usize, true))
}

/// The children of a node that are visited.
pub open spec fn visits_of(program: ProgramGeneration, g: Prepared, node: int) -> Result<
    Seq<(usize, bool)>,
    Failure,
> {
    match g.template.nodes[node].term {
        Term::Call(target, arguments) => match rule_of(target) {
            ChildRule::All => Ok(all_visits(g.edges[node].len())),
            ChildRule::Parameters(key) => if program.spec_function(key) is None {
                Err(Failure::invalid("reference argument method metadata disappeared"@))
            } else {
                Ok(slot_visits(program, ChildRule::Parameters(key), arguments))
            },
            rule => Ok(slot_visits(program, rule, arguments)),
        },
        _ => Ok(all_visits(g.edges[node].len())),
    }
}

pub open spec fn variable_keyed(key: SymbolKey) -> spec_fn(RuntimeVariable) -> bool {
    |v: RuntimeVariable| v.key == key
}

pub open spec fn metadata_missing() -> Failure {
    Failure::invalid("reference argument variable metadata is missing"@)
}

/// What is known of a variable when arguments are reduced.
pub open spec fn variable_facts(program: ProgramGeneration, key: SymbolKey) -> Option<
    RuntimeVariable,
> {
    match lookup::first_index(program.runtime_variables@, variable_keyed(key)) {
        Some(i) => Some(program.runtime_variables@[i]),
        None => None,
    }
}

/// An index that does not fit a dimension.
pub open spec fn beyond(g: BytecodeGlobal, dimension: int, index: i64) -> bool {
    dimension >= g.dimensions@.len() || index < 0 || index >= g.dimensions@[dimension]
}

/// A literal index of a variable term is out of range.
pub open spec fn bad_index(program: ProgramGeneration, g: Prepared, node: int, edge: int) -> Result<
    bool,
    Failure,
> {
    match g.template.nodes[node].term {
        Term::Variable(key, indices) => match form_terms::single_of(g, g.edges[node][edge]) {
            Some(Literal::Integer(index)) => match program.spec_global(key) {
                None => Err(
                    Failure::invalid("reference argument variable schema disappeared"@),
                ),
                Some(d) => match variable_facts(program, key) {
                    None => Err(metadata_missing()),
                    Some(facts) => if facts.reference || d.name@ == "ARG"@ || d.name@ == "ARGS"@ {
                        Ok(false)
                    } else if d.storage is Character && indices.len() > d.dimensions@.len() {
                        Ok(edge != 0 && beyond(*d, edge - 1, index))
                    } else {
                        Ok(beyond(*d, edge, index))
                    },
                },
            },
            _ => Ok(false),
        },
        _ => Ok(false),
    }
}

/// The first of the first `n` indices that is out of range.
pub open spec fn first_bad(program: ProgramGeneration, g: Prepared, node: int, n: nat) -> Result<
    Option<int>,
    Failure,
>
    decreases n,
{
    if n == 0 {
        Ok(None)
    } else {
        match first_bad(program, g, node, (n - 1) as nat) {
            Ok(None) => match bad_index(program, g, node, n - 1) {
                Err(e) => Err(e),
                Ok(true) => Ok(Some(n - 1)),
                Ok(false) => Ok(None),
            },
            other => other,
        }
    }
}

/// The first index of a variable term that is a literal out of range.
pub open spec fn bad_edge(program: ProgramGeneration, g: Prepared, node: int) -> Result<
    Option<int>,
    Failure,
> {
    first_bad(program, g, node, g.edges[node].len())
}

pub open spec fn index_failure() -> Failure {
    Failure::script(
        ScriptFaultKind::Bounds,
        VmFaultCode::Bounds,
        "reference argument constant variable index is out of range"@,
    )
}

/// No literal index of a term is out of range.
pub open spec fn indices_checked(program: ProgramGeneration, g: Prepared, node: int) -> Result<
    (),
    Failure,
> {
    match bad_edge(program, g, node) {
        Err(e) => Err(e),
        Ok(Some(_)) => Err(index_failure()),
        Ok(None) => Ok(()),
    }
}

/// The indices behind one that is out of range become zero.
pub open spec fn zeroed(edges: Seq<Edge>, edge: int) -> Seq<Edge> {
    Seq::new(
        edges.len(),
        |i: int|
            if i <= edge {
                edges[i]
            } else {
                Edge::Single(Literal::Integer(0))
            },
    )
}

/// A graph whose failure of an index is left to the reading of the variable.
pub open spec fn deferred(g: Prepared, node: int, edge: int) -> Prepared {
    Prepared { edges: g.edges.update(node, zeroed(g.edges[node], edge)), ..g }
}

/// A term that is a constant variable.
pub open spec fn is_const(program: ProgramGeneration, g: Prepared, e: Edge) -> Result<
    bool,
    Failure,
> {
    match e {
        Edge::Single(_) => Ok(false),
        Edge::Original(id) => if id >= g.template.nodes.len() {
            Ok(false)
        } else {
            match g.template.nodes[id as int].term {
                Term::Variable(key, _) => match variable_facts(program, key) {
                    None => Err(metadata_missing()),
                    Some(facts) => Ok(facts.is_const),
                },
                _ => Ok(false),
            }
        },
    }
}

/// Every term from a position on is a literal.
pub open spec fn literals_from(g: Prepared, terms: Seq<Edge>, from: int) -> bool {
    forall|i: int|
        from <= i < terms.len() ==> form_terms::single_of(g, #[trigger] terms[i]) is Some
}

/// The first term is a constant variable.
pub open spec fn first_const(program: ProgramGeneration, g: Prepared, terms: Seq<Edge>) -> Result<
    bool,
    Failure,
> {
    if terms.len() == 0 {
        Ok(false)
    } else {
        is_const(program, g, terms[0])
    }
}

pub open spec fn has_triple(parts: Seq<Fragment>) -> bool {
    exists|i: int| 0 <= i < parts.len() && (#[trigger] parts[i]) is Triple
}

/// The text that a node is, if it is one.
pub open spec fn text_node(g: Prepared, id: u32) -> Option<Seq<char>> {
    if id >= g.template.nodes.len() {
        None
    } else {
        match g.template.nodes[id as int].term {
            Term::Value(Literal::Text(s)) => Some(s),
            _ => None,
        }
    }
}

pub open spec fn is_value_node(g: Prepared, id: u32) -> bool {
    id < g.template.nodes.len() && g.template.nodes[id as int].term is Value
}

/// A variable that is no reference is known.
pub open spec fn owned_variable(program: ProgramGeneration, key: SymbolKey) -> bool {
    exists|i: int|
        0 <= i < program.runtime_variables@.len() && (#[trigger] program.runtime_variables@[i]).key
            == key && !program.runtime_variables@[i].reference
}

/// VARSIZE can be computed: its source arguments are literals, and it names a variable that is no
/// reference.
pub open spec fn size_known(
    program: ProgramGeneration,
    function: SymbolKey,
    g: Prepared,
    edges: Seq<Edge>,
    arguments: Seq<ReferenceTermArgument>,
) -> bool {
    if edges.len() == 0 {
        false
    } else {
        match edges[0] {
            Edge::Single(_) => false,
            Edge::Original(first) => match text_node(g, first) {
                None => false,
                Some(name) => {
                    &&& arguments.len() == 1 || (arguments.len() == 2 && match arguments[1].node {
                        Some(id) => is_value_node(g, id),
                        None => false,
                    })
                    &&& match program.spec_scoped_variable(function, name) {
                        Some(d) => owned_variable(program, d.key),
                        None => false,
                    }
                },
            },
        }
    }
}

/// A service call can be computed now; `scratch` holds the results of the visits.
pub open spec fn service_folds(
    program: ProgramGeneration,
    function: SymbolKey,
    g: Prepared,
    edges: Seq<Edge>,
    scratch: Seq<Edge>,
    name: Seq<char>,
    arguments: Seq<ReferenceTermArgument>,
) -> Result<bool, Failure> {
    if name == "STRFORM"@ {
        Ok(false)
    } else if name == "GETNUM"@ || name == "ERDNAME"@ {
        Ok(scratch.len() > 0 && form_terms::single_of(g, scratch[0]) is Some)
    } else if name == "FINDELEMENT"@ || name == "FINDLASTELEMENT"@ {
        match first_const(program, g, edges) {
            Err(e) => Err(e),
            Ok(c) => Ok(c && literals_from(g, scratch, 1)),
        }
    } else if name == "STRJOIN"@ {
        match first_const(program, g, edges) {
            Err(e) => Err(e),
            Ok(c) => Ok(c && literals_from(g, scratch, 0)),
        }
    } else if name == "VARSIZE"@ {
        Ok(size_known(program, function, g, edges, arguments))
    } else {
        Ok(
            form_binding::has_text(program.foldable_services@, name) && literals_from(g, edges, 0),
        )
    }
}

/// A node can be replaced by its value.
pub open spec fn folds(
    program: ProgramGeneration,
    function: SymbolKey,
    g: Prepared,
    node: int,
    scratch: Seq<Edge>,
) -> Result<bool, Failure> {
    let edges = g.edges[node];
    match g.template.nodes[node].term {
        Term::Variable(key, _) => match variable_facts(program, key) {
            None => Err(metadata_missing()),
            Some(facts) => Ok(facts.can_restructure && literals_from(g, edges, 0)),
        },
        Term::Unary(op, _) => Ok(
            !(op is PreIncrement) && !(op is PreDecrement) && literals_from(g, edges, 0),
        ),
        Term::Binary(_, _, _) => Ok(literals_from(g, edges, 0)),
        Term::Ternary(_, _, _) => Ok(literals_from(g, edges, 0)),
        Term::Form(parts) => Ok(!has_triple(parts) && literals_from(g, edges, 0)),
        Term::Call(Callee::Native(_, name), arguments) => service_folds(
            program,
            function,
            g,
            edges,
            scratch,
            name,
            arguments,
        ),
        Term::Call(Callee::DynamicNative(_, name), arguments) => service_folds(
            program,
            function,
            g,
            edges,
            scratch,
            name,
            arguments,
        ),
        Term::Call(Callee::Host(_, name), arguments) => service_folds(
            program,
            function,
            g,
            edges,
            scratch,
            name,
            arguments,
        ),
        _ => Ok(false),
    }
}

/// A replacement is the node itself or a literal of its type.
pub open spec fn replaces(template: Graph, original: u32, e: Edge) -> bool {
    match e {
        Edge::Original(id) => id == original,
        Edge::Single(l) => original < template.nodes.len() && template.nodes[original as int].value_type
            == l.value_type(),
    }
}

pub open spec fn children_replaced(g: Prepared, i: int) -> bool {
    let children = terms::children(g.template.nodes[i].term);
    &&& g.edges[i].len() == children.len()
    &&& forall|k: int|
        0 <= k < children.len() ==> replaces(g.template, #[trigger] children[k], g.edges[i][k])
}

pub open spec fn root_replaced(g: Prepared, i: int) -> bool {
    match (g.template.roots[i], g.roots[i]) {
        (Some(id), Some(e)) => replaces(g.template, id, e),
        (None, None) => true,
        _ => false,
    }
}

/// A reduced graph belongs to a template: every replacement keeps the type of what it replaces.
pub open spec fn fits_template(g: Prepared, template: Graph) -> bool {
    &&& g.template == template
    &&& g.edges.len() == template.nodes.len()
    &&& forall|i: int| 0 <= i < template.nodes.len() ==> #[trigger] children_replaced(g, i)
    &&& g.roots.len() == template.roots.len()
    &&& forall|i: int| 0 <= i < template.roots.len() ==> #[trigger] root_replaced(g, i)
}

/// The literal that a value becomes.
pub open spec fn literal_of(v: Val) -> Result<Edge, Failure> {
    match v {
        Val::Integer(n) => Ok(Edge::Single(Literal::Integer(n))),
        Val::Text(s) => Ok(Edge::Single(Literal::Text(s))),
        _ => Err(Failure::invalid("reference argument folded value is a place"@)),
    }
}

pub open spec fn edge_result(r: Result<TermRef, StepError>) -> Result<Edge, Failure> {
    match r {
        Ok(t) => Ok(t@),
        Err(e) => Err(e@),
    }
}

pub open spec fn visits_result(r: Result<Vec<(usize, bool)>, StepError>) -> Result<
    Seq<(usize, bool)>,
    Failure,
> {
    match r {
        Ok(v) => Ok(v@),
        Err(e) => Err(e@),
    }
}

pub open spec fn flag_result(r: Result<bool, StepError>) -> Result<bool, Failure> {
    match r {
        Ok(b) => Ok(b),
        Err(e) => Err(e@),
    }
}

pub open spec fn place_result(r: Result<Option<usize>, StepError>) -> Result<Option<int>, Failure> {
    match r {
        Ok(Some(n)) => Ok(Some(n as int)),
        Ok(None) => Ok(None),
        Err(e) => Err(e@),
    }
}

fn find_service_rule(name: &str, host: bool) -> (r: ChildRule)
    ensures
        r == service_rule(name@, host),
{
    if text::eq_ignore_ascii_case(name, "VARSIZE") {
        ChildRule::Scratch
    } else if text::same_text(name, "GETNUM") || text::same_text(name, "ERDNAME") {
        ChildRule::Only(1)
    } else if text::same_text(name, "FINDELEMENT") || text::same_text(name, "FINDLASTELEMENT") {
        ChildRule::Scratch
    } else if text::same_text(name, "STRJOIN") {
        ChildRule::ScratchTail
    } else if text::same_text(name, "REPLACE") {
        ChildRule::Nothing
    } else if host && text::same_text(name, "GDRAWG") {
        ChildRule::AllBut(10)
    } else if host && text::same_text(name, "GDRAWSPRITE") {
        ChildRule::AllBut(6)
    } else if text::same_text(name, "MATCH") || text::same_text(name, "CMATCH") || text::same_text(
        name,
        "ARRAYMSORT",
    ) || text::same_text(name, "ARRAYMSORTEX") || text::same_text(name, "GDRAWG")
        || text::same_text(name, "GDRAWSPRITE") {
        ChildRule::Scratch
    } else {
        ChildRule::All
    }
}

/// The rule of a callee.
pub fn child_rule(target: &ReferenceTermCall) -> (r: ChildRule)
    ensures
        r == rule_of(target@),
{
    match target {
        ReferenceTermCall::User { key } => ChildRule::Parameters(*key),
        ReferenceTermCall::Intrinsic { name } => {
            if text::eq_ignore_ascii_case(name.as_str(), "STRFORM") {
                ChildRule::Only(0)
            } else {
                ChildRule::All
            }
        },
        ReferenceTermCall::Native { name, .. } => {
            if text::eq_ignore_ascii_case(name.as_str(), "STRFORM") {
                ChildRule::Only(0)
            } else {
                find_service_rule(name.as_str(), false)
            }
        },
        ReferenceTermCall::DynamicNative { name, .. } => {
            if text::eq_ignore_ascii_case(name.as_str(), "STRFORM") {
                ChildRule::Only(0)
            } else {
                find_service_rule(name.as_str(), false)
            }
        },
        ReferenceTermCall::Host { name, .. } => {
            if text::eq_ignore_ascii_case(name.as_str(), "STRFORM") {
                ChildRule::Only(0)
            } else {
                find_service_rule(name.as_str(), true)
            }
        },
    }
}

fn visit_slot(program: &ProgramGeneration, rule: ChildRule, slot: usize) -> (r: Option<bool>)
    ensures
        r == slot_visit(*program, rule, slot as int),
{
    match rule {
        ChildRule::All => Some(true),
        ChildRule::Only(n) => {
            if slot == n {
                Some(false)
            } else {
                None
            }
        },
        ChildRule::Scratch => Some(false),
        ChildRule::ScratchTail => {
            if slot == 0 {
                None
            } else {
                Some(false)
            }
        },
        ChildRule::Nothing => None,
        ChildRule::AllBut(n) => Some(slot != n),
        ChildRule::Parameters(key) => match program.function(key) {
            None => None,
            Some(f) => {
                if slot < f.parameters.len() {
                    Some(!f.parameters[slot].by_reference)
                } else {
                    None
                }
            },
        },
    }
}

proof fn lemma_argument_count(arguments: Seq<ReferenceTermArgument>)
    ensures
        terms::argument_nodes(arguments).len() <= arguments.len(),
    decreases arguments.len(),
{
    if arguments.len() > 0 {
        lemma_argument_count(arguments.drop_last());
    }
}

fn visit_slots(
    program: &ProgramGeneration,
    rule: ChildRule,
    arguments: &Vec<ReferenceTermArgument>,
) -> (r: Vec<(usize, bool)>)
    ensures
        r@ == slot_visits(*program, rule, arguments@),
{
    let ghost all = arguments@;
    let mut out: Vec<(usize, bool)> = Vec::new();
    let mut edge: usize = 0;
    let mut i: usize = 0;
    assert(all.take(0) =~= Seq::<ReferenceTermArgument>::empty());
    while i < arguments.len()
        invariant
            i <= arguments.len(),
            all == arguments@,
            edge == terms::argument_nodes(all.take(i as int)).len(),
            out@ == slot_visits(*program, rule, all.take(i as int)),
        decreases arguments.len() - i,
    {
        proof {
            assert(all.take(i + 1).drop_last() =~= all.take(i as int));
            lemma_argument_count(all.take(i as int));
        }
        match arguments[i].node {
            Some(_) => {
                match visit_slot(program, rule, i) {
                    Some(keep) => {
                        out.push((edge, keep));
                    },
                    None => {},
                }
                edge = edge + 1;
            },
            None => {},
        }
        i = i + 1;
    }
    assert(all.take(i as int) =~= all);
    out
}

/// What is known of a variable when arguments are reduced.
pub fn find_facts(program: &ProgramGeneration, key: SymbolKey) -> (r: Option<RuntimeVariable>)
    ensures
        r == variable_facts(*program, key),
{
    let ghost p = variable_keyed(key);
    let mut i: usize = 0;
    while i < program.runtime_variables.len()
        invariant
            i <= program.runtime_variables.len(),
            p == variable_keyed(key),
            forall|j: int| 0 <= j < i ==> !p(#[trigger] program.runtime_variables@[j]),
        decreases program.runtime_variables.len() - i,
    {
        if program.runtime_variables[i].key == key {
            proof {
                lookup::lemma_first_found(program.runtime_variables@, p, i as int);
            }
            return Some(program.runtime_variables[i]);
        }
        i = i + 1;
    }
    proof {
        lookup::lemma_first_none(program.runtime_variables@, p);
    }
    None
}

fn is_owned_variable(program: &ProgramGeneration, key: SymbolKey) -> (r: bool)
    ensures
        r == owned_variable(*program, key),
{
    let mut i: usize = 0;
    while i < program.runtime_variables.len()
        invariant
            i <= program.runtime_variables.len(),
            forall|j: int|
                0 <= j < i ==> !((#[trigger] program.runtime_variables@[j]).key == key
                    && !program.runtime_variables@[j].reference),
        decreases program.runtime_variables.len() - i,
    {
        if program.runtime_variables[i].key == key && !program.runtime_variables[i].reference {
            assert(program.runtime_variables@[i as int].key == key);
            return true;
        }
        i = i + 1;
    }
    false
}

fn is_beyond(g: &BytecodeGlobal, dimension: usize, index: i64) -> (r: bool)
    ensures
        r == beyond(*g, dimension as int, index),
{
    dimension >= g.dimensions.len() || index < 0 || index as u64 >= g.dimensions[dimension]
}

fn any_triple(parts: &Vec<ReferenceTermPart>) -> (r: bool)
    ensures
        r == has_triple(terms::fragments(parts@)),
{
    let ghost all = terms::fragments(parts@);
    let mut i: usize = 0;
    while i < parts.len()
        invariant
            i <= parts.len(),
            all == terms::fragments(parts@),
            forall|j: int| 0 <= j < i ==> !((#[trigger] all[j]) is Triple),
        decreases parts.len() - i,
    {
        assert(all[i as int] == parts@[i as int]@);
        match &parts[i] {
            ReferenceTermPart::Triple(_) => {
                return true;
            },
            _ => {},
        }
        i = i + 1;
    }
    false
}

proof fn lemma_bad_stays(program: ProgramGeneration, g: Prepared, node: int, n: nat, m: nat)
    requires
        n <= m,
        first_bad(program, g, node, n) != Ok::<Option<int>, Failure>(None),
    ensures
        first_bad(program, g, node, m) == first_bad(program, g, node, n),
    decreases m,
{
    if n < m {
        lemma_bad_stays(program, g, node, n, (m - 1) as nat);
    }
}

impl PreparedReferenceArguments {
    /// The children of a node that are visited, in order; each with whether its result replaces it.
    pub fn child_plan(&self, program: &ProgramGeneration, node: u32) -> (r: Result<
        Vec<(usize, bool)>,
        StepError,
    >)
        requires
            node < self@.template.nodes.len(),
            node < self@.edges.len(),
        ensures
            visits_result(r) == visits_of(*program, self@, node as int),
    {
        let at: usize = node as usize;
        assert(self@.template.nodes[at as int] == self.template.nodes@[at as int]@);
        assert(self@.edges[at as int] == forms::edges(self.edges@[at as int]@));
        match &self.template.nodes[at].kind {
            ReferenceTermKind::Call { target, arguments } => {
                let rule = child_rule(target);
                match rule {
                    ChildRule::All => {},
                    ChildRule::Parameters(key) => {
                        if program.function(key).is_none() {
                            return Err(
                                invalid("reference argument method metadata disappeared"),
                            );
                        }
                        return Ok(visit_slots(program, rule, arguments));
                    },
                    _ => {
                        return Ok(visit_slots(program, rule, arguments));
                    },
                }
            },
            _ => {},
        }
        let count: usize = self.edges[at].len();
        let mut out: Vec<(usize, bool)> = Vec::new();
        let mut i: usize = 0;
        while i < count
            invariant
                i <= count,
                out@ == all_visits(i as nat),
            decreases count - i,
        {
            out.push((i, true));
            assert(out@ =~= all_visits((i + 1) as nat));
            i = i + 1;
        }
        Ok(out)
    }

    fn constant_index_out_of_range_at(&self, program: &ProgramGeneration, node: u32, edge: usize) -> (r:
        Result<bool, StepError>)
        requires
            node < self@.template.nodes.len(),
            node < self@.edges.len(),
            edge < self@.edges[node as int].len(),
        ensures
            flag_result(r) == bad_index(*program, self@, node as int, edge as int),
    {
        let at: usize = node as usize;
        assert(self@.template.nodes[at as int] == self.template.nodes@[at as int]@);
        assert(self@.edges[at as int] == forms::edges(self.edges@[at as int]@));
        let (key, count) = match &self.template.nodes[at].kind {
            ReferenceTermKind::Variable { key, indices } => (*key, indices.len()),
            _ => {
                return Ok(false);
            },
        };
        assert(self@.edges[at as int][edge as int] == self.edges@[at as int]@[edge as int]@);
        let index: i64 = match self.single(&self.edges[at][edge]) {
            Some(ReferenceTermValue::Integer(n)) => *n,
            _ => {
                return Ok(false);
            },
        };
        let definition = match program.global(key) {
            None => {
                return Err(invalid("reference argument variable schema disappeared"));
            },
            Some(d) => d,
        };
        let facts = match find_facts(program, key) {
            None => {
                return Err(invalid("reference argument variable metadata is missing"));
            },
            Some(f) => f,
        };
        if facts.reference || text::same_text(definition.name.as_str(), "ARG") || text::same_text(
            definition.name.as_str(),
            "ARGS",
        ) {
            return Ok(false);
        }
        if definition.storage == BytecodeStorage::Character && count > definition.dimensions.len() {
            if edge == 0 {
                return Ok(false);
            }
            return Ok(is_beyond(definition, edge - 1, index));
        }
        Ok(is_beyond(definition, edge, index))
    }

    fn first_constant_index_out_of_range(&self, program: &ProgramGeneration, node: u32) -> (r: Result<
        Option<usize>,
        StepError,
    >)
        requires
            node < self@.template.nodes.len(),
            node < self@.edges.len(),
        ensures
            place_result(r) == bad_edge(*program, self@, node as int),
            r matches Ok(Some(n)) ==> n < self@.edges[node as int].len(),
    {
        let at: usize = node as usize;
        assert(self@.edges[at as int] == forms::edges(self.edges@[at as int]@));
        let count: usize = self.edges[at].len();
        let ghost g = self@;
        let mut i: usize = 0;
        while i < count
            invariant
                i <= count,
                g == self@,
                count == g.edges[node as int].len(),
                node < self@.template.nodes.len(),
                node < self@.edges.len(),
                first_bad(*program, g, node as int, i as nat) == Ok::<Option<int>, Failure>(None),
            decreases count - i,
        {
            match self.constant_index_out_of_range_at(program, node, i) {
                Err(e) => {
                    proof {
                        lemma_bad_stays(*program, g, node as int, (i + 1) as nat, count as nat);
                    }
                    return Err(e);
                },
                Ok(true) => {
                    proof {
                        lemma_bad_stays(*program, g, node as int, (i + 1) as nat, count as nat);
                    }
                    return Ok(Some(i));
                },
                Ok(false) => {},
            }
            i = i + 1;
        }
        Ok(None)
    }

    /// Tells whether a literal index of a variable term is out of range.
    pub fn constant_index_out_of_range(&self, program: &ProgramGeneration, node: u32) -> (r: Result<
        bool,
        StepError,
    >)
        requires
            node < self@.template.nodes.len(),
            node < self@.edges.len(),
        ensures
            flag_result(r) == match bad_edge(*program, self@, node as int) {
                Err(e) => Err::<bool, Failure>(e),
                Ok(found) => Ok(found is Some),
            },
    {
        match self.first_constant_index_out_of_range(program, node) {
            Err(e) => Err(e),
            Ok(found) => Ok(found.is_some()),
        }
    }

    /// Refuses a variable term with a literal index that is out of range.
    pub fn check_constant_indices(&self, program: &ProgramGeneration, node: u32) -> (r: Result<
        (),
        StepError,
    >)
        requires
            node < self@.template.nodes.len(),
            node < self@.edges.len(),
        ensures
            form_resources::unit_result(r) == indices_checked(*program, self@, node as int),
    {
        match self.first_constant_index_out_of_range(program, node) {
            Err(e) => Err(e),
            Ok(Some(_)) => Err(
                StepError::script(
                    ScriptFaultKind::Bounds,
                    VmFaultCode::Bounds,
                    "reference argument constant variable index is out of range",
                ),
            ),
            Ok(None) => Ok(()),
        }
    }

    /// Leaves the failure of an index to the reading of the variable: the indices behind it are not
    /// evaluated.
    pub fn defer_constant_index_failure(&mut self, program: &ProgramGeneration, node: u32) -> (r: Result<
        (),
        StepError,
    >)
        requires
            node < old(self)@.template.nodes.len(),
            node < old(self)@.edges.len(),
        ensures
            match bad_edge(*program, old(self)@, node as int) {
                Err(e) => final(self)@ == old(self)@ && r is Err && r->Err_0@ == e,
                Ok(None) => final(self)@ == old(self)@ && r is Err && r->Err_0@ == Failure::invalid(
                    "deferred constant bound failure disappeared"@,
                ),
                Ok(Some(edge)) => final(self)@ == deferred(old(self)@, node as int, edge) && r is Ok,
            },
    {
        let edge: usize = match self.first_constant_index_out_of_range(program, node) {
            Err(e) => {
                return Err(e);
            },
            Ok(None) => {
                return Err(invalid("deferred constant bound failure disappeared"));
            },
            Ok(Some(n)) => n,
        };
        let ghost before = self@;
        let ghost all = self.edges@;
        let at: usize = node as usize;
        assert(before.edges[at as int] == forms::edges(self.edges@[at as int]@));
        let mut list: Vec<TermRef> = Vec::new();
        let mut i: usize = 0;
        while i < self.edges[at].len()
            invariant
                at < self.edges@.len(),
                self.edges@ == all,
                before.edges[at as int] == forms::edges(all[at as int]@),
                i <= all[at as int]@.len(),
                list@.len() == i,
                edge < before.edges[at as int].len(),
                forall|j: int|
                    0 <= j < i ==> (#[trigger] list@[j])@ == zeroed(
                        before.edges[at as int],
                        edge as int,
                    )[j],
            decreases all[at as int]@.len() - i,
        {
            assert(before.edges[at as int][i as int] == all[at as int]@[i as int]@);
            if i <= edge {
                list.push(self.edges[at][i].clone());
            } else {
                list.push(TermRef::Single(ReferenceTermValue::Integer(0)));
            }
            i = i + 1;
        }
        assert(forms::edges(list@) =~= zeroed(before.edges[at as int], edge as int));
        self.edges.set(at, list);
        assert(forms::edge_lists(self.edges@) =~= deferred(before, node as int, edge as int).edges);
        Ok(())
    }

    /// Tells whether a term is a constant variable.
    pub fn variable_const(&self, program: &ProgramGeneration, value: &TermRef) -> (r: Result<
        bool,
        StepError,
    >)
        ensures
            flag_result(r) == is_const(*program, self@, value@),
    {
        let at: usize = match value {
            TermRef::Single(_) => {
                return Ok(false);
            },
            TermRef::Original(id) => *id as usize,
        };
        if at >= self.template.nodes.len() {
            return Ok(false);
        }
        assert(self@.template.nodes[at as int] == self.template.nodes@[at as int]@);
        match &self.template.nodes[at].kind {
            ReferenceTermKind::Variable { key, .. } => match find_facts(program, *key) {
                None => Err(invalid("reference argument variable metadata is missing")),
                Some(f) => Ok(f.is_const),
            },
            _ => Ok(false),
        }
    }

    fn all_literals(&self, list: &Vec<TermRef>, from: usize) -> (r: bool)
        ensures
            r == literals_from(self@, forms::edges(list@), from as int),
    {
        let ghost all = forms::edges(list@);
        let mut i: usize = from;
        while i < list.len()
            invariant
                from <= i,
                all == forms::edges(list@),
                forall|j: int|
                    from <= j < i && j < all.len() ==> form_terms::single_of(
                        self@,
                        #[trigger] all[j],
                    ) is Some,
            decreases list.len() - i,
        {
            assert(all[i as int] == list@[i as int]@);
            if self.single(&list[i]).is_none() {
                return false;
            }
            i = i + 1;
        }
        true
    }

    fn first_is_const(&self, program: &ProgramGeneration, list: &Vec<TermRef>) -> (r: Result<
        bool,
        StepError,
    >)
        ensures
            flag_result(r) == first_const(*program, self@, forms::edges(list@)),
    {
        if list.len() == 0 {
            return Ok(false);
        }
        assert(forms::edges(list@)[0] == list@[0]@);
        self.variable_const(program, &list[0])
    }

    fn is_value(&self, id: u32) -> (r: bool)
        ensures
            r == is_value_node(self@, id),
    {
        let at: usize = id as usize;
        if at >= self.template.nodes.len() {
            return false;
        }
        assert(self@.template.nodes[at as int] == self.template.nodes@[at as int]@);
        match &self.template.nodes[at].kind {
            ReferenceTermKind::Value(_) => true,
            _ => false,
        }
    }

    fn knows_size(
        &self,
        program: &ProgramGeneration,
        function: SymbolKey,
        edges: &Vec<TermRef>,
        arguments: &Vec<ReferenceTermArgument>,
    ) -> (r: bool)
        ensures
            r == size_known(*program, function, self@, forms::edges(edges@), arguments@),
    {
        if edges.len() == 0 {
            return false;
        }
        assert(forms::edges(edges@)[0] == edges@[0]@);
        let first: usize = match &edges[0] {
            TermRef::Single(_) => {
                return false;
            },
            TermRef::Original(id) => *id as usize,
        };
        if first >= self.template.nodes.len() {
            return false;
        }
        assert(self@.template.nodes[first as int] == self.template.nodes@[first as int]@);
        let name = match &self.template.nodes[first].kind {
            ReferenceTermKind::Value(ReferenceTermValue::String(s)) => s,
            _ => {
                return false;
            },
        };
        let source_literals = arguments.len() == 1 || (arguments.len() == 2
            && match arguments[1].node {
            Some(id) => self.is_value(id),
            None => false,
        });
        source_literals && match program.scoped_variable(function, name.as_str()) {
            Some(d) => is_owned_variable(program, d.key),
            None => false,
        }
    }

    fn service_may_fold(
        &self,
        program: &ProgramGeneration,
        function: SymbolKey,
        edges: &Vec<TermRef>,
        scratch: &Vec<TermRef>,
        name: &str,
        arguments: &Vec<ReferenceTermArgument>,
    ) -> (r: Result<bool, StepError>)
        ensures
            flag_result(r) == service_folds(
                *program,
                function,
                self@,
                forms::edges(edges@),
                forms::edges(scratch@),
                name@,
                arguments@,
            ),
    {
        if text::same_text(name, "STRFORM") {
            return Ok(false);
        }
        if text::same_text(name, "GETNUM") || text::same_text(name, "ERDNAME") {
            if scratch.len() == 0 {
                return Ok(false);
            }
            assert(forms::edges(scratch@)[0] == scratch@[0]@);
            return Ok(self.single(&scratch[0]).is_some());
        }
        let find = text::same_text(name, "FINDELEMENT") || text::same_text(name, "FINDLASTELEMENT");
        if find || text::same_text(name, "STRJOIN") {
            let from: usize = if find {
                1
            } else {
                0
            };
            return match self.first_is_const(program, edges) {
                Err(e) => Err(e),
                Ok(c) => Ok(c && self.all_literals(scratch, from)),
            };
        }
        if text::same_text(name, "VARSIZE") {
            return Ok(self.knows_size(program, function, edges, arguments));
        }
        Ok(
            form_binding::contains_text(&program.foldable_services, name) && self.all_literals(
                edges,
                0,
            ),
        )
    }

    /// Tells whether a node can be replaced by its value; `scratch` holds the results of its visits.
    pub fn may_fold(
        &self,
        program: &ProgramGeneration,
        function: SymbolKey,
        node: u32,
        scratch: &Vec<TermRef>,
    ) -> (r: Result<bool, StepError>)
        requires
            node < self@.template.nodes.len(),
            node < self@.edges.len(),
        ensures
            flag_result(r) == folds(
                *program,
                function,
                self@,
                node as int,
                forms::edges(scratch@),
            ),
    {
        let at: usize = node as usize;
        assert(self@.template.nodes[at as int] == self.template.nodes@[at as int]@);
        assert(self@.edges[at as int] == forms::edges(self.edges@[at as int]@));
        let edges = &self.edges[at];
        match &self.template.nodes[at].kind {
            ReferenceTermKind::Variable { key, .. } => match find_facts(program, *key) {
                None => Err(invalid("reference argument variable metadata is missing")),
                Some(f) => Ok(f.can_restructure && self.all_literals(edges, 0)),
            },
            ReferenceTermKind::Unary { op, .. } => Ok(
                *op != UnaryOp::PreIncrement && *op != UnaryOp::PreDecrement && self.all_literals(
                    edges,
                    0,
                ),
            ),
            ReferenceTermKind::Binary { .. } => Ok(self.all_literals(edges, 0)),
            ReferenceTermKind::Ternary { .. } => Ok(self.all_literals(edges, 0)),
            ReferenceTermKind::Form { parts } => Ok(
                !any_triple(parts) && self.all_literals(edges, 0),
            ),
            ReferenceTermKind::Call { target, arguments } => match target {
                ReferenceTermCall::Native { name, .. } => self.service_may_fold(
                    program,
                    function,
                    edges,
                    scratch,
                    name.as_str(),
                    arguments,
                ),
                ReferenceTermCall::DynamicNative { name, .. } => self.service_may_fold(
                    program,
                    function,
                    edges,
                    scratch,
                    name.as_str(),
                    arguments,
                ),
                ReferenceTermCall::Host { name, .. } => self.service_may_fold(
                    program,
                    function,
                    edges,
                    scratch,
                    name.as_str(),
                    arguments,
                ),
                _ => Ok(false),
            },
            _ => Ok(false),
        }
    }

    /// The literal that a value becomes.
    pub fn from_value(value: VmValue) -> (r: Result<TermRef, StepError>)
        ensures
            edge_result(r) == literal_of(value@),
    {
        match value {
            VmValue::Integer(n) => Ok(TermRef::Single(ReferenceTermValue::Integer(n))),
            VmValue::String(s) => Ok(TermRef::Single(ReferenceTermValue::String(s))),
            _ => Err(invalid("reference argument folded value is a place")),
        }
    }

    fn valid_replacement(&self, original: u32, replacement: &TermRef) -> (r: bool)
        ensures
            r == replaces(self@.template, original, replacement@),
    {
        match replacement {
            TermRef::Original(id) => *id == original,
            TermRef::Single(v) => {
                let at: usize = original as usize;
                if at >= self.template.nodes.len() {
                    return false;
                }
                assert(self@.template.nodes[at as int] == self.template.nodes@[at as int]@);
                self.template.nodes[at].value_type == v.value_type()
            },
        }
    }

    fn valid_children(&self, i: usize) -> (r: bool)
        requires
            i < self@.template.nodes.len(),
            i < self@.edges.len(),
        ensures
            r == children_replaced(self@, i as int),
    {
        assert(self@.template.nodes[i as int] == self.template.nodes@[i as int]@);
        assert(self@.edges[i as int] == forms::edges(self.edges@[i as int]@));
        let children = self.template.nodes[i].children();
        if children.len() != self.edges[i].len() {
            return false;
        }
        let mut k: usize = 0;
        while k < children.len()
            invariant
                k <= children.len(),
                i < self.edges@.len(),
                self@.edges[i as int] == forms::edges(self.edges@[i as int]@),
                children@ == terms::children(self@.template.nodes[i as int].term),
                children@.len() == self.edges@[i as int]@.len(),
                forall|j: int|
                    0 <= j < k ==> replaces(
                        self@.template,
                        #[trigger] children@[j],
                        self@.edges[i as int][j],
                    ),
            decreases children.len() - k,
        {
            assert(self@.edges[i as int][k as int] == self.edges@[i as int]@[k as int]@);
            if !self.valid_replacement(children[k], &self.edges[i][k]) {
                assert(!replaces(
                    self@.template,
                    children@[k as int],
                    self@.edges[i as int][k as int],
                ));
                return false;
            }
            k = k + 1;
        }
        true
    }

    /// Tells whether this graph belongs to a template: every replacement keeps the type of what it
    /// replaces.
    pub fn valid_for_template(&self, template: &ReferenceTermGraph) -> (r: bool)
        ensures
            r == fits_template(self@, template@),
    {
        assert(self@.edges.len() == self.edges@.len());
        assert(template@.nodes.len() == template.nodes@.len());
        assert(self@.roots.len() == self.roots@.len());
        if !terms::same_graph(&self.template, template) || self.edges.len() != template.nodes.len() {
            return false;
        }
        let mut i: usize = 0;
        while i < template.nodes.len()
            invariant
                i <= template.nodes.len(),
                self@.template == template@,
                template@.nodes.len() == template.nodes@.len(),
                self@.edges.len() == template.nodes@.len(),
                forall|j: int| 0 <= j < i ==> #[trigger] children_replaced(self@, j),
            decreases template.nodes.len() - i,
        {
            if !self.valid_children(i) {
                return false;
            }
            i = i + 1;
        }
        if self.roots.len() != template.roots.len() {
            return false;
        }
        let mut i: usize = 0;
        while i < template.roots.len()
            invariant
                i <= template.roots.len(),
                self@.template == template@,
                self@.roots.len() == self.roots@.len(),
                self.roots@.len() == template.roots@.len(),
                forall|j: int| 0 <= j < i ==> #[trigger] root_replaced(self@, j),
            decreases template.roots.len() - i,
        {
            assert(self@.roots[i as int] == forms::optional_edge(self.roots@[i as int]));
            let same = match (template.roots[i], &self.roots[i]) {
                (Some(id), Some(e)) => self.valid_replacement(id, e),
                (None, None) => true,
                _ => false,
            };
            if !same {
                assert(!root_replaced(self@, i as int));
                return false;
            }
            i = i + 1;
        }
        true
    }
}

/// The bytes of a literal that replaced a term.
pub open spec fn edge_bytes(e: Edge) -> nat {
    match e {
        Edge::Single(Literal::Text(s)) => form_resources::size(s),
        _ => 0,
    }
}

pub open spec fn edges_bytes(edges: Seq<Edge>) -> nat
    decreases edges.len(),
{
    if edges.len() == 0 {
        0
    } else {
        edges_bytes(edges.drop_last()) + edge_bytes(edges.last())
    }
}

pub open spec fn lists_bytes(lists: Seq<Seq<Edge>>) -> nat
    decreases lists.len(),
{
    if lists.len() == 0 {
        0
    } else {
        lists_bytes(lists.drop_last()) + edges_bytes(lists.last())
    }
}

pub open spec fn roots_bytes(roots: Seq<Option<Edge>>) -> nat
    decreases roots.len(),
{
    if roots.len() == 0 {
        0
    } else {
        roots_bytes(roots.drop_last()) + match roots.last() {
            Some(e) => edge_bytes(e),
            None => 0,
        }
    }
}

/// The bytes of the literals that replaced terms of a graph.
pub open spec fn literal_bytes(g: Prepared) -> nat {
    lists_bytes(g.edges) + roots_bytes(g.roots)
}

pub(crate) fn term_bytes(t: &TermRef) -> (r: usize)
    ensures
        r == edge_bytes(t@),
{
    match t {
        TermRef::Single(ReferenceTermValue::String(s)) => form_resources::byte_count(s.as_str()),
        _ => 0,
    }
}

pub(crate) fn count_terms(list: &Vec<TermRef>) -> (r: Count)
    ensures
        r@ == form_resources::tally(0, edges_bytes(forms::edges(list@))),
{
    let ghost all = forms::edges(list@);
    let mut out = Count::zero();
    let mut i: usize = 0;
    assert(all.take(0) =~= Seq::<Edge>::empty());
    while i < list.len()
        invariant
            i <= list.len(),
            all == forms::edges(list@),
            out@ == form_resources::tally(0, edges_bytes(all.take(i as int))),
        decreases list.len() - i,
    {
        out = out.more(0, term_bytes(&list[i]));
        assert(all.take(i + 1).drop_last() =~= all.take(i as int));
        assert(all[i as int] == list@[i as int]@);
        i = i + 1;
    }
    assert(all.take(i as int) =~= all);
    out
}

impl PreparedReferenceArguments {
    pub(crate) fn count_literals(&self) -> (r: Count)
        ensures
            r@ == form_resources::tally(0, literal_bytes(self@)),
    {
        let ghost lists = self@.edges;
        let ghost roots = self@.roots;
        let mut out = Count::zero();
        let mut i: usize = 0;
        assert(lists.take(0) =~= Seq::<Seq<Edge>>::empty());
        while i < self.edges.len()
            invariant
                i <= self.edges.len(),
                lists == self@.edges,
                out@ == form_resources::tally(0, lists_bytes(lists.take(i as int))),
            decreases self.edges.len() - i,
        {
            assert(lists[i as int] == forms::edges(self.edges@[i as int]@));
            assert(lists.take(i + 1).drop_last() =~= lists.take(i as int));
            out = out.plus(count_terms(&self.edges[i]));
            i = i + 1;
        }
        assert(lists.take(i as int) =~= lists);
        let mut i: usize = 0;
        assert(roots.take(0) =~= Seq::<Option<Edge>>::empty());
        while i < self.roots.len()
            invariant
                i <= self.roots.len(),
                roots == self@.roots,
                lists == self@.edges,
                out@ == form_resources::tally(
                    0,
                    lists_bytes(lists) + roots_bytes(roots.take(i as int)),
                ),
            decreases self.roots.len() - i,
        {
            assert(roots[i as int] == forms::optional_edge(self.roots@[i as int]));
            assert(roots.take(i + 1).drop_last() =~= roots.take(i as int));
            match &self.roots[i] {
                Some(t) => {
                    out = out.more(0, term_bytes(t));
                },
                None => {},
            }
            i = i + 1;
        }
        assert(roots.take(i as int) =~= roots);
        out
    }

    /// The bytes of the literals that replaced terms; nothing where they cannot be counted.
    pub fn string_bytes(&self) -> (r: Option<usize>)
        ensures
            match r {
                Some(n) => n == literal_bytes(self@),
                None => literal_bytes(self@) > usize::MAX,
            },
    {
        match self.count_literals().total() {
            Some((_, bytes)) => Some(bytes),
            None => None,
        }
    }
}

} // verus!
