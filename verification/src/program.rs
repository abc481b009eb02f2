//! Loaded programs.

use vstd::prelude::*;
use std::rc::Rc;
use crate::lookup;
use crate::memory::BytecodeStorage;
use crate::text;
use crate::value::{BytecodeType, SymbolKey, VmValue};

verus! {

/// Operations of the machine.
#[derive(Clone, Copy, PartialEq, Eq, Debug, Structural)]
pub enum Opcode {
    Nop,
    PushInteger,
    PushString,
    LoadVariable,
    StoreVariable,
    MakePlace,
    Unary,
    Binary,
    ToString,
    Pop,
    Dup,
    StorePlace,
    Concat,
    ForStart,
    ForNext,
    ForBreak,
    SelectStart,
    SelectCompare,
    SelectEnd,
    Jump,
    JumpIfFalse,
    JumpDynamicLabel,
    InvokeEvent,
    Return,
    Yield,
    AwaitResume,
    Trap,
    ResolveFunction,
    InvokeDynamic,
    Call,
    CallNative,
    CallHost,
    ResolveUserCall,
    GuardUserArgument,
    SelectUserArgument,
    CaptureUserArgument,
    AdvanceUserArgument,
    InvokeUserCall,
    AbandonUserCall,
    ProbeVariableName,
    BeginExistVarProbe,
    FinishExistVarProbe,
    BeginBitCall,
    FinishBitCall,
    /// A number that encodes no operation.
    Unknown(u16),
}

/// One encoded instruction.
#[derive(PartialEq, Eq, Debug)]
pub struct Instruction {
    pub opcode: Opcode,
    pub payload: Vec<u8>,
    /// The user-call operands that the payload holds, if it is well formed.
    pub user_call: Option<Rc<UserCallSpec>>,
    /// The BIT operands that the payload holds, if it is well formed.
    pub bit_call: Option<BitCallSpec>,
}

/// How a user function is called.
#[derive(Clone, Copy, PartialEq, Eq, Debug, Structural)]
pub enum UserCallMode {
    Call,
    CallMethod,
    Jump,
    Value(BytecodeType),
}

impl UserCallMode {
    /// The type of the value that the caller expects back.
    pub open spec fn expected(self) -> Option<BytecodeType> {
        match self {
            UserCallMode::Value(t) => Some(t),
            _ => None,
        }
    }

    pub fn expected_result(self) -> (r: Option<BytecodeType>)
        ensures
            r == self.expected(),
    {
        match self {
            UserCallMode::Value(t) => Some(t),
            _ => None,
        }
    }

    /// The call replaces its caller.
    pub fn unwinds_caller(self) -> (r: bool)
        ensures
            r == (self is Jump),
    {
        match self {
            UserCallMode::Jump => true,
            _ => false,
        }
    }
}

/// What stands in one argument position of a user call.
#[derive(Clone, Copy, PartialEq, Eq, Debug, Structural)]
pub enum UserArgumentSpec {
    Omitted,
    Value(BytecodeType),
    Variable(SymbolKey),
}

/// Operands of a user call.
#[derive(PartialEq, Eq, Debug)]
pub struct UserCallSpec {
    pub mode: UserCallMode,
    pub allow_missing: bool,
    pub missing_target: u32,
    pub arguments: Vec<UserArgumentSpec>,
}

/// What a BIT call does.
#[derive(Clone, Copy, PartialEq, Eq, Debug, Structural)]
pub enum BitOperation {
    SetBits,
    GetBit,
    ToggleBits,
    IndexOfFirst,
}

/// Operands of a BIT call.
#[derive(Clone, Copy, PartialEq, Eq, Debug, Structural)]
pub struct BitCallSpec {
    pub operation: BitOperation,
    pub input: SymbolKey,
    pub tail_count: u8,
    pub present: u8,
}

/// What an argument of a staged call looks like.
#[derive(Clone, Copy, PartialEq, Eq, Debug, Structural)]
pub struct RuntimeExpressionShape {
    pub value_type: BytecodeType,
    pub variable: bool,
    pub mutable: bool,
}

/// An operation on arrays that is done in stages.
#[derive(Clone, Copy, PartialEq, Eq, Debug, Structural)]
pub enum RuntimeStagedKind {
    Bit(BitOperation),
    MatchAll,
    MatchAllEx,
}

/// A staged operation that a program may use, and the arguments that it takes.
#[derive(PartialEq, Eq, Debug)]
pub struct StagedAuthorization {
    pub name: String,
    pub kind: RuntimeStagedKind,
    pub accepted: Vec<Vec<Option<RuntimeExpressionShape>>>,
}

/// A service call of a formatted text, bound to the shapes of its arguments.
#[derive(PartialEq, Eq, Debug)]
pub struct BoundRuntimeNative {
    pub service_key: SymbolKey,
    pub import: Rc<RuntimeImport>,
    pub omitted_arguments: Vec<u16>,
}

/// The service call that arguments of some shapes make.
#[derive(PartialEq, Eq, Debug)]
pub struct NativeBinding {
    pub shapes: Vec<Option<RuntimeExpressionShape>>,
    pub bound: Rc<BoundRuntimeNative>,
}

/// A service that formatted texts may call.
#[derive(PartialEq, Eq, Debug)]
pub struct RuntimeNativeAuthorization {
    pub key: SymbolKey,
    pub name: String,
    /// The provider contract is the one that the name stands for.
    pub canonical: bool,
    pub bindings: Vec<NativeBinding>,
}

/// How a host call of a formatted text is taken apart.
#[derive(Clone, Copy, PartialEq, Eq, Debug, Structural)]
pub enum RuntimeHostLowering {
    Eager,
    HtmlLength,
    HtmlLines,
}

/// A stage of a host call.
#[derive(Clone, Copy, PartialEq, Eq, Debug, Structural)]
pub enum RuntimeHostStage {
    Call,
    MeasureLength,
    LengthUnit,
    LinesBegin,
    LinesMore,
    LinesStep,
    LinesEnd,
}

/// A host call of a formatted text, bound to the shapes of its arguments.
#[derive(PartialEq, Eq, Debug)]
pub struct BoundRuntimeHost {
    pub family_key: SymbolKey,
    pub import: Rc<RuntimeImport>,
    pub omitted_arguments: Vec<u16>,
}

/// The host call that arguments of some shapes make.
#[derive(PartialEq, Eq, Debug)]
pub struct HostBinding {
    pub shapes: Vec<Option<RuntimeExpressionShape>>,
    pub bound: Rc<BoundRuntimeHost>,
}

/// An argument of a host call that must be a variable of some rank.
#[derive(PartialEq, Eq, Debug)]
pub struct HostPlaceRanks {
    pub slot: usize,
    pub ranks: Vec<usize>,
    pub value_type: BytecodeType,
}

/// The host service that a stage of a bound call asks.
#[derive(PartialEq, Eq, Debug)]
pub struct HostStageImport {
    pub stage: RuntimeHostStage,
    pub call: SymbolKey,
    pub target: Rc<HostImport>,
}

/// A host service that formatted texts may call.
#[derive(PartialEq, Eq, Debug)]
pub struct RuntimeHostAuthorization {
    pub key: SymbolKey,
    pub name: String,
    pub lowering: RuntimeHostLowering,
    pub bindings: Vec<HostBinding>,
    pub places: Vec<HostPlaceRanks>,
    pub stages: Vec<HostStageImport>,
}

/// A callable name of the language, with the arguments that it takes.
#[derive(PartialEq, Eq, Debug)]
pub struct RuntimeBuiltin {
    pub name: String,
    pub accepted: Vec<Vec<Option<RuntimeExpressionShape>>>,
    pub result: BytecodeType,
}

/// A map operation; `values` tells the one that hands out all values.
#[derive(PartialEq, Eq, Debug)]
pub struct MapOperation {
    pub name: String,
    pub values: bool,
    pub parameters: Vec<Vec<BytecodeType>>,
    pub result: BytecodeType,
}

/// What calling a user function with some arguments comes to.
#[derive(PartialEq, Eq, Debug)]
pub enum UserResolutionOutcome {
    Found(Rc<crate::state::ResolvedUserCall>),
    Refused(String),
}

/// One way of calling a user function.
#[derive(PartialEq, Eq, Debug)]
pub struct UserResolution {
    pub name: String,
    pub mode: UserCallMode,
    pub arguments: Vec<UserArgumentSpec>,
    pub outcome: UserResolutionOutcome,
}

/// What the expression rules say of a variable.
#[derive(Clone, Copy, PartialEq, Eq, Debug, Structural)]
pub struct RuntimeVariable {
    pub key: SymbolKey,
    pub reference: bool,
    pub can_restructure: bool,
    pub is_const: bool,
}

/// A name that stands for an index of a variable.
#[derive(PartialEq, Eq, Debug)]
pub struct NamedIndex {
    pub variable: String,
    pub candidate: String,
    pub dimension: usize,
    pub value: i64,
}

/// Operands of a call whose target and arguments are given as text.
#[derive(Clone, Copy, PartialEq, Eq, Debug, Structural)]
pub struct CallTextSpec {
    pub jump: bool,
    pub allow_missing: bool,
    pub has_catch: bool,
    pub catch_target: u32,
}

impl CallTextSpec {
    pub open spec fn mode(self) -> UserCallMode {
        if self.jump {
            UserCallMode::Jump
        } else {
            UserCallMode::Call
        }
    }

    /// How the target is called.
    pub fn user_call_mode(self) -> (r: UserCallMode)
        ensures
            r == self.mode(),
    {
        if self.jump {
            UserCallMode::Jump
        } else {
            UserCallMode::Call
        }
    }
}

/// Where MATCH searches.
#[derive(PartialEq, Eq, Debug)]
pub enum MatchInput {
    Variable(SymbolKey),
    Name(String),
}

/// Operands of a MATCH call.
#[derive(PartialEq, Eq, Debug)]
pub struct MatchCallSpec {
    pub input: MatchInput,
    pub output: Option<SymbolKey>,
    pub needle: BytecodeType,
    pub begin_type: BytecodeType,
    pub end_type: Option<BytecodeType>,
}

/// A variable of a program.
#[derive(PartialEq, Eq, Debug)]
pub struct BytecodeGlobal {
    pub key: SymbolKey,
    pub name: String,
    pub owner: Option<SymbolKey>,
    pub value_type: BytecodeType,
    pub storage: BytecodeStorage,
    pub dimensions: Vec<u64>,
    pub mutable: bool,
}

#[derive(Clone, Copy, PartialEq, Eq, Debug, Structural)]
pub enum BytecodeFunctionKind {
    Normal,
    Method,
    Event,
}

/// A formal parameter.
#[derive(PartialEq, Eq, Debug)]
pub struct BytecodeParameter {
    pub variable: SymbolKey,
    pub value_type: BytecodeType,
    pub by_reference: bool,
    pub default: Option<Rc<VmValue>>,
}

#[derive(PartialEq, Eq, Debug)]
pub struct BytecodeLabel {
    pub name: String,
    pub instruction: u32,
}

#[derive(Clone, Copy, PartialEq, Eq, Debug, Structural)]
pub enum ImportKind {
    Function,
    Native,
    Host,
}

/// A callee that a function refers to by index.
#[derive(Clone, Copy, PartialEq, Eq, Debug, Structural)]
pub struct FunctionImport {
    pub key: SymbolKey,
    pub kind: ImportKind,
}

#[derive(PartialEq, Eq, Debug)]
pub struct BytecodeFunction {
    pub key: SymbolKey,
    pub name: String,
    pub kind: BytecodeFunctionKind,
    pub parameters: Vec<BytecodeParameter>,
    pub result: Option<BytecodeType>,
    pub code: Vec<Instruction>,
    pub labels: Vec<BytecodeLabel>,
    pub imports: Vec<FunctionImport>,
}

/// A service outside the program.
#[derive(PartialEq, Eq, Debug)]
pub struct RuntimeImport {
    pub key: SymbolKey,
    pub namespace: String,
    pub name: String,
    pub parameters: Vec<BytecodeType>,
    pub result: Option<BytecodeType>,
}

/// A service of the host.
#[derive(PartialEq, Eq, Debug)]
pub struct HostImport {
    pub import: Rc<RuntimeImport>,
    pub may_suspend: bool,
    pub stable_wait: bool,
}

/// A service of the machine; `name` is its normalized name.
#[derive(PartialEq, Eq, Debug)]
pub struct NativeImport {
    pub import: Rc<RuntimeImport>,
    pub normalized_name: String,
}

#[derive(Clone, Copy, PartialEq, Eq, Debug, Structural)]
pub struct BytecodeEventEntry {
    pub function: SymbolKey,
    pub single: bool,
}

/// The handlers of one event, by group.
#[derive(PartialEq, Eq, Debug)]
pub struct EventGroup {
    pub name: String,
    pub only: Vec<BytecodeEventEntry>,
    pub priority: Vec<BytecodeEventEntry>,
    pub normal: Vec<BytecodeEventEntry>,
    pub later: Vec<BytecodeEventEntry>,
}

/// A block that a jump can enter from outside.
#[derive(Clone, Copy, PartialEq, Eq, Debug, Structural)]
pub enum StructuredScopeKind {
    Loop,
    Select,
}

/// What a jump between two instructions does to the open blocks.
#[derive(PartialEq, Eq, Debug)]
pub struct StructuredTransition {
    pub function: SymbolKey,
    pub from: usize,
    pub to: usize,
    pub retain_loops: usize,
    pub retain_selects: usize,
    pub entered: Vec<StructuredScopeKind>,
}

/// A membership test against literal candidates, foldable into one step.
#[derive(PartialEq, Eq, Debug)]
pub struct LiteralGroupMatchPlan {
    pub function: SymbolKey,
    pub instruction: usize,
    pub candidates: Vec<String>,
    pub after_call: usize,
}

/// A scalar that a bulk loop reads.
#[derive(PartialEq, Eq, Debug)]
pub struct LoopOperand {
    pub variable: SymbolKey,
    pub indices: Vec<u64>,
}

/// What a bulk loop does to each cell of its row.
#[derive(PartialEq, Eq, Debug)]
pub enum BulkArrayOperation {
    Fill(i64),
    /// Each cell of the row of `source` goes to the column that stands `offset` further.
    Copy { source: SymbolKey, offset: i64 },
}

/// A counting loop over one row of an array, foldable into one step.
#[derive(PartialEq, Eq, Debug)]
pub struct BulkLoopPlan {
    pub function: SymbolKey,
    pub instruction: usize,
    pub counter: SymbolKey,
    pub counter_indices: Vec<u64>,
    pub prefix: LoopOperand,
    pub target: SymbolKey,
    pub operation: BulkArrayOperation,
    pub iteration_instructions: u64,
    pub stack_peak: usize,
    pub after_loop: usize,
}

/// A function that reads one cell of a table by a memoized selector.
#[derive(PartialEq, Eq, Debug)]
pub struct MemoizedIndexedReadPlan {
    pub function: SymbolKey,
    pub index_parameter: usize,
    pub selector_parameter: usize,
    pub selector_prefix: String,
    pub selector_function: SymbolKey,
    pub scratch: SymbolKey,
    pub target: SymbolKey,
}

/// Integer behaviour at the edges of the range.
#[derive(Clone, Copy, PartialEq, Eq, Debug, Structural)]
pub enum IntegerArithmeticPolicy {
    ReferenceWrappingV1,
    SnakeSaturatingV1,
}

/// What happens to arguments that no formal parameter takes.
#[derive(Clone, Copy, PartialEq, Eq, Debug, Structural)]
pub enum ExcessArgumentPolicy {
    Reject,
    Ignore,
    IgnoreWithWarning,
}

#[derive(Clone, Copy, PartialEq, Eq, Debug, Structural)]
pub struct CallCompatibility {
    pub allow_event_as_normal: bool,
    pub excess_arguments: ExcessArgumentPolicy,
    pub system_no_target: bool,
    pub compatible_rand: bool,
    pub allow_full_width_space: bool,
    pub debug_semicolon: bool,
    pub ignore_triple_symbols: bool,
}

/// A source position.
#[derive(Clone, Copy, PartialEq, Eq, Debug, Structural)]
pub struct SourceLocation {
    pub file: u32,
    pub line: u32,
}

#[derive(Clone, Copy, PartialEq, Eq, Debug, Structural)]
pub struct SourceMapEntry {
    pub function: SymbolKey,
    pub instruction: usize,
    pub location: SourceLocation,
}

/// A number of a character field.
#[derive(Clone, Copy, PartialEq, Eq, Debug, Structural)]
pub struct FieldNumber {
    pub index: usize,
    pub value: i64,
}

#[derive(PartialEq, Eq, Debug)]
pub struct FieldText {
    pub index: usize,
    pub value: String,
}

/// A character as the project data describes it.
#[derive(PartialEq, Eq, Debug)]
pub struct CharacterTemplate {
    pub no: i64,
    pub csv_no: i64,
    pub is_sp_character: bool,
    pub name: String,
    pub call_name: String,
    pub nick_name: String,
    pub master_name: String,
    pub cstr: Vec<FieldText>,
    pub max_base: Vec<FieldNumber>,
    pub abl: Vec<FieldNumber>,
    pub mark: Vec<FieldNumber>,
    pub exp: Vec<FieldNumber>,
    pub relation: Vec<FieldNumber>,
    pub talent: Vec<FieldNumber>,
    pub cflag: Vec<FieldNumber>,
    pub equip: Vec<FieldNumber>,
    pub juel: Vec<FieldNumber>,
    /// The variables of a new character of this kind.
    pub initial: crate::memory::CellMap,
}

/// One loaded program.
#[derive(PartialEq, Eq, Debug)]
pub struct ProgramGeneration {
    pub globals: Vec<BytecodeGlobal>,
    pub functions: Vec<BytecodeFunction>,
    pub event_groups: Vec<EventGroup>,
    pub host_imports: Vec<HostImport>,
    pub native_imports: Vec<NativeImport>,
    pub call_compatibility: CallCompatibility,
    pub integer_policy: IntegerArithmeticPolicy,
    pub existvar_expression_probe: bool,
    pub snake_data_apis: bool,
    pub checked_runtime_forms: bool,
    pub call_text: bool,
    pub map_extensions: bool,
    pub snake_input: bool,
    pub staged_authorizations: Vec<StagedAuthorization>,
    pub native_authorizations: Vec<RuntimeNativeAuthorization>,
    pub host_authorizations: Vec<RuntimeHostAuthorization>,
    pub builtins: Vec<RuntimeBuiltin>,
    pub map_operations: Vec<MapOperation>,
    pub user_resolutions: Vec<UserResolution>,
    pub runtime_variables: Vec<RuntimeVariable>,
    pub named_indices: Vec<NamedIndex>,
    /// Services whose calls with literal arguments are computed when arguments are reduced.
    pub foldable_services: Vec<String>,
    /// Services that work on the columns of structured data; only compiled code may call them.
    pub internal_columns: Vec<String>,
    pub structured_jumps: Vec<StructuredTransition>,
    pub literal_group_matches: Vec<LiteralGroupMatchPlan>,
    pub bulk_loops: Vec<BulkLoopPlan>,
    pub indexed_reads: Vec<MemoizedIndexedReadPlan>,
    pub source_map: Vec<SourceMapEntry>,
    pub characters: Vec<CharacterTemplate>,
    pub default_character: i64,
    pub stain_default: Vec<i64>,
    /// The variables of a character without a template.
    pub void_character: crate::memory::CellMap,
}

pub open spec fn global_key(key: SymbolKey) -> spec_fn(BytecodeGlobal) -> bool {
    |g: BytecodeGlobal| g.key == key
}

pub open spec fn global_named(name: Seq<char>) -> spec_fn(BytecodeGlobal) -> bool {
    |g: BytecodeGlobal| g.owner is None && text::same_ignoring_case(g.name@, name)
}

pub open spec fn local_named(function: SymbolKey, name: Seq<char>) -> spec_fn(
    BytecodeGlobal,
) -> bool {
    |g: BytecodeGlobal| g.owner == Some(function) && text::same_ignoring_case(g.name@, name)
}

pub open spec fn function_key(key: SymbolKey) -> spec_fn(BytecodeFunction) -> bool {
    |f: BytecodeFunction| f.key == key
}

pub open spec fn function_named(name: Seq<char>) -> spec_fn(BytecodeFunction) -> bool {
    |f: BytecodeFunction| text::same_ignoring_case(f.name@, name)
}

impl ProgramGeneration {
    /// The variable with a key.
    pub open spec fn spec_global(&self, key: SymbolKey) -> Option<&BytecodeGlobal> {
        match lookup::first_index(self.globals@, global_key(key)) {
            Some(i) => Some(&self.globals@[i]),
            None => None,
        }
    }

    pub fn global(&self, key: SymbolKey) -> (r: Option<&BytecodeGlobal>)
        ensures
            r == self.spec_global(key),
            r matches Some(g) ==> g.key == key,
    {
        let mut i: usize = 0;
        while i < self.globals.len()
            invariant
                i <= self.globals.len(),
                forall|j: int| 0 <= j < i ==> !global_key(key)(#[trigger] self.globals@[j]),
            decreases self.globals.len() - i,
        {
            if self.globals[i].key == key {
                proof {
                    lookup::lemma_first_found(self.globals@, global_key(key), i as int);
                }
                return Some(&self.globals[i]);
            }
            i = i + 1;
        }
        None
    }

    /// The variable of the whole program with a name.
    pub open spec fn spec_global_by_name(&self, name: Seq<char>) -> Option<&BytecodeGlobal> {
        match lookup::first_index(self.globals@, global_named(name)) {
            Some(i) => Some(&self.globals@[i]),
            None => None,
        }
    }

    pub fn global_by_name(&self, name: &str) -> (r: Option<&BytecodeGlobal>)
        ensures
            r == self.spec_global_by_name(name@),
    {
        let mut i: usize = 0;
        while i < self.globals.len()
            invariant
                i <= self.globals.len(),
                forall|j: int| 0 <= j < i ==> !global_named(name@)(#[trigger] self.globals@[j]),
            decreases self.globals.len() - i,
        {
            if self.globals[i].owner.is_none() && text::eq_ignore_ascii_case(
                self.globals[i].name.as_str(),
                name,
            ) {
                proof {
                    lookup::lemma_first_found(self.globals@, global_named(name@), i as int);
                }
                return Some(&self.globals[i]);
            }
            i = i + 1;
        }
        None
    }

    /// The variable that a name means inside a function: its own, else the program's.
    pub open spec fn spec_scoped_variable(
        &self,
        function: SymbolKey,
        name: Seq<char>,
    ) -> Option<&BytecodeGlobal> {
        match lookup::first_index(self.globals@, local_named(function, name)) {
            Some(i) => Some(&self.globals@[i]),
            None => self.spec_global_by_name(name),
        }
    }

    pub fn scoped_variable(&self, function: SymbolKey, name: &str) -> (r: Option<&BytecodeGlobal>)
        ensures
            r == self.spec_scoped_variable(function, name@),
    {
        let mut i: usize = 0;
        while i < self.globals.len()
            invariant
                i <= self.globals.len(),
                forall|j: int|
                    0 <= j < i ==> !local_named(function, name@)(#[trigger] self.globals@[j]),
            decreases self.globals.len() - i,
        {
            let own: bool = match self.globals[i].owner {
                Some(owner) => owner == function,
                None => false,
            };
            if own && text::eq_ignore_ascii_case(self.globals[i].name.as_str(), name) {
                proof {
                    lookup::lemma_first_found(
                        self.globals@,
                        local_named(function, name@),
                        i as int,
                    );
                }
                return Some(&self.globals[i]);
            }
            i = i + 1;
        }
        self.global_by_name(name)
    }

    /// The function with a key.
    pub open spec fn spec_function(&self, key: SymbolKey) -> Option<&BytecodeFunction> {
        match lookup::first_index(self.functions@, function_key(key)) {
            Some(i) => Some(&self.functions@[i]),
            None => None,
        }
    }

    pub fn function(&self, key: SymbolKey) -> (r: Option<&BytecodeFunction>)
        ensures
            r == self.spec_function(key),
            r matches Some(f) ==> f.key == key,
    {
        let mut i: usize = 0;
        while i < self.functions.len()
            invariant
                i <= self.functions.len(),
                forall|j: int| 0 <= j < i ==> !function_key(key)(#[trigger] self.functions@[j]),
            decreases self.functions.len() - i,
        {
            if self.functions[i].key == key {
                proof {
                    lookup::lemma_first_found(self.functions@, function_key(key), i as int);
                }
                return Some(&self.functions[i]);
            }
            i = i + 1;
        }
        None
    }

    /// The function with a name.
    pub open spec fn spec_function_by_name(&self, name: Seq<char>) -> Option<&BytecodeFunction> {
        match lookup::first_index(self.functions@, function_named(name)) {
            Some(i) => Some(&self.functions@[i]),
            None => None,
        }
    }

    pub fn function_by_name(&self, name: &str) -> (r: Option<&BytecodeFunction>)
        ensures
            r == self.spec_function_by_name(name@),
    {
        let mut i: usize = 0;
        while i < self.functions.len()
            invariant
                i <= self.functions.len(),
                forall|j: int| 0 <= j < i ==> !function_named(name@)(#[trigger] self.functions@[j]),
            decreases self.functions.len() - i,
        {
            if text::eq_ignore_ascii_case(self.functions[i].name.as_str(), name) {
                proof {
                    lookup::lemma_first_found(self.functions@, function_named(name@), i as int);
                }
                return Some(&self.functions[i]);
            }
            i = i + 1;
        }
        None
    }
}

} // verus!
