//! Where execution stands, for faults and diagnostics.

use vstd::prelude::*;
use crate::fault::{Failure, FaultCategory, StepError, VmFaultCode};
use crate::lookup;
use crate::operand;
use crate::program::{
    HostImport, NativeImport, Opcode, ProgramGeneration, SourceLocation, SourceMapEntry,
};
use crate::state::{At, InstructionPosition, Vm, VmExecutionOrigin, VmModel};
use crate::text;
use crate::value::{FiberId, GenerationId, SymbolKey};

verus! {

/// Mathematical content of a [`VmExecutionOrigin`].
pub struct OriginModel {
    pub generation: GenerationId,
    pub function: SymbolKey,
    pub function_name: Seq<char>,
    pub instruction: u32,
    pub command: Seq<char>,
    pub source: Option<SourceLocation>,
}

impl View for VmExecutionOrigin {
    type V = OriginModel;

    open spec fn view(&self) -> OriginModel {
        OriginModel {
            generation: self.generation,
            function: self.function,
            function_name: self.function_name@,
            instruction: self.instruction,
            command: self.command@,
            source: self.source,
        }
    }
}

/// A failure with the place it happened at.
#[derive(PartialEq, Eq, Debug)]
pub struct VmFault {
    pub category: FaultCategory,
    pub code: VmFaultCode,
    pub message: String,
    pub fiber: FiberId,
    pub generation: GenerationId,
    pub function: SymbolKey,
    pub function_name: String,
    pub instruction: u32,
    pub command: String,
    pub source: Option<SourceLocation>,
}

/// Mathematical content of a [`VmFault`].
pub struct FaultModel {
    pub failure: Failure,
    pub fiber: FiberId,
    pub origin: OriginModel,
}

impl View for VmFault {
    type V = FaultModel;

    open spec fn view(&self) -> FaultModel {
        FaultModel {
            failure: Failure { category: self.category, code: self.code, message: self.message@ },
            fiber: self.fiber,
            origin: OriginModel {
                generation: self.generation,
                function: self.function,
                function_name: self.function_name@,
                instruction: self.instruction,
                command: self.command@,
                source: self.source,
            },
        }
    }
}

/// The name of an operation.
pub open spec fn opcode_text(opcode: Opcode) -> Seq<char> {
    match opcode {
        Opcode::Nop => "Nop"@,
        Opcode::PushInteger => "PushInteger"@,
        Opcode::PushString => "PushString"@,
        Opcode::LoadVariable => "LoadVariable"@,
        Opcode::StoreVariable => "StoreVariable"@,
        Opcode::MakePlace => "MakePlace"@,
        Opcode::Unary => "Unary"@,
        Opcode::Binary => "Binary"@,
        Opcode::ToString => "ToString"@,
        Opcode::Pop => "Pop"@,
        Opcode::Dup => "Dup"@,
        Opcode::StorePlace => "StorePlace"@,
        Opcode::Concat => "Concat"@,
        Opcode::ForStart => "ForStart"@,
        Opcode::ForNext => "ForNext"@,
        Opcode::ForBreak => "ForBreak"@,
        Opcode::SelectStart => "SelectStart"@,
        Opcode::SelectCompare => "SelectCompare"@,
        Opcode::SelectEnd => "SelectEnd"@,
        Opcode::Jump => "Jump"@,
        Opcode::JumpIfFalse => "JumpIfFalse"@,
        Opcode::JumpDynamicLabel => "JumpDynamicLabel"@,
        Opcode::InvokeEvent => "InvokeEvent"@,
        Opcode::Return => "Return"@,
        Opcode::Yield => "Yield"@,
        Opcode::AwaitResume => "AwaitResume"@,
        Opcode::Trap => "Trap"@,
        Opcode::ResolveFunction => "ResolveFunction"@,
        Opcode::InvokeDynamic => "InvokeDynamic"@,
        Opcode::Call => "Call"@,
        Opcode::CallNative => "CallNative"@,
        Opcode::CallHost => "CallHost"@,
        Opcode::ResolveUserCall => "ResolveUserCall"@,
        Opcode::GuardUserArgument => "GuardUserArgument"@,
        Opcode::SelectUserArgument => "SelectUserArgument"@,
        Opcode::CaptureUserArgument => "CaptureUserArgument"@,
        Opcode::AdvanceUserArgument => "AdvanceUserArgument"@,
        Opcode::InvokeUserCall => "InvokeUserCall"@,
        Opcode::AbandonUserCall => "AbandonUserCall"@,
        Opcode::ProbeVariableName => "ProbeVariableName"@,
        Opcode::BeginExistVarProbe => "BeginExistVarProbe"@,
        Opcode::FinishExistVarProbe => "FinishExistVarProbe"@,
        Opcode::BeginBitCall => "BeginBitCall"@,
        Opcode::FinishBitCall => "FinishBitCall"@,
        Opcode::Unknown(n) => "opcode:"@ + text::decimal(n as int),
    }
}

fn opcode_name(opcode: Opcode) -> (r: &'static str)
    requires
        !(opcode is Unknown),
    ensures
        r@ == opcode_text(opcode),
{
    match opcode {
        Opcode::Nop => "Nop",
        Opcode::PushInteger => "PushInteger",
        Opcode::PushString => "PushString",
        Opcode::LoadVariable => "LoadVariable",
        Opcode::StoreVariable => "StoreVariable",
        Opcode::MakePlace => "MakePlace",
        Opcode::Unary => "Unary",
        Opcode::Binary => "Binary",
        Opcode::ToString => "ToString",
        Opcode::Pop => "Pop",
        Opcode::Dup => "Dup",
        Opcode::StorePlace => "StorePlace",
        Opcode::Concat => "Concat",
        Opcode::ForStart => "ForStart",
        Opcode::ForNext => "ForNext",
        Opcode::ForBreak => "ForBreak",
        Opcode::SelectStart => "SelectStart",
        Opcode::SelectCompare => "SelectCompare",
        Opcode::SelectEnd => "SelectEnd",
        Opcode::Jump => "Jump",
        Opcode::JumpIfFalse => "JumpIfFalse",
        Opcode::JumpDynamicLabel => "JumpDynamicLabel",
        Opcode::InvokeEvent => "InvokeEvent",
        Opcode::Return => "Return",
        Opcode::Yield => "Yield",
        Opcode::AwaitResume => "AwaitResume",
        Opcode::Trap => "Trap",
        Opcode::ResolveFunction => "ResolveFunction",
        Opcode::InvokeDynamic => "InvokeDynamic",
        Opcode::Call => "Call",
        Opcode::CallNative => "CallNative",
        Opcode::CallHost => "CallHost",
        Opcode::ResolveUserCall => "ResolveUserCall",
        Opcode::GuardUserArgument => "GuardUserArgument",
        Opcode::SelectUserArgument => "SelectUserArgument",
        Opcode::CaptureUserArgument => "CaptureUserArgument",
        Opcode::AdvanceUserArgument => "AdvanceUserArgument",
        Opcode::InvokeUserCall => "InvokeUserCall",
        Opcode::AbandonUserCall => "AbandonUserCall",
        Opcode::ProbeVariableName => "ProbeVariableName",
        Opcode::BeginExistVarProbe => "BeginExistVarProbe",
        Opcode::FinishExistVarProbe => "FinishExistVarProbe",
        Opcode::BeginBitCall => "BeginBitCall",
        Opcode::FinishBitCall => "FinishBitCall",
        Opcode::Unknown(_) => "",
    }
}

pub open spec fn host_key(key: SymbolKey) -> spec_fn(HostImport) -> bool {
    |i: HostImport| i.import.key == key
}

pub open spec fn native_key(key: SymbolKey) -> spec_fn(NativeImport) -> bool {
    |i: NativeImport| i.import.key == key
}

/// The name of the service with a key; host services stand before native ones.
pub open spec fn service_name(program: ProgramGeneration, key: SymbolKey) -> Option<Seq<char>> {
    match lookup::first_index(program.host_imports@, host_key(key)) {
        Some(i) => Some(program.host_imports@[i].import.name@),
        None => match lookup::first_index(program.native_imports@, native_key(key)) {
            Some(i) => Some(program.native_imports@[i].import.name@),
            None => None,
        },
    }
}

/// The key in the first sixteen bytes of an operand.
pub open spec fn key_of(payload: Seq<u8>) -> SymbolKey {
    SymbolKey(
        (operand::little_endian(payload, 0, 8) + 0x1_0000_0000_0000_0000
            * operand::little_endian(payload, 8, 16)) as u128,
    )
}

pub(crate) fn read_key(payload: &[u8]) -> (r: SymbolKey)
    requires
        payload@.len() >= 16,
    ensures
        r == key_of(payload@),
{
    let low: u64 = operand::bytes_number(payload, 0, 8);
    let high: u64 = operand::bytes_number(payload, 8, 8);
    SymbolKey((low as u128) + 0x1_0000_0000_0000_0000u128 * (high as u128))
}

/// What a command is called: the service it calls, else its operation.
pub open spec fn command_text(vm: VmModel, at: At) -> Seq<char> {
    if (at.opcode is CallHost || at.opcode is CallNative) && at.payload.len() >= 16 {
        match vm.program(at.generation) {
            None => opcode_text(at.opcode),
            Some(program) => match service_name(program, key_of(at.payload)) {
                Some(name) => name,
                None => opcode_text(at.opcode),
            },
        }
    } else {
        opcode_text(at.opcode)
    }
}

pub open spec fn source_at(function: SymbolKey, instruction: usize) -> spec_fn(
    SourceMapEntry,
) -> bool {
    |e: SourceMapEntry| e.function == function && e.instruction == instruction
}

/// The source position of an instruction.
pub open spec fn location_of(
    program: ProgramGeneration,
    function: SymbolKey,
    instruction: usize,
) -> Option<SourceLocation> {
    match lookup::first_index(program.source_map@, source_at(function, instruction)) {
        Some(i) => Some(program.source_map@[i].location),
        None => None,
    }
}

/// An instruction number as it is reported.
pub open spec fn reported_instruction(instruction: usize) -> u32 {
    if instruction > u32::MAX {
        u32::MAX
    } else {
        instruction as u32
    }
}

/// Where execution stands.
pub open spec fn origin_of(vm: VmModel, at: At, command: Seq<char>) -> OriginModel {
    OriginModel {
        generation: at.generation,
        function: at.function,
        function_name: match vm.program(at.generation) {
            None => Seq::empty(),
            Some(program) => match program.spec_function(at.function) {
                None => Seq::empty(),
                Some(f) => f.name@,
            },
        },
        instruction: reported_instruction(at.instruction),
        command,
        source: match vm.program(at.generation) {
            None => None,
            Some(program) => location_of(program, at.function, at.instruction),
        },
    }
}

impl ProgramGeneration {
    /// The name of the service with a key.
    pub fn find_service_name(&self, key: SymbolKey) -> (r: Option<String>)
        ensures
            match r {
                Some(s) => service_name(*self, key) == Some(s@),
                None => service_name(*self, key) is None,
            },
    {
        let mut i: usize = 0;
        while i < self.host_imports.len()
            invariant
                i <= self.host_imports.len(),
                forall|j: int| 0 <= j < i ==> !host_key(key)(#[trigger] self.host_imports@[j]),
            decreases self.host_imports.len() - i,
        {
            if self.host_imports[i].import.key == key {
                proof {
                    lookup::lemma_first_found(self.host_imports@, host_key(key), i as int);
                }
                return Some(self.host_imports[i].import.name.clone());
            }
            i = i + 1;
        }
        let mut k: usize = 0;
        while k < self.native_imports.len()
            invariant
                k <= self.native_imports.len(),
                forall|j: int|
                    0 <= j < self.host_imports@.len() ==> !host_key(key)(
                        #[trigger] self.host_imports@[j],
                    ),
                forall|j: int| 0 <= j < k ==> !native_key(key)(#[trigger] self.native_imports@[j]),
            decreases self.native_imports.len() - k,
        {
            if self.native_imports[k].import.key == key {
                proof {
                    lookup::lemma_first_found(self.native_imports@, native_key(key), k as int);
                }
                return Some(self.native_imports[k].import.name.clone());
            }
            k = k + 1;
        }
        None
    }

    /// The source position of an instruction.
    pub fn source_location(&self, function: SymbolKey, instruction: usize) -> (r: Option<
        SourceLocation,
    >)
        ensures
            r == location_of(*self, function, instruction),
    {
        let mut i: usize = 0;
        while i < self.source_map.len()
            invariant
                i <= self.source_map.len(),
                forall|j: int|
                    0 <= j < i ==> !source_at(function, instruction)(
                        #[trigger] self.source_map@[j],
                    ),
            decreases self.source_map.len() - i,
        {
            let e = self.source_map[i];
            if e.function == function && e.instruction == instruction {
                proof {
                    lookup::lemma_first_found(
                        self.source_map@,
                        source_at(function, instruction),
                        i as int,
                    );
                }
                return Some(e.location);
            }
            i = i + 1;
        }
        None
    }
}

impl Vm {
    /// What a command is called.
    pub fn command_for_position(&self, position: &InstructionPosition<'_>) -> (r: String)
        ensures
            r@ == command_text(self@, position@),
    {
        let service: bool = match position.opcode {
            Opcode::CallHost | Opcode::CallNative => true,
            _ => false,
        };
        if service && position.payload.len() >= 16 {
            let key = read_key(position.payload);
            match self.program(position.generation) {
                None => {},
                Some(program) => match program.find_service_name(key) {
                    Some(name) => {
                        return name;
                    },
                    None => {},
                },
            }
        }
        match position.opcode {
            Opcode::Unknown(n) => text::join2("opcode:", text::integer_text(n as i64).as_str()),
            opcode => opcode_name(opcode).to_owned(),
        }
    }

    /// Where execution stands.
    pub fn execution_origin(&self, position: &InstructionPosition<'_>, command: &str) -> (r:
        VmExecutionOrigin)
        ensures
            r@ == origin_of(self@, position@, command@),
    {
        let mut function_name = String::new();
        proof {
            reveal_strlit("");
            assert(function_name@ =~= Seq::<char>::empty());
        }
        let mut source: Option<SourceLocation> = None;
        match self.program(position.generation) {
            None => {},
            Some(program) => {
                match program.function(position.function) {
                    Some(f) => {
                        function_name = f.name.clone();
                    },
                    None => {},
                }
                source = program.source_location(position.function, position.instruction);
            },
        }
        let instruction: u32 = if position.instruction as u64 > u32::MAX as u64 {
            u32::MAX
        } else {
            position.instruction as u32
        };
        VmExecutionOrigin {
            generation: position.generation,
            function: position.function,
            function_name,
            instruction,
            command: command.to_owned(),
            source,
        }
    }

    /// A fault of a given kind at a position.
    pub fn make_fault(
        &self,
        fiber: FiberId,
        position: &InstructionPosition<'_>,
        code: VmFaultCode,
        message: &str,
    ) -> (r: VmFault)
        ensures
            r@ == (FaultModel {
                failure: Failure::of(code, message@),
                fiber,
                origin: origin_of(self@, position@, command_text(self@, position@)),
            }),
    {
        self.make_classified_fault(fiber, position, StepError::new(code, message))
    }

    /// A failed step as a fault at a position.
    pub fn make_classified_fault(
        &self,
        fiber: FiberId,
        position: &InstructionPosition<'_>,
        failure: StepError,
    ) -> (r: VmFault)
        ensures
            r@ == (FaultModel {
                failure: failure@,
                fiber,
                origin: origin_of(self@, position@, command_text(self@, position@)),
            }),
    {
        let command = self.command_for_position(position);
        let origin = self.execution_origin(position, command.as_str());
        VmFault {
            category: failure.category,
            code: failure.code,
            message: failure.message,
            fiber,
            generation: position.generation,
            function: position.function,
            function_name: origin.function_name,
            instruction: origin.instruction,
            command,
            source: origin.source,
        }
    }
}

} // verus!
