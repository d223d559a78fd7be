//! The instruction catalog: one opcode byte per instruction, and the
//! decoders for the operands that follow it.
use vstd::prelude::*;
use crate::wire::{read_i32, read_u32, i32_at, u32_at, u64_at};

verus! {

#[derive(Clone, Copy, Debug, PartialEq, Eq, Structural)]
pub enum Instruction {
    Load8,
    Load16,
    Load32,
    Load64,
    Loadf32,
    Loadf64,
    Copy,
    Clone,
    Move,
    Clear,
    Destroy,
    Forget,
    LoadReturn,
    FetchRef,
    MakeShared,
    SetGlobal,
    CopyGlobal,
    CloneGlobal,
    AddU,
    SubU,
    MulU,
    DivU,
    RemU,
    AddS,
    SubS,
    MulS,
    DivS,
    RemS,
    AddF,
    SubF,
    MulF,
    DivF,
    And,
    Or,
    Xor,
    Not,
    ShiftLeft,
    LogicalShiftRight,
    ArithmeticShiftRight,
    ByteSwap,
    EqI,
    NeqI,
    EqF,
    NeqF,
    LtU,
    GtU,
    LteU,
    GteU,
    LtS,
    GtS,
    LteS,
    GteS,
    LtF,
    GtF,
    LteF,
    GteF,
    CreateObject,
    IsNull,
    IsNaN,
    IsInfinity,
    GetField,
    CopyField,
    TakeField,
    SetField,
    MoveField,
    PlaceField,
    Call,
    CallTail,
    Invoke,
    InvokeTail,
    Return,
    ReturnTail,
    ReturnUnit,
    ReturnTailUnit,
    CreateClosure,
    Jump,
    If,
    Switch,
    Match,
    StartBlock,
}

/// The opcode byte of each instruction.
pub open spec fn opcode(i: Instruction) -> u8 {
    match i {
        Instruction::Load8 => 0,
        Instruction::Load16 => 1,
        Instruction::Load32 => 2,
        Instruction::Load64 => 3,
        Instruction::Loadf32 => 4,
        Instruction::Loadf64 => 5,
        Instruction::Copy => 6,
        Instruction::Clone => 7,
        Instruction::Move => 8,
        Instruction::Clear => 9,
        Instruction::Destroy => 10,
        Instruction::Forget => 11,
        Instruction::LoadReturn => 12,
        Instruction::FetchRef => 13,
        Instruction::MakeShared => 14,
        Instruction::SetGlobal => 15,
        Instruction::CopyGlobal => 16,
        Instruction::CloneGlobal => 17,
        Instruction::AddU => 18,
        Instruction::SubU => 19,
        Instruction::MulU => 20,
        Instruction::DivU => 21,
        Instruction::RemU => 22,
        Instruction::AddS => 23,
        Instruction::SubS => 24,
        Instruction::MulS => 25,
        Instruction::DivS => 26,
        Instruction::RemS => 27,
        Instruction::AddF => 28,
        Instruction::SubF => 29,
        Instruction::MulF => 30,
        Instruction::DivF => 31,
        Instruction::And => 32,
        Instruction::Or => 33,
        Instruction::Xor => 34,
        Instruction::Not => 35,
        Instruction::ShiftLeft => 36,
        Instruction::LogicalShiftRight => 37,
        Instruction::ArithmeticShiftRight => 38,
        Instruction::ByteSwap => 39,
        Instruction::EqI => 40,
        Instruction::NeqI => 41,
        Instruction::EqF => 42,
        Instruction::NeqF => 43,
        Instruction::LtU => 44,
        Instruction::GtU => 45,
        Instruction::LteU => 46,
        Instruction::GteU => 47,
        Instruction::LtS => 48,
        Instruction::GtS => 49,
        Instruction::LteS => 50,
        Instruction::GteS => 51,
        Instruction::LtF => 52,
        Instruction::GtF => 53,
        Instruction::LteF => 54,
        Instruction::GteF => 55,
        Instruction::CreateObject => 56,
        Instruction::IsNull => 57,
        Instruction::IsNaN => 58,
        Instruction::IsInfinity => 59,
        Instruction::GetField => 60,
        Instruction::CopyField => 61,
        Instruction::TakeField => 62,
        Instruction::SetField => 63,
        Instruction::MoveField => 64,
        Instruction::PlaceField => 65,
        Instruction::Call => 66,
        Instruction::CallTail => 67,
        Instruction::Invoke => 68,
        Instruction::InvokeTail => 69,
        Instruction::Return => 70,
        Instruction::ReturnTail => 71,
        Instruction::ReturnUnit => 72,
        Instruction::ReturnTailUnit => 73,
        Instruction::CreateClosure => 74,
        Instruction::Jump => 75,
        Instruction::If => 76,
        Instruction::Switch => 77,
        Instruction::Match => 78,
        Instruction::StartBlock => 79,
    }
}

/// The instruction whose opcode byte is `b`, if any.
pub open spec fn instruction_of(b: u8) -> Option<Instruction> {
    match b {
        0 => Some(Instruction::Load8),
        1 => Some(Instruction::Load16),
        2 => Some(Instruction::Load32),
        3 => Some(Instruction::Load64),
        4 => Some(Instruction::Loadf32),
        5 => Some(Instruction::Loadf64),
        6 => Some(Instruction::Copy),
        7 => Some(Instruction::Clone),
        8 => Some(Instruction::Move),
        9 => Some(Instruction::Clear),
        10 => Some(Instruction::Destroy),
        11 => Some(Instruction::Forget),
        12 => Some(Instruction::LoadReturn),
        13 => Some(Instruction::FetchRef),
        14 => Some(Instruction::MakeShared),
        15 => Some(Instruction::SetGlobal),
        16 => Some(Instruction::CopyGlobal),
        17 => Some(Instruction::CloneGlobal),
        18 => Some(Instruction::AddU),
        19 => Some(Instruction::SubU),
        20 => Some(Instruction::MulU),
        21 => Some(Instruction::DivU),
        22 => Some(Instruction::RemU),
        23 => Some(Instruction::AddS),
        24 => Some(Instruction::SubS),
        25 => Some(Instruction::MulS),
        26 => Some(Instruction::DivS),
        27 => Some(Instruction::RemS),
        28 => Some(Instruction::AddF),
        29 => Some(Instruction::SubF),
        30 => Some(Instruction::MulF),
        31 => Some(Instruction::DivF),
        32 => Some(Instruction::And),
        33 => Some(Instruction::Or),
        34 => Some(Instruction::Xor),
        35 => Some(Instruction::Not),
        36 => Some(Instruction::ShiftLeft),
        37 => Some(Instruction::LogicalShiftRight),
        38 => Some(Instruction::ArithmeticShiftRight),
        39 => Some(Instruction::ByteSwap),
        40 => Some(Instruction::EqI),
        41 => Some(Instruction::NeqI),
        42 => Some(Instruction::EqF),
        43 => Some(Instruction::NeqF),
        44 => Some(Instruction::LtU),
        45 => Some(Instruction::GtU),
        46 => Some(Instruction::LteU),
        47 => Some(Instruction::GteU),
        48 => Some(Instruction::LtS),
        49 => Some(Instruction::GtS),
        50 => Some(Instruction::LteS),
        51 => Some(Instruction::GteS),
        52 => Some(Instruction::LtF),
        53 => Some(Instruction::GtF),
        54 => Some(Instruction::LteF),
        55 => Some(Instruction::GteF),
        56 => Some(Instruction::CreateObject),
        57 => Some(Instruction::IsNull),
        58 => Some(Instruction::IsNaN),
        59 => Some(Instruction::IsInfinity),
        60 => Some(Instruction::GetField),
        61 => Some(Instruction::CopyField),
        62 => Some(Instruction::TakeField),
        63 => Some(Instruction::SetField),
        64 => Some(Instruction::MoveField),
        65 => Some(Instruction::PlaceField),
        66 => Some(Instruction::Call),
        67 => Some(Instruction::CallTail),
        68 => Some(Instruction::Invoke),
        69 => Some(Instruction::InvokeTail),
        70 => Some(Instruction::Return),
        71 => Some(Instruction::ReturnTail),
        72 => Some(Instruction::ReturnUnit),
        73 => Some(Instruction::ReturnTailUnit),
        74 => Some(Instruction::CreateClosure),
        75 => Some(Instruction::Jump),
        76 => Some(Instruction::If),
        77 => Some(Instruction::Switch),
        78 => Some(Instruction::Match),
        79 => Some(Instruction::StartBlock),
        _ => None,
    }
}

/// Every instruction's opcode is below 80 and decodes back to it; no byte
/// from 80 up decodes.
pub proof fn lemma_opcode_round_trip(i: Instruction, b: u8)
    ensures
        opcode(i) < 80,
        instruction_of(opcode(i)) == Some(i),
        b >= 80 ==> instruction_of(b) is None,
        b < 80 ==> (instruction_of(b) matches Some(j) && opcode(j) == b),
{
}

impl Instruction {
    /// The opcode byte of this instruction.
    pub fn to_byte(self) -> (r: u8)
        ensures
            r == opcode(self),
    {
        match self {
            Instruction::Load8 => 0,
            Instruction::Load16 => 1,
            Instruction::Load32 => 2,
            Instruction::Load64 => 3,
            Instruction::Loadf32 => 4,
            Instruction::Loadf64 => 5,
            Instruction::Copy => 6,
            Instruction::Clone => 7,
            Instruction::Move => 8,
            Instruction::Clear => 9,
            Instruction::Destroy => 10,
            Instruction::Forget => 11,
            Instruction::LoadReturn => 12,
            Instruction::FetchRef => 13,
            Instruction::MakeShared => 14,
            Instruction::SetGlobal => 15,
            Instruction::CopyGlobal => 16,
            Instruction::CloneGlobal => 17,
            Instruction::AddU => 18,
            Instruction::SubU => 19,
            Instruction::MulU => 20,
            Instruction::DivU => 21,
            Instruction::RemU => 22,
            Instruction::AddS => 23,
            Instruction::SubS => 24,
            Instruction::MulS => 25,
            Instruction::DivS => 26,
            Instruction::RemS => 27,
            Instruction::AddF => 28,
            Instruction::SubF => 29,
            Instruction::MulF => 30,
            Instruction::DivF => 31,
            Instruction::And => 32,
            Instruction::Or => 33,
            Instruction::Xor => 34,
            Instruction::Not => 35,
            Instruction::ShiftLeft => 36,
            Instruction::LogicalShiftRight => 37,
            Instruction::ArithmeticShiftRight => 38,
            Instruction::ByteSwap => 39,
            Instruction::EqI => 40,
            Instruction::NeqI => 41,
            Instruction::EqF => 42,
            Instruction::NeqF => 43,
            Instruction::LtU => 44,
            Instruction::GtU => 45,
            Instruction::LteU => 46,
            Instruction::GteU => 47,
            Instruction::LtS => 48,
            Instruction::GtS => 49,
            Instruction::LteS => 50,
            Instruction::GteS => 51,
            Instruction::LtF => 52,
            Instruction::GtF => 53,
            Instruction::LteF => 54,
            Instruction::GteF => 55,
            Instruction::CreateObject => 56,
            Instruction::IsNull => 57,
            Instruction::IsNaN => 58,
            Instruction::IsInfinity => 59,
            Instruction::GetField => 60,
            Instruction::CopyField => 61,
            Instruction::TakeField => 62,
            Instruction::SetField => 63,
            Instruction::MoveField => 64,
            Instruction::PlaceField => 65,
            Instruction::Call => 66,
            Instruction::CallTail => 67,
            Instruction::Invoke => 68,
            Instruction::InvokeTail => 69,
            Instruction::Return => 70,
            Instruction::ReturnTail => 71,
            Instruction::ReturnUnit => 72,
            Instruction::ReturnTailUnit => 73,
            Instruction::CreateClosure => 74,
            Instruction::Jump => 75,
            Instruction::If => 76,
            Instruction::Switch => 77,
            Instruction::Match => 78,
            Instruction::StartBlock => 79,
        }
    }

    /// The instruction with opcode byte `b`; `None` for a byte that names
    /// no instruction.
    pub fn from_byte(b: u8) -> (r: Option<Instruction>)
        ensures
            r == instruction_of(b),
    {
        match b {
            0 => Some(Instruction::Load8),
            1 => Some(Instruction::Load16),
            2 => Some(Instruction::Load32),
            3 => Some(Instruction::Load64),
            4 => Some(Instruction::Loadf32),
            5 => Some(Instruction::Loadf64),
            6 => Some(Instruction::Copy),
            7 => Some(Instruction::Clone),
            8 => Some(Instruction::Move),
            9 => Some(Instruction::Clear),
            10 => Some(Instruction::Destroy),
            11 => Some(Instruction::Forget),
            12 => Some(Instruction::LoadReturn),
            13 => Some(Instruction::FetchRef),
            14 => Some(Instruction::MakeShared),
            15 => Some(Instruction::SetGlobal),
            16 => Some(Instruction::CopyGlobal),
            17 => Some(Instruction::CloneGlobal),
            18 => Some(Instruction::AddU),
            19 => Some(Instruction::SubU),
            20 => Some(Instruction::MulU),
            21 => Some(Instruction::DivU),
            22 => Some(Instruction::RemU),
            23 => Some(Instruction::AddS),
            24 => Some(Instruction::SubS),
            25 => Some(Instruction::MulS),
            26 => Some(Instruction::DivS),
            27 => Some(Instruction::RemS),
            28 => Some(Instruction::AddF),
            29 => Some(Instruction::SubF),
            30 => Some(Instruction::MulF),
            31 => Some(Instruction::DivF),
            32 => Some(Instruction::And),
            33 => Some(Instruction::Or),
            34 => Some(Instruction::Xor),
            35 => Some(Instruction::Not),
            36 => Some(Instruction::ShiftLeft),
            37 => Some(Instruction::LogicalShiftRight),
            38 => Some(Instruction::ArithmeticShiftRight),
            39 => Some(Instruction::ByteSwap),
            40 => Some(Instruction::EqI),
            41 => Some(Instruction::NeqI),
            42 => Some(Instruction::EqF),
            43 => Some(Instruction::NeqF),
            44 => Some(Instruction::LtU),
            45 => Some(Instruction::GtU),
            46 => Some(Instruction::LteU),
            47 => Some(Instruction::GteU),
            48 => Some(Instruction::LtS),
            49 => Some(Instruction::GtS),
            50 => Some(Instruction::LteS),
            51 => Some(Instruction::GteS),
            52 => Some(Instruction::LtF),
            53 => Some(Instruction::GtF),
            54 => Some(Instruction::LteF),
            55 => Some(Instruction::GteF),
            56 => Some(Instruction::CreateObject),
            57 => Some(Instruction::IsNull),
            58 => Some(Instruction::IsNaN),
            59 => Some(Instruction::IsInfinity),
            60 => Some(Instruction::GetField),
            61 => Some(Instruction::CopyField),
            62 => Some(Instruction::TakeField),
            63 => Some(Instruction::SetField),
            64 => Some(Instruction::MoveField),
            65 => Some(Instruction::PlaceField),
            66 => Some(Instruction::Call),
            67 => Some(Instruction::CallTail),
            68 => Some(Instruction::Invoke),
            69 => Some(Instruction::InvokeTail),
            70 => Some(Instruction::Return),
            71 => Some(Instruction::ReturnTail),
            72 => Some(Instruction::ReturnUnit),
            73 => Some(Instruction::ReturnTailUnit),
            74 => Some(Instruction::CreateClosure),
            75 => Some(Instruction::Jump),
            76 => Some(Instruction::If),
            77 => Some(Instruction::Switch),
            78 => Some(Instruction::Match),
            79 => Some(Instruction::StartBlock),
            _ => None,
        }
    }
}

/// Decodes an opcode byte, which must name an instruction.
pub fn decode_instruction(value: u8) -> (r: Instruction)
    requires
        value < 80,
    ensures
        opcode(r) == value,
{
    proof {
        lemma_opcode_round_trip(Instruction::Load8, value);
    }
    Instruction::from_byte(value).unwrap()
}

/// A target register.
pub type Register = u32;

/// An identifier of a block, a function, a variant or another entity.
pub type Id = u32;

/// An argument of a call instruction.
#[derive(Clone, Copy, Debug, PartialEq, Eq, Structural)]
pub struct CallArgument {
    /// Whether the argument's reference count is incremented as it is passed.
    pub increment_ref: bool,
    /// The register holding the argument.
    pub register: Register,
}

/// A branch target of the jump, if, switch and match instructions.
#[derive(Clone, Copy, Debug, PartialEq, Eq, Structural)]
pub struct JumpBranch {
    pub block_id: Id,
    pub offset: i32,
}

/// A case of the switch instruction.
#[derive(Clone, Copy, Debug, PartialEq, Eq, Structural)]
pub struct SwitchCase {
    /// The constant compared against.
    pub value: u64,
    pub branch: JumpBranch,
}

/// A case of the match instruction.
#[derive(Clone, Copy, Debug, PartialEq, Eq, Structural)]
pub struct MatchCase {
    /// The variant tag matched against.
    pub tag: Id,
    pub branch: JumpBranch,
}

/// The jump branch stored at `b[at..at + 8]`: block id, then offset.
pub open spec fn jump_branch_at(b: Seq<u8>, at: int) -> JumpBranch {
    JumpBranch { block_id: u32_at(b, at), offset: i32_at(b, at + 4) }
}

/// Decodes a length prefix: a little-endian `u32`.
pub fn decode_length(bytes: &[u8]) -> (r: u32)
    requires
        bytes@.len() >= 4,
    ensures
        r == u32_at(bytes@, 0),
{
    read_u32(bytes, 0)
}

/// Decodes a call argument: a flag byte (nonzero for increment), then the
/// register.
pub fn decode_call_argument(bytes: &[u8]) -> (r: CallArgument)
    requires
        bytes@.len() >= 5,
    ensures
        r == (CallArgument { increment_ref: bytes@[0] != 0, register: u32_at(bytes@, 1) }),
{
    let increment_ref = bytes[0] != 0;
    let register = read_u32(bytes, 1);
    CallArgument { increment_ref, register }
}

/// Decodes a jump branch: block id, then offset.
pub fn decode_jump_branch(bytes: &[u8]) -> (r: JumpBranch)
    requires
        bytes@.len() >= 8,
    ensures
        r == jump_branch_at(bytes@, 0),
{
    let block_id = read_u32(bytes, 0);
    let offset = read_i32(bytes, 4);
    JumpBranch { block_id, offset }
}

/// Decodes a switch case: the `u64` value, then the branch.
pub fn decode_switch_case(bytes: &[u8]) -> (r: SwitchCase)
    requires
        bytes@.len() >= 16,
    ensures
        r == (SwitchCase { value: u64_at(bytes@, 0), branch: jump_branch_at(bytes@, 8) }),
{
    let low = read_u32(bytes, 0) as u64;
    let high = read_u32(bytes, 4) as u64;
    let value = low | (high << 32u64);
    let rest = vstd::slice::slice_subrange(bytes, 8, bytes.len());
    let branch = decode_jump_branch(rest);
    proof {
        assert(u32_at(rest@, 0) == u32_at(bytes@, 8));
        assert(u32_at(rest@, 4) == u32_at(bytes@, 12));
    }
    SwitchCase { value, branch }
}

/// Decodes a match case: the tag, then the branch.
pub fn decode_match_case(bytes: &[u8]) -> (r: MatchCase)
    requires
        bytes@.len() >= 12,
    ensures
        r == (MatchCase { tag: u32_at(bytes@, 0), branch: jump_branch_at(bytes@, 4) }),
{
    let tag = read_u32(bytes, 0);
    let rest = vstd::slice::slice_subrange(bytes, 4, bytes.len());
    let branch = decode_jump_branch(rest);
    proof {
        assert(u32_at(rest@, 0) == u32_at(bytes@, 4));
        assert(u32_at(rest@, 4) == u32_at(bytes@, 8));
    }
    MatchCase { tag, branch }
}

/// Decodes an identifier: a little-endian `u32`.
pub fn decode_id(bytes: &[u8]) -> (r: Id)
    requires
        bytes@.len() >= 4,
    ensures
        r == u32_at(bytes@, 0),
{
    read_u32(bytes, 0)
}

} // verus!
