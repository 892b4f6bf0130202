//! The instruction model: registers, operands, opcodes, and the binary
//! encode/decode transform over 16-bit instruction words.
//!
//! Word layout (bit 15 most significant):
//! bits 15..12 opcode, bits 11..9 destination register, bit 8 immediate-mode
//! flag, bits 7..0 the source operand (an 8-bit immediate, or a register
//! identifier in bits 2..0 with bits 7..3 zero).

use vstd::prelude::*;

verus! {

/// Identifier of one of the three assembler-addressable registers.
#[derive(Clone, Copy, Debug, PartialEq, Eq, Structural)]
pub enum Reg {
    A,
    B,
    C,
}

/// A source operand: either a register reference or an 8-bit unsigned
/// immediate constant embedded in the instruction word.
#[derive(Clone, Copy, Debug, PartialEq, Eq, Structural)]
pub enum OpPlace {
    Reg(Reg),
    Imm(u8),
}

/// One machine instruction. The register-mutating forms carry a source
/// operand and a destination register; the control-transfer forms carry
/// only the source operand.
#[derive(Clone, Copy, Debug, PartialEq, Eq, Structural)]
pub enum Op {
    Mov(OpPlace, Reg),
    Add(OpPlace, Reg),
    Sub(OpPlace, Reg),
    Cmp(OpPlace, Reg),
    Jmp(OpPlace),
    Je(OpPlace),
    Jne(OpPlace),
    Int(OpPlace),
}

/// Why a 16-bit word failed to decode.
#[derive(Clone, Copy, Debug, PartialEq, Eq, Structural)]
pub enum DecodeError {
    /// Bits 15..12 name no defined opcode.
    UnknownOpcode,
    /// A register field holds a value outside the register file's
    /// addressable identifiers.
    UnknownRegister,
}

/// The ordinal of a register identifier: its index in the register file
/// and its value in a register field of an instruction word.
pub open spec fn reg_idx(r: Reg) -> u16 {
    match r {
        Reg::A => 0,
        Reg::B => 1,
        Reg::C => 2,
    }
}

/// The 4-bit opcode of an instruction.
pub open spec fn opcode_bits(op: Op) -> u16 {
    match op {
        Op::Mov(_, _) => 0,
        Op::Add(_, _) => 1,
        Op::Jmp(_) => 2,
        Op::Sub(_, _) => 3,
        Op::Cmp(_, _) => 4,
        Op::Je(_) => 5,
        Op::Jne(_) => 6,
        Op::Int(_) => 7,
    }
}

/// The source operand of an instruction (every instruction has one).
pub open spec fn src_place(op: Op) -> OpPlace {
    match op {
        Op::Mov(s, _) => s,
        Op::Add(s, _) => s,
        Op::Sub(s, _) => s,
        Op::Cmp(s, _) => s,
        Op::Jmp(s) => s,
        Op::Je(s) => s,
        Op::Jne(s) => s,
        Op::Int(s) => s,
    }
}

/// The destination-register field: the register's ordinal for the four
/// register-mutating forms, zero for the source-only forms.
pub open spec fn dst_bits(op: Op) -> u16 {
    match op {
        Op::Mov(_, d) => reg_idx(d),
        Op::Add(_, d) => reg_idx(d),
        Op::Sub(_, d) => reg_idx(d),
        Op::Cmp(_, d) => reg_idx(d),
        Op::Jmp(_) => 0,
        Op::Je(_) => 0,
        Op::Jne(_) => 0,
        Op::Int(_) => 0,
    }
}

/// The immediate-mode flag of an operand: 1 for an immediate, 0 for a
/// register.
pub open spec fn place_flag(p: OpPlace) -> u16 {
    match p {
        OpPlace::Reg(_) => 0,
        OpPlace::Imm(_) => 1,
    }
}

/// The low 8 bits of the word: the raw immediate, or the register ordinal.
pub open spec fn place_bits(p: OpPlace) -> u16 {
    match p {
        OpPlace::Reg(r) => reg_idx(r),
        OpPlace::Imm(v) => v as u16,
    }
}

/// The canonical 16-bit encoding of an instruction. Total: every
/// instruction maps to exactly one bit pattern.
pub open spec fn encode_spec(op: Op) -> u16 {
    (opcode_bits(op) << 12) | (dst_bits(op) << 9) | (place_flag(src_place(op)) << 8)
        | place_bits(src_place(op))
}

/// Decoding of a register field value.
pub open spec fn reg_decode_spec(x: u16) -> Result<Reg, DecodeError> {
    if x == 0 {
        Ok(Reg::A)
    } else if x == 1 {
        Ok(Reg::B)
    } else if x == 2 {
        Ok(Reg::C)
    } else {
        Err(DecodeError::UnknownRegister)
    }
}

/// Decoding of the source operand of a word: an immediate if bit 8 is set,
/// else the register named by bits 2..0.
pub open spec fn decode_src_spec(w: u16) -> Result<OpPlace, DecodeError> {
    if w & 0x100 != 0 {
        Ok(OpPlace::Imm((w & 0xFF) as u8))
    } else {
        match reg_decode_spec(w & 0x7) {
            Ok(r) => Ok(OpPlace::Reg(r)),
            Err(e) => Err(e),
        }
    }
}

/// Decoding of the destination register of a word, from bits 11..9.
pub open spec fn decode_dst_spec(w: u16) -> Result<Reg, DecodeError> {
    reg_decode_spec((w >> 9) & 0x7)
}

/// Source and destination of a two-operand word; the source error, if any,
/// comes first.
pub open spec fn decode_two_spec(w: u16) -> Result<(OpPlace, Reg), DecodeError> {
    match decode_src_spec(w) {
        Err(e) => Err(e),
        Ok(s) => match decode_dst_spec(w) {
            Err(e) => Err(e),
            Ok(d) => Ok((s, d)),
        },
    }
}

/// The full decoding of a 16-bit word: the inverse of `encode_spec` on
/// every encoded instruction, an `UnknownOpcode` error when bits 15..12
/// name no opcode, and an `UnknownRegister` error when a register field is
/// out of range.
pub open spec fn decode_spec(w: u16) -> Result<Op, DecodeError> {
    let opc = w >> 12;
    if opc == 0 {
        match decode_two_spec(w) {
            Ok((s, d)) => Ok(Op::Mov(s, d)),
            Err(e) => Err(e),
        }
    } else if opc == 1 {
        match decode_two_spec(w) {
            Ok((s, d)) => Ok(Op::Add(s, d)),
            Err(e) => Err(e),
        }
    } else if opc == 2 {
        match decode_src_spec(w) {
            Ok(s) => Ok(Op::Jmp(s)),
            Err(e) => Err(e),
        }
    } else if opc == 3 {
        match decode_two_spec(w) {
            Ok((s, d)) => Ok(Op::Sub(s, d)),
            Err(e) => Err(e),
        }
    } else if opc == 4 {
        match decode_two_spec(w) {
            Ok((s, d)) => Ok(Op::Cmp(s, d)),
            Err(e) => Err(e),
        }
    } else if opc == 5 {
        match decode_src_spec(w) {
            Ok(s) => Ok(Op::Je(s)),
            Err(e) => Err(e),
        }
    } else if opc == 6 {
        match decode_src_spec(w) {
            Ok(s) => Ok(Op::Jne(s)),
            Err(e) => Err(e),
        }
    } else if opc == 7 {
        match decode_src_spec(w) {
            Ok(s) => Ok(Op::Int(s)),
            Err(e) => Err(e),
        }
    } else {
        Err(DecodeError::UnknownOpcode)
    }
}

/// Encoding to one 16-bit instruction word.
pub trait EncodeTwoBytes {
    /// The word this value encodes to.
    spec fn encoding(&self) -> u16;

    fn encode(&self) -> (w: u16)
        ensures
            w == self.encoding(),
    ;
}

impl Reg {
    /// The register's index into the register file.
    pub fn ordinal(&self) -> (i: usize)
        ensures
            i == reg_idx(*self) as usize,
    {
        match self {
            Reg::A => 0,
            Reg::B => 1,
            Reg::C => 2,
        }
    }

    /// Decoding of a register field value.
    pub fn decode(x: u16) -> (r: Result<Reg, DecodeError>)
        ensures
            r == reg_decode_spec(x),
    {
        if x == 0 {
            Ok(Reg::A)
        } else if x == 1 {
            Ok(Reg::B)
        } else if x == 2 {
            Ok(Reg::C)
        } else {
            Err(DecodeError::UnknownRegister)
        }
    }
}

/// The immediate-mode flag and the low operand bits of a source operand.
fn place_encode(p: &OpPlace) -> (fv: (u16, u16))
    ensures
        fv.0 == place_flag(*p),
        fv.1 == place_bits(*p),
{
    match p {
        OpPlace::Reg(r) => (0, r.ordinal() as u16),
        OpPlace::Imm(v) => (1, *v as u16),
    }
}

impl EncodeTwoBytes for Op {
    open spec fn encoding(&self) -> u16 {
        encode_spec(*self)
    }

    fn encode(&self) -> (w: u16) {
        let opc: u16 = match self {
            Op::Mov(_, _) => 0,
            Op::Add(_, _) => 1,
            Op::Jmp(_) => 2,
            Op::Sub(_, _) => 3,
            Op::Cmp(_, _) => 4,
            Op::Je(_) => 5,
            Op::Jne(_) => 6,
            Op::Int(_) => 7,
        };
        let dst: u16 = match self {
            Op::Mov(_, d) => d.ordinal() as u16,
            Op::Add(_, d) => d.ordinal() as u16,
            Op::Sub(_, d) => d.ordinal() as u16,
            Op::Cmp(_, d) => d.ordinal() as u16,
            Op::Jmp(_) => 0,
            Op::Je(_) => 0,
            Op::Jne(_) => 0,
            Op::Int(_) => 0,
        };
        let src: &OpPlace = match self {
            Op::Mov(s, _) => s,
            Op::Add(s, _) => s,
            Op::Sub(s, _) => s,
            Op::Cmp(s, _) => s,
            Op::Jmp(s) => s,
            Op::Je(s) => s,
            Op::Jne(s) => s,
            Op::Int(s) => s,
        };
        let fv = place_encode(src);
        (opc << 12) | (dst << 9) | (fv.0 << 8) | fv.1
    }
}

impl Op {
    /// Decoding of the source operand of a word.
    pub fn decode_src(w: u16) -> (r: Result<OpPlace, DecodeError>)
        ensures
            r == decode_src_spec(w),
    {
        if w & 0x100 != 0 {
            Ok(OpPlace::Imm((w & 0xFF) as u8))
        } else {
            match Reg::decode(w & 0x7) {
                Ok(r) => Ok(OpPlace::Reg(r)),
                Err(e) => Err(e),
            }
        }
    }

    /// Decoding of the destination register of a word.
    pub fn decode_dst(w: u16) -> (r: Result<Reg, DecodeError>)
        ensures
            r == decode_dst_spec(w),
    {
        Reg::decode((w >> 9) & 0x7)
    }

    /// Source and destination of a two-operand word.
    fn decode_two(w: u16) -> (r: Result<(OpPlace, Reg), DecodeError>)
        ensures
            r == decode_two_spec(w),
    {
        match Op::decode_src(w) {
            Err(e) => Err(e),
            Ok(s) => match Op::decode_dst(w) {
                Err(e) => Err(e),
                Ok(d) => Ok((s, d)),
            },
        }
    }

    /// Decodes one 16-bit instruction word. Deterministic and side-effect
    /// free: pure data transformation, independent of machine state.
    pub fn decode(w: u16) -> (r: Result<Op, DecodeError>)
        ensures
            r == decode_spec(w),
    {
        let opc = w >> 12;
        if opc == 0 {
            match Op::decode_two(w) {
                Ok(sd) => Ok(Op::Mov(sd.0, sd.1)),
                Err(e) => Err(e),
            }
        } else if opc == 1 {
            match Op::decode_two(w) {
                Ok(sd) => Ok(Op::Add(sd.0, sd.1)),
                Err(e) => Err(e),
            }
        } else if opc == 2 {
            match Op::decode_src(w) {
                Ok(s) => Ok(Op::Jmp(s)),
                Err(e) => Err(e),
            }
        } else if opc == 3 {
            match Op::decode_two(w) {
                Ok(sd) => Ok(Op::Sub(sd.0, sd.1)),
                Err(e) => Err(e),
            }
        } else if opc == 4 {
            match Op::decode_two(w) {
                Ok(sd) => Ok(Op::Cmp(sd.0, sd.1)),
                Err(e) => Err(e),
            }
        } else if opc == 5 {
            match Op::decode_src(w) {
                Ok(s) => Ok(Op::Je(s)),
                Err(e) => Err(e),
            }
        } else if opc == 6 {
            match Op::decode_src(w) {
                Ok(s) => Ok(Op::Jne(s)),
                Err(e) => Err(e),
            }
        } else if opc == 7 {
            match Op::decode_src(w) {
                Ok(s) => Ok(Op::Int(s)),
                Err(e) => Err(e),
            }
        } else {
            Err(DecodeError::UnknownOpcode)
        }
    }
}

/// Field extraction from an assembled word, for fields within their
/// ranges: the opcode, destination, flag and operand bits come back
/// exactly as they went in.
proof fn lemma_encode_fields(opc: u16, d: u16, f: u16, v: u16)
    by (bit_vector)
    requires
        opc <= 7,
        d <= 7,
        f <= 1,
        v <= 255,
    ensures
        ((opc << 12) | (d << 9) | (f << 8) | v) >> 12 == opc,
        (((opc << 12) | (d << 9) | (f << 8) | v) >> 9) & 0x7 == d,
        ((opc << 12) | (d << 9) | (f << 8) | v) & 0x100 == (if f == 0 {
            0u16
        } else {
            0x100u16
        }),
        ((opc << 12) | (d << 9) | (f << 8) | v) & 0xFF == v,
        v <= 7 ==> ((opc << 12) | (d << 9) | (f << 8) | v) & 0x7 == v,
{
}

/// Round-trip law: decoding the encoding of any representable instruction
/// yields that instruction back.
pub proof fn lemma_decode_encode(i: Op)
    ensures
        decode_spec(encode_spec(i)) == Ok::<Op, DecodeError>(i),
{
    let opc = opcode_bits(i);
    let d = dst_bits(i);
    let sp = src_place(i);
    let f = place_flag(sp);
    let v = place_bits(sp);
    assert(opc <= 7 && d <= 7 && f <= 1 && v <= 255);
    assert(sp is Reg ==> v <= 7 && f == 0);
    lemma_encode_fields(opc, d, f, v);
}

/// Injectivity law: no two distinct representable instructions share an
/// encoded word.
pub proof fn lemma_encode_injective(i1: Op, i2: Op)
    ensures
        encode_spec(i1) == encode_spec(i2) ==> i1 == i2,
{
    if encode_spec(i1) == encode_spec(i2) {
        lemma_decode_encode(i1);
        lemma_decode_encode(i2);
        assert(Ok::<Op, DecodeError>(i1) == Ok::<Op, DecodeError>(i2));
    }
}

} // verus!
