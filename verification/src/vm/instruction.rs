//! Decoding of instructions from bytecode.
use vstd::prelude::*;

use crate::streams::utf16::decode_string_bytes;
use crate::streams::{int_at, RandomAccessByteStream};
use crate::vm::gvm::{
    ADD, AND, BREAKPOINT, CJMP, DEBUG, DIV, DUP, EQL, FORK, GET, GETDYNAMIC, GT, HALT, INVOKE, JMP,
    LDC_D, LDS, LT, MOD, MULT, NATIVE, NEW, NOT, OR, POP, PUT, RETURN, SUB, THROW,
};
use crate::vm::types::Operation;

verus! {

/// An instruction with its operands, as the interpreter reads it.
#[derive(Debug)]
pub enum Instruction {
    New(String),
    Lds(i32),
    Invoke(i32),
    Return,
    Put,
    Get,
    Halt,
    /// `ADD`, `SUB`, `MULT`, `DIV`, `MOD`, `AND`, `OR`, `EQL`, `LT` and `GT`.
    Binary(Operation),
    Not,
    Cjmp(i32),
    Jmp(i32),
    Pop,
    Native,
    Dup,
    Throw,
    Debug(i32, i32),
    Breakpoint,
    LdcD(i32, String),
    GetDynamic,
    Fork,
    /// Any other opcode; it does nothing.
    Unknown(u8),
}

/// The abstract form of an instruction: string operands as characters.
pub enum Decoded {
    New(Seq<char>),
    Lds(i32),
    Invoke(i32),
    Return,
    Put,
    Get,
    Halt,
    Binary(Operation),
    Not,
    Cjmp(i32),
    Jmp(i32),
    Pop,
    Native,
    Dup,
    Throw,
    Debug(i32, i32),
    Breakpoint,
    LdcD(i32, Seq<char>),
    GetDynamic,
    Fork,
    Unknown(u8),
}

impl View for Instruction {
    type V = Decoded;

    open spec fn view(&self) -> Decoded {
        match self {
            Instruction::New(s) => Decoded::New(s@),
            Instruction::Lds(a) => Decoded::Lds(*a),
            Instruction::Invoke(a) => Decoded::Invoke(*a),
            Instruction::Return => Decoded::Return,
            Instruction::Put => Decoded::Put,
            Instruction::Get => Decoded::Get,
            Instruction::Halt => Decoded::Halt,
            Instruction::Binary(op) => Decoded::Binary(*op),
            Instruction::Not => Decoded::Not,
            Instruction::Cjmp(a) => Decoded::Cjmp(*a),
            Instruction::Jmp(a) => Decoded::Jmp(*a),
            Instruction::Pop => Decoded::Pop,
            Instruction::Native => Decoded::Native,
            Instruction::Dup => Decoded::Dup,
            Instruction::Throw => Decoded::Throw,
            Instruction::Debug(a, b) => Decoded::Debug(*a, *b),
            Instruction::Breakpoint => Decoded::Breakpoint,
            Instruction::LdcD(a, s) => Decoded::LdcD(*a, s@),
            Instruction::GetDynamic => Decoded::GetDynamic,
            Instruction::Fork => Decoded::Fork,
            Instruction::Unknown(b) => Decoded::Unknown(*b),
        }
    }
}

/// The 32-bit operand at `p` and the position after it, if it lies inside
/// `data`.
pub open spec fn int_operand(data: Seq<u8>, p: int) -> Option<(i32, int)> {
    if 0 <= p && p + 4 <= data.len() {
        Some((int_at(data, p), p + 4))
    } else {
        None
    }
}

/// The string operand at `p` (a length, then that many bytes of UTF-16)
/// and the position after it, if the length is not negative and the string
/// lies inside `data`.
pub open spec fn string_operand(data: Seq<u8>, p: int) -> Option<(Seq<char>, int)> {
    if 0 <= p && p + 4 <= data.len() && int_at(data, p) >= 0 && p + 4 + int_at(data, p)
        <= data.len() {
        let n = int_at(data, p) as int;
        Some((decode_string_bytes(data.subrange(p + 4, p + 4 + n)), p + 4 + n))
    } else {
        None
    }
}

/// The binary operation an opcode stands for, if any.
pub open spec fn binary_operation(op: u8) -> Option<Operation> {
    if op == ADD {
        Some(Operation::Add)
    } else if op == SUB {
        Some(Operation::Sub)
    } else if op == MULT {
        Some(Operation::Mult)
    } else if op == DIV {
        Some(Operation::Div)
    } else if op == MOD {
        Some(Operation::Mod)
    } else if op == AND {
        Some(Operation::And)
    } else if op == OR {
        Some(Operation::Or)
    } else if op == EQL {
        Some(Operation::Eql)
    } else if op == LT {
        Some(Operation::Lt)
    } else if op == GT {
        Some(Operation::Gt)
    } else {
        None
    }
}

/// An instruction without operands: the instruction an opcode stands for.
pub open spec fn simple_instruction(op: u8) -> Decoded {
    if op == RETURN {
        Decoded::Return
    } else if op == PUT {
        Decoded::Put
    } else if op == GET {
        Decoded::Get
    } else if op == HALT {
        Decoded::Halt
    } else if op == NOT {
        Decoded::Not
    } else if op == POP {
        Decoded::Pop
    } else if op == NATIVE {
        Decoded::Native
    } else if op == DUP {
        Decoded::Dup
    } else if op == THROW {
        Decoded::Throw
    } else if op == BREAKPOINT {
        Decoded::Breakpoint
    } else if op == GETDYNAMIC {
        Decoded::GetDynamic
    } else if op == FORK {
        Decoded::Fork
    } else {
        match binary_operation(op) {
            Some(o) => Decoded::Binary(o),
            None => Decoded::Unknown(op),
        }
    }
}

/// The instruction at `p` in `data` and the position after it; `None` when
/// the opcode or an operand does not lie inside `data` (or a string operand
/// has a negative length).
pub open spec fn decode(data: Seq<u8>, p: int) -> Option<(Decoded, int)> {
    if !(0 <= p && p < data.len()) {
        None
    } else {
        let op = data[p];
        let q = p + 1;
        if op == NEW {
            match string_operand(data, q) {
                Some((s, r)) => Some((Decoded::New(s), r)),
                None => None,
            }
        } else if op == LDS || op == INVOKE || op == JMP || op == CJMP {
            match int_operand(data, q) {
                Some((a, r)) => Some((
                    if op == LDS {
                        Decoded::Lds(a)
                    } else if op == INVOKE {
                        Decoded::Invoke(a)
                    } else if op == JMP {
                        Decoded::Jmp(a)
                    } else {
                        Decoded::Cjmp(a)
                    },
                    r,
                )),
                None => None,
            }
        } else if op == DEBUG {
            match int_operand(data, q) {
                Some((a, r)) => match int_operand(data, r) {
                    Some((b, r2)) => Some((Decoded::Debug(a, b), r2)),
                    None => None,
                },
                None => None,
            }
        } else if op == LDC_D {
            match int_operand(data, q) {
                Some((a, r)) => match string_operand(data, r) {
                    Some((s, r2)) => Some((Decoded::LdcD(a, s), r2)),
                    None => None,
                },
                None => None,
            }
        } else {
            Some((simple_instruction(op), q))
        }
    }
}

pub(crate) fn read_int_operand(code: &mut RandomAccessByteStream) -> (r: Option<i32>)
    requires
        old(code).wf(),
    ensures
        final(code).wf(),
        final(code)@.data == old(code)@.data,
        final(code)@.size == old(code)@.size,
        final(code)@.blocksize == old(code)@.blocksize,
        match int_operand(old(code)@.data, old(code)@.pointer as int) {
            Some((a, next)) => r == Some(a) && final(code)@.pointer == next,
            None => r is None,
        },
{
    if code.readable() < 4 {
        None
    } else {
        Some(code.read_int())
    }
}

pub(crate) fn read_string_operand(code: &mut RandomAccessByteStream) -> (r: Option<String>)
    requires
        old(code).wf(),
    ensures
        final(code).wf(),
        final(code)@.data == old(code)@.data,
        final(code)@.size == old(code)@.size,
        final(code)@.blocksize == old(code)@.blocksize,
        match string_operand(old(code)@.data, old(code)@.pointer as int) {
            Some((s, next)) => r is Some && r.unwrap()@ == s && final(code)@.pointer == next,
            None => r is None,
        },
{
    proof {
        code.lemma_valid();
    }
    if code.readable() < 4 {
        return None;
    }
    let len = code.peek_int();
    if len < 0 {
        return None;
    }
    if code.readable() - 4 < len as usize {
        return None;
    }
    Some(code.read_string())
}

/// Reads the instruction at the current position; `None` when it does not
/// lie inside the allocated blocks (the position is then unspecified).
pub fn read_instruction(code: &mut RandomAccessByteStream) -> (r: Option<Instruction>)
    requires
        old(code).wf(),
    ensures
        final(code).wf(),
        final(code)@.data == old(code)@.data,
        final(code)@.size == old(code)@.size,
        final(code)@.blocksize == old(code)@.blocksize,
        match decode(old(code)@.data, old(code)@.pointer as int) {
            Some((d, next)) => r is Some && r.unwrap()@ == d && final(code)@.pointer == next,
            None => r is None,
        },
{
    if code.readable() < 1 {
        return None;
    }
    let op = code.read_byte();
    if op == NEW {
        match read_string_operand(code) {
            Some(s) => Some(Instruction::New(s)),
            None => None,
        }
    } else if op == LDS || op == INVOKE || op == JMP || op == CJMP {
        match read_int_operand(code) {
            Some(a) => Some(
                if op == LDS {
                    Instruction::Lds(a)
                } else if op == INVOKE {
                    Instruction::Invoke(a)
                } else if op == JMP {
                    Instruction::Jmp(a)
                } else {
                    Instruction::Cjmp(a)
                },
            ),
            None => None,
        }
    } else if op == DEBUG {
        match read_int_operand(code) {
            Some(a) => match read_int_operand(code) {
                Some(b) => Some(Instruction::Debug(a, b)),
                None => None,
            },
            None => None,
        }
    } else if op == LDC_D {
        match read_int_operand(code) {
            Some(a) => match read_string_operand(code) {
                Some(s) => Some(Instruction::LdcD(a, s)),
                None => None,
            },
            None => None,
        }
    } else {
        Some(simple(op))
    }
}

fn simple(op: u8) -> (r: Instruction)
    ensures
        r@ == simple_instruction(op),
{
    if op == RETURN {
        Instruction::Return
    } else if op == PUT {
        Instruction::Put
    } else if op == GET {
        Instruction::Get
    } else if op == HALT {
        Instruction::Halt
    } else if op == NOT {
        Instruction::Not
    } else if op == POP {
        Instruction::Pop
    } else if op == NATIVE {
        Instruction::Native
    } else if op == DUP {
        Instruction::Dup
    } else if op == THROW {
        Instruction::Throw
    } else if op == BREAKPOINT {
        Instruction::Breakpoint
    } else if op == GETDYNAMIC {
        Instruction::GetDynamic
    } else if op == FORK {
        Instruction::Fork
    } else if op == ADD {
        Instruction::Binary(Operation::Add)
    } else if op == SUB {
        Instruction::Binary(Operation::Sub)
    } else if op == MULT {
        Instruction::Binary(Operation::Mult)
    } else if op == DIV {
        Instruction::Binary(Operation::Div)
    } else if op == MOD {
        Instruction::Binary(Operation::Mod)
    } else if op == AND {
        Instruction::Binary(Operation::And)
    } else if op == OR {
        Instruction::Binary(Operation::Or)
    } else if op == EQL {
        Instruction::Binary(Operation::Eql)
    } else if op == LT {
        Instruction::Binary(Operation::Lt)
    } else if op == GT {
        Instruction::Binary(Operation::Gt)
    } else {
        Instruction::Unknown(op)
    }
}


/// What each opcode decodes to, by its byte value: opcodes without
/// operands take one byte, `LDS`, `INVOKE`, `JMP` and `CJMP` a 32-bit
/// operand, `DEBUG` two, `NEW` a string and `LDC_D` an integer and a string;
/// `ADD` (14) to `LT` (23) and `MOD` (30) are the binary operations of
/// their names, and any other byte is an unknown instruction of one byte.
pub proof fn lemma_opcode_meaning(data: Seq<u8>, p: int)
    requires
        0 <= p < data.len(),
    ensures
        data[p] == 9u8 ==> decode(data, p) == Some((Decoded::Return, p + 1)),
        data[p] == 10u8 ==> decode(data, p) == Some((Decoded::Put, p + 1)),
        data[p] == 11u8 ==> decode(data, p) == Some((Decoded::Get, p + 1)),
        data[p] == 12u8 ==> decode(data, p) == Some((Decoded::Halt, p + 1)),
        data[p] == 20u8 ==> decode(data, p) == Some((Decoded::Not, p + 1)),
        data[p] == 27u8 ==> decode(data, p) == Some((Decoded::Pop, p + 1)),
        data[p] == 28u8 ==> decode(data, p) == Some((Decoded::Native, p + 1)),
        data[p] == 29u8 ==> decode(data, p) == Some((Decoded::Dup, p + 1)),
        data[p] == 31u8 ==> decode(data, p) == Some((Decoded::Throw, p + 1)),
        data[p] == 33u8 ==> decode(data, p) == Some((Decoded::Breakpoint, p + 1)),
        data[p] == 35u8 ==> decode(data, p) == Some((Decoded::GetDynamic, p + 1)),
        data[p] == 37u8 ==> decode(data, p) == Some((Decoded::Fork, p + 1)),
        data[p] == 14u8 ==> decode(data, p) == Some((Decoded::Binary(Operation::Add), p + 1)),
        data[p] == 15u8 ==> decode(data, p) == Some((Decoded::Binary(Operation::Sub), p + 1)),
        data[p] == 16u8 ==> decode(data, p) == Some((Decoded::Binary(Operation::Mult), p + 1)),
        data[p] == 17u8 ==> decode(data, p) == Some((Decoded::Binary(Operation::Div), p + 1)),
        data[p] == 30u8 ==> decode(data, p) == Some((Decoded::Binary(Operation::Mod), p + 1)),
        data[p] == 18u8 ==> decode(data, p) == Some((Decoded::Binary(Operation::And), p + 1)),
        data[p] == 19u8 ==> decode(data, p) == Some((Decoded::Binary(Operation::Or), p + 1)),
        data[p] == 21u8 ==> decode(data, p) == Some((Decoded::Binary(Operation::Eql), p + 1)),
        data[p] == 22u8 ==> decode(data, p) == Some((Decoded::Binary(Operation::Gt), p + 1)),
        data[p] == 23u8 ==> decode(data, p) == Some((Decoded::Binary(Operation::Lt), p + 1)),
        data[p] == 2u8 && p + 5 <= data.len() ==> decode(data, p) == Some((Decoded::Lds(int_at(data, p + 1)), p + 5)),
        data[p] == 8u8 && p + 5 <= data.len() ==> decode(data, p) == Some((Decoded::Invoke(int_at(data, p + 1)), p + 5)),
        data[p] == 25u8 && p + 5 <= data.len() ==> decode(data, p) == Some((Decoded::Jmp(int_at(data, p + 1)), p + 5)),
        data[p] == 24u8 && p + 5 <= data.len() ==> decode(data, p) == Some((Decoded::Cjmp(int_at(data, p + 1)), p + 5)),
        data[p] == 32u8 && p + 9 <= data.len() ==> decode(data, p) == Some((Decoded::Debug(int_at(data, p + 1), int_at(data, p + 5)), p + 9)),
        data[p] == 1u8 ==> decode(data, p) == match string_operand(data, p + 1) {
            Some((t, q)) => Some((Decoded::New(t), q)),
            None => None,
        },
        data[p] == 34u8 && p + 5 <= data.len() ==> decode(data, p) == match string_operand(data, p + 5) {
            Some((t, q)) => Some((Decoded::LdcD(int_at(data, p + 1), t), q)),
            None => None,
        },
        !(data[p] == 1u8 || data[p] == 2u8 || data[p] == 8u8 || data[p] == 9u8 || data[p] == 10u8 || data[p] == 11u8 || data[p] == 12u8 || data[p] == 14u8 || data[p] == 15u8 || data[p] == 16u8 || data[p] == 17u8 || data[p] == 18u8 || data[p] == 19u8 || data[p] == 20u8 || data[p] == 21u8 || data[p] == 22u8 || data[p] == 23u8 || data[p] == 24u8 || data[p] == 25u8 || data[p] == 27u8 || data[p] == 28u8 || data[p] == 29u8 || data[p] == 30u8 || data[p] == 31u8 || data[p] == 32u8 || data[p] == 33u8 || data[p] == 34u8 || data[p] == 35u8 || data[p] == 37u8) ==> decode(data, p) == Some((Decoded::Unknown(data[p]), p + 1)),
{
}

/// The name that a trace shows for an opcode is the name of the instruction
/// it decodes to, for every known opcode.
pub proof fn lemma_trace_names_decoded(data: Seq<u8>, p: int)
    requires
        0 <= p < data.len(),
    ensures
        decode(data, p) matches Some((d, _)) ==> (d is Unknown || crate::debug::mnemonic(d) == crate::vm::gvm::opcode_text(data[p])),
{
}


/// The name that the error for an unsupported binary instruction gives to
/// its operation, by opcode: `ADD` is an "addition", `SUB` a
/// "substraction", `MULT` a "multiplication", `DIV` a "division", `MOD` a
/// "modulo", and `AND`, `OR`, `EQL`, `LT` and `GT` go by their own names.
pub proof fn lemma_operation_names(data: Seq<u8>, p: int)
    requires
        0 <= p < data.len(),
    ensures
        data[p] == 14u8 ==> (decode(data, p) matches Some((Decoded::Binary(op), _)) && crate::vm::messages::operation_text(op) == "addition"@),
        data[p] == 15u8 ==> (decode(data, p) matches Some((Decoded::Binary(op), _)) && crate::vm::messages::operation_text(op) == "substraction"@),
        data[p] == 16u8 ==> (decode(data, p) matches Some((Decoded::Binary(op), _)) && crate::vm::messages::operation_text(op) == "multiplication"@),
        data[p] == 17u8 ==> (decode(data, p) matches Some((Decoded::Binary(op), _)) && crate::vm::messages::operation_text(op) == "division"@),
        data[p] == 30u8 ==> (decode(data, p) matches Some((Decoded::Binary(op), _)) && crate::vm::messages::operation_text(op) == "modulo"@),
        data[p] == 18u8 ==> (decode(data, p) matches Some((Decoded::Binary(op), _)) && crate::vm::messages::operation_text(op) == "AND"@),
        data[p] == 19u8 ==> (decode(data, p) matches Some((Decoded::Binary(op), _)) && crate::vm::messages::operation_text(op) == "OR"@),
        data[p] == 21u8 ==> (decode(data, p) matches Some((Decoded::Binary(op), _)) && crate::vm::messages::operation_text(op) == "EQL"@),
        data[p] == 23u8 ==> (decode(data, p) matches Some((Decoded::Binary(op), _)) && crate::vm::messages::operation_text(op) == "LT"@),
        data[p] == 22u8 ==> (decode(data, p) matches Some((Decoded::Binary(op), _)) && crate::vm::messages::operation_text(op) == "GT"@),
{
    lemma_opcode_meaning(data, p);
}

} // verus!
