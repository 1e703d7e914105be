//! Listings of bytecode and programs as text.
use vstd::prelude::*;

use crate::program::function::{names, FunctionView, GvmFunction, HandlerView};
use crate::program::program::{is_sorted_keys, GvmProgram, ProgramView};
use crate::streams::{RandomAccessByteStream, StreamView};
use crate::text::{
    concat, debug_quoted, debug_text, int_text, int_to_string, join, join_text, owned, pad,
    pad_left, uint_to_string,
};
use crate::streams::int_at;
use crate::vm::instruction::{decode, read_instruction, string_operand, Decoded, Instruction};
use crate::vm::types::Operation;

verus! {

/// The name of an instruction, as the interpreter's trace shows it.
pub open spec fn mnemonic(d: Decoded) -> Seq<char> {
    match d {
        Decoded::New(_) => "NEW"@,
        Decoded::Lds(_) => "LDS"@,
        Decoded::Invoke(_) => "INVOKE"@,
        Decoded::Return => "RETURN"@,
        Decoded::Put => "PUT"@,
        Decoded::Get => "GET"@,
        Decoded::Halt => "HALT"@,
        Decoded::Binary(op) => binary_mnemonic(op),
        Decoded::Not => "NOT"@,
        Decoded::Cjmp(_) => "CJMP"@,
        Decoded::Jmp(_) => "JMP"@,
        Decoded::Pop => "POP"@,
        Decoded::Native => "NATIVE"@,
        Decoded::Dup => "DUP"@,
        Decoded::Throw => "THROW"@,
        Decoded::Debug(_, _) => "DEBUG"@,
        Decoded::Breakpoint => "BREAKPOINT"@,
        Decoded::LdcD(_, _) => "LDC_D"@,
        Decoded::GetDynamic => "GETDYNAMIC"@,
        Decoded::Fork => "FORK"@,
        Decoded::Unknown(_) => "???"@,
    }
}

/// The name of a binary instruction.
pub open spec fn binary_mnemonic(op: Operation) -> Seq<char> {
    match op {
        Operation::Add => "ADD"@,
        Operation::Sub => "SUB"@,
        Operation::Mult => "MULT"@,
        Operation::Div => "DIV"@,
        Operation::Mod => "MOD"@,
        Operation::And => "AND"@,
        Operation::Or => "OR"@,
        Operation::Eql => "EQL"@,
        Operation::Lt => "LT"@,
        _ => "GT"@,
    }
}

/// The name of an instruction.
pub fn instruction_name(i: &Instruction) -> (r: &'static str)
    ensures
        r@ == mnemonic(i@),
{
    match i {
        Instruction::New(_) => "NEW",
        Instruction::Lds(_) => "LDS",
        Instruction::Invoke(_) => "INVOKE",
        Instruction::Return => "RETURN",
        Instruction::Put => "PUT",
        Instruction::Get => "GET",
        Instruction::Halt => "HALT",
        Instruction::Binary(op) => match op {
            Operation::Add => "ADD",
            Operation::Sub => "SUB",
            Operation::Mult => "MULT",
            Operation::Div => "DIV",
            Operation::Mod => "MOD",
            Operation::And => "AND",
            Operation::Or => "OR",
            Operation::Eql => "EQL",
            Operation::Lt => "LT",
            _ => "GT",
        },
        Instruction::Not => "NOT",
        Instruction::Cjmp(_) => "CJMP",
        Instruction::Jmp(_) => "JMP",
        Instruction::Pop => "POP",
        Instruction::Native => "NATIVE",
        Instruction::Dup => "DUP",
        Instruction::Throw => "THROW",
        Instruction::Debug(_, _) => "DEBUG",
        Instruction::Breakpoint => "BREAKPOINT",
        Instruction::LdcD(_, _) => "LDC_D",
        Instruction::GetDynamic => "GETDYNAMIC",
        Instruction::Fork => "FORK",
        Instruction::Unknown(_) => "???",
    }
}

/// An instruction as a plain listing shows it: its name and operands
/// separated by spaces; an unknown opcode shows nothing.
pub open spec fn plain_text(d: Decoded) -> Option<Seq<char>> {
    match d {
        Decoded::New(t) => Some("NEW "@ + t),
        Decoded::Lds(a) => Some("LDS "@ + int_text(a as int)),
        Decoded::LdcD(a, t) => Some("LDC_D "@ + int_text(a as int) + " "@ + t),
        Decoded::Invoke(a) => Some("INVOKE "@ + int_text(a as int)),
        Decoded::Jmp(p) => Some("JMP "@ + int_text(p as int)),
        Decoded::Cjmp(p) => Some("CJMP "@ + int_text(p as int)),
        Decoded::Debug(l, c) => Some("DEBUG "@ + int_text(l as int) + " "@ + int_text(c as int)),
        Decoded::Unknown(_) => None,
        _ => Some(mnemonic(d)),
    }
}

/// A string constant as a listing shows it: quoted, or `str#<index>` when
/// there is no constant at that index.
pub open spec fn constant_text(strings: Seq<Seq<char>>, idx: i32) -> Seq<char> {
    if 0 <= idx < strings.len() {
        debug_text(strings[idx as int])
    } else {
        "str#"@ + int_text(idx as int)
    }
}

/// An instruction as the disassembly shows it.
pub open spec fn disassembly_text(d: Decoded, strings: Seq<Seq<char>>) -> Seq<char> {
    match d {
        Decoded::New(t) => "NEW          "@ + t,
        Decoded::Lds(a) => "LDS          "@ + int_text(a as int),
        Decoded::LdcD(v, t) => "LDC          "@ + (if t == "String"@ {
            constant_text(strings, v)
        } else if t == "Boolean"@ {
            if v != 0 {
                "true"@
            } else {
                "false"@
            }
        } else {
            int_text(v as int)
        }) + " ; "@ + t,
        Decoded::Invoke(a) => "INVOKE       "@ + int_text(a as int),
        Decoded::Jmp(p) => "JMP          @"@ + int_text(p as int),
        Decoded::Cjmp(p) => "CJMP         @"@ + int_text(p as int),
        Decoded::Debug(l, c) => "DEBUG        line "@ + int_text(l as int) + " ; "@ + constant_text(
            strings,
            c,
        ),
        Decoded::Unknown(b) => "??? opcode "@ + int_text(b as int),
        _ => mnemonic(d),
    }
}

/// Whether a listing goes on at position `p`: it stops at the written size
/// (positions and sizes compared as `i32`).
pub open spec fn listing_goes_on(code: StreamView, p: int) -> bool {
    (p as i32) < (code.size as i32)
}

/// The lines of a listing from position `p` (`plain` selects the plain
/// form, else the disassembly with addresses); `None` when an instruction
/// does not lie inside the bytecode.
pub open spec fn listing(code: StreamView, p: int, plain: bool, strings: Seq<Seq<char>>) -> Option<Seq<Seq<char>>>
    decreases code.data.len() - p,
{
    if !listing_goes_on(code, p) {
        Some(Seq::empty())
    } else {
        match decode(code.data, p) {
            None => None,
            Some((d, next)) => if next <= p {
                None
            } else {
                match listing(code, next, plain, strings) {
                    None => None,
                    Some(rest) => Some(
                        match line_text(plain, p, d, strings) {
                            Some(l) => seq![l] + rest,
                            None => rest,
                        },
                    ),
                }
            },
        }
    }
}

/// The position where a listing from `p` stops: past the last instruction
/// it decodes.
pub open spec fn listing_end(code: StreamView, p: int) -> int
    decreases code.data.len() - p,
{
    if !listing_goes_on(code, p) {
        p
    } else {
        match decode(code.data, p) {
            None => p,
            Some((d, next)) => if next <= p {
                p
            } else {
                listing_end(code, next)
            },
        }
    }
}

/// The line of instruction `d` at position `p` in a listing, if it has one.
pub open spec fn line_text(plain: bool, p: int, d: Decoded, strings: Seq<Seq<char>>) -> Option<Seq<char>> {
    if plain {
        plain_text(d)
    } else {
        Some("  "@ + pad_left(int_text((p as i32) as int), 5) + "  "@ + disassembly_text(d, strings))
    }
}

proof fn lemma_decode_advances(data: Seq<u8>, p: int)
    ensures
        decode(data, p) matches Some((d, next)) ==> p < next <= data.len(),
{
}

/// The heading of a function in the disassembly: its id, debug name and
/// parameters, its locals, and its catch blocks.
pub open spec fn function_heading(id: i32, f: FunctionView) -> Seq<Seq<char>> {
    seq![
        ".function "@ + int_text(id as int) + (match f.debug_name {
            Some(n) => " ; "@ + n,
            None => Seq::empty(),
        }) + (if f.parameters.len() > 0 {
            "("@ + join_text(f.parameters, ", "@) + ")"@
        } else {
            Seq::empty()
        }),
    ] + (if f.locals.len() > 0 {
        seq!["  .locals "@ + join_text(f.locals, ", "@)]
    } else {
        Seq::empty()
    }) + f.handlers.map_values(
        |h: HandlerView|
            "  .catch "@ + int_text(h.0 as int) + ".."@ + int_text(h.1 as int) + " -> "@ + int_text(
                h.2 as int,
            ),
    )
}

/// The lines of the disassembly of functions `ids` of `p`: for each, its
/// heading, its instructions from position 0 and an empty line.
pub open spec fn functions_listing<N>(p: ProgramView<N>, ids: Seq<i32>) -> Option<Seq<Seq<char>>>
    decreases ids.len(),
{
    if ids.len() == 0 {
        Some(Seq::empty())
    } else {
        let f = p.functions[ids[0]];
        match listing(f.bytecode.with_pointer(0), 0, false, p.strings) {
            None => None,
            Some(body) => match functions_listing(p, ids.drop_first()) {
                None => None,
                Some(rest) => Some(function_heading(ids[0], f) + body + seq![Seq::<char>::empty()] + rest),
            },
        }
    }
}

/// The lines of the disassembly of `p` with its functions in the order
/// `ids`: a summary, the string constants, then the functions.
pub open spec fn program_listing<N>(p: ProgramView<N>, ids: Seq<i32>) -> Option<Seq<Seq<char>>> {
    match functions_listing(p, ids) {
        None => None,
        Some(fl) => Some(
            seq![
                "; program: "@ + p.name,
                "; strings: "@ + int_text(p.strings.len() as int),
                "; functions: "@ + int_text(p.functions.dom().len() as int),
                Seq::<char>::empty(),
                ".strings"@,
            ] + Seq::new(
                p.strings.len(),
                |i: int| "  "@ + pad_left(int_text(i), 4) + "  "@ + debug_text(p.strings[i]),
            ) + seq![Seq::<char>::empty()] + fl,
        ),
    }
}

/// Listings of bytecode and programs.
pub struct DebugInfo;

impl DebugInfo {
    /// The lines of `code` from position 0, one instruction a line by name
    /// and operands (unknown opcodes give no line); `None` when an
    /// instruction does not lie inside the bytecode. The position is left
    /// where the listing stopped; nothing else in the stream changes.
    pub fn display_function(code: &mut RandomAccessByteStream) -> (r: Option<Vec<String>>)
        requires
            old(code).wf(),
            old(code)@.data.len() > 0,
        ensures
            final(code).wf(),
            final(code)@ == old(code)@.with_pointer(final(code)@.pointer as int),
            r is Some ==> final(code)@.pointer == listing_end(old(code)@.with_pointer(0), 0),
            match listing(old(code)@.with_pointer(0), 0, true, Seq::empty()) {
                Some(lines) => r is Some && r.unwrap()@.map_values(|s: String| s@) == lines,
                None => r is None,
            },
    {
        code.seek(0);
        let none: Vec<String> = Vec::new();
        assert(none@.map_values(|s: String| s@) =~= Seq::<Seq<char>>::empty());
        Self::list(code, true, none.as_slice())
    }

    /// The listing lines from the current position.
    fn list(code: &mut RandomAccessByteStream, plain: bool, strings: &[String]) -> (r: Option<Vec<String>>)
        requires
            old(code).wf(),
        ensures
            final(code).wf(),
            final(code)@ == old(code)@.with_pointer(final(code)@.pointer as int),
            r is Some ==> final(code)@.pointer == listing_end(old(code)@, old(code)@.pointer as int),
            match listing(old(code)@, old(code)@.pointer as int, plain, strings@.map_values(|s: String| s@)) {
                Some(lines) => r is Some && r.unwrap()@.map_values(|s: String| s@) == lines,
                None => r is None,
            },
    {
        let ghost v0 = code@;
        let ghost st = strings@.map_values(|s: String| s@);
        let mut lines: Vec<String> = Vec::new();
        proof {
            match listing(v0, v0.pointer as int, plain, st) {
                Some(rest) => {
                    assert(Seq::<Seq<char>>::empty() + rest =~= rest);
                },
                None => {},
            }
        }
        while code.get_pointer_position() < code.size()
            invariant
                code.wf(),
                v0 == old(code)@,
                code@ == v0.with_pointer(code@.pointer as int),
                st == strings@.map_values(|s: String| s@),
                listing(v0, v0.pointer as int, plain, st) == match listing(v0, code@.pointer as int, plain, st) {
                    Some(rest) => Some(lines@.map_values(|s: String| s@) + rest),
                    None => None,
                },
                listing_end(v0, v0.pointer as int) == listing_end(v0, code@.pointer as int),
            decreases v0.data.len() - code@.pointer,
        {
            let ghost p = code@.pointer as int;
            proof {
                lemma_decode_advances(v0.data, p);
            }
            let addr = code.get_pointer_position();
            let instr = match read_instruction(code) {
                Some(i) => i,
                None => {
                    assert(listing_goes_on(v0, p));
                    assert(listing(v0, p, plain, st) is None);
                    return None;
                },
            };
            let ghost before = lines@.map_values(|s: String| s@);
            match Self::line(plain, addr, &instr, strings) {
                Some(l) => {
                    lines.push(l);
                },
                None => {},
            }
            proof {
                let next = code@.pointer as int;
                match listing(v0, next, plain, st) {
                    Some(rest) => {
                        match line_text(plain, p, instr@, st) {
                            Some(l) => {
                                assert(lines@.map_values(|s: String| s@) =~= before.push(l));
                                assert(lines@.map_values(|s: String| s@) + rest =~= before + (seq![l] + rest));
                            },
                            None => {
                                assert(lines@.map_values(|s: String| s@) =~= before);
                            },
                        }
                    },
                    None => {},
                }
            }
        }
        proof {
            assert(lines@.map_values(|s: String| s@) + Seq::<Seq<char>>::empty() =~= lines@.map_values(|s: String| s@));
        }
        Some(lines)
    }

    /// The listing line of an instruction at `addr`, if it has one.
    fn line(plain: bool, addr: i32, i: &Instruction, strings: &[String]) -> (r: Option<String>)
        ensures
            match line_text(plain, addr as int, i@, strings@.map_values(|s: String| s@)) {
                Some(l) => r is Some && r.unwrap()@ == l,
                None => r is None,
            },
    {
        if plain {
            Self::plain_line(i)
        } else {
            let a = pad(int_to_string(addr).as_str(), 5);
            let head = concat("  ", a.as_str());
            let head = concat(head.as_str(), "  ");
            Some(concat(head.as_str(), Self::disassembly_line(i, strings).as_str()))
        }
    }

    /// The plain line of an instruction, if it has one.
    fn plain_line(i: &Instruction) -> (r: Option<String>)
        ensures
            match plain_text(i@) {
                Some(l) => r is Some && r.unwrap()@ == l,
                None => r is None,
            },
    {
        match i {
            Instruction::New(t) => Some(concat("NEW ", t.as_str())),
            Instruction::Lds(a) => Some(concat("LDS ", int_to_string(*a).as_str())),
            Instruction::LdcD(a, t) => {
                let x = concat("LDC_D ", int_to_string(*a).as_str());
                let y = concat(x.as_str(), " ");
                Some(concat(y.as_str(), t.as_str()))
            },
            Instruction::Invoke(a) => Some(concat("INVOKE ", int_to_string(*a).as_str())),
            Instruction::Jmp(p) => Some(concat("JMP ", int_to_string(*p).as_str())),
            Instruction::Cjmp(p) => Some(concat("CJMP ", int_to_string(*p).as_str())),
            Instruction::Debug(l, c) => {
                let x = concat("DEBUG ", int_to_string(*l).as_str());
                let y = concat(x.as_str(), " ");
                Some(concat(y.as_str(), int_to_string(*c).as_str()))
            },
            Instruction::Unknown(_) => None,
            _ => Some(owned(instruction_name(i))),
        }
    }

    /// A string constant as the disassembly shows it.
    fn constant(strings: &[String], idx: i32) -> (r: String)
        ensures
            r@ == constant_text(strings@.map_values(|s: String| s@), idx),
    {
        if 0 <= idx && (idx as usize) < strings.len() {
            assert(strings@.map_values(|s: String| s@)[idx as int] == strings@[idx as int]@);
            debug_quoted(strings[idx as usize].as_str())
        } else {
            concat("str#", int_to_string(idx).as_str())
        }
    }

    /// The disassembly text of an instruction.
    fn disassembly_line(i: &Instruction, strings: &[String]) -> (r: String)
        ensures
            r@ == disassembly_text(i@, strings@.map_values(|s: String| s@)),
    {
        match i {
            Instruction::New(t) => concat("NEW          ", t.as_str()),
            Instruction::Lds(a) => concat("LDS          ", int_to_string(*a).as_str()),
            Instruction::LdcD(v, t) => {
                let shown = if crate::text::str_eq(t.as_str(), "String") {
                    Self::constant(strings, *v)
                } else if crate::text::str_eq(t.as_str(), "Boolean") {
                    if *v != 0 {
                        owned("true")
                    } else {
                        owned("false")
                    }
                } else {
                    int_to_string(*v)
                };
                let x = concat("LDC          ", shown.as_str());
                let y = concat(x.as_str(), " ; ");
                concat(y.as_str(), t.as_str())
            },
            Instruction::Invoke(a) => concat("INVOKE       ", int_to_string(*a).as_str()),
            Instruction::Jmp(p) => concat("JMP          @", int_to_string(*p).as_str()),
            Instruction::Cjmp(p) => concat("CJMP         @", int_to_string(*p).as_str()),
            Instruction::Debug(l, c) => {
                let x = concat("DEBUG        line ", int_to_string(*l).as_str());
                let y = concat(x.as_str(), " ; ");
                concat(y.as_str(), Self::constant(strings, *c).as_str())
            },
            Instruction::Unknown(b) => concat("??? opcode ", int_to_string(*b as i32).as_str()),
            _ => owned(instruction_name(i)),
        }
    }
}


impl DebugInfo {
    /// The heading lines of function `id`.
    fn heading(id: i32, f: &GvmFunction) -> (r: Vec<String>)
        ensures
            r@.map_values(|s: String| s@) == function_heading(id, f@),
    {
        let ghost dn: Seq<char> = match f@.debug_name {
            Some(n) => " ; "@ + n,
            None => Seq::empty(),
        };
        let ghost pp: Seq<char> = if f@.parameters.len() > 0 {
            "("@ + join_text(f@.parameters, ", "@) + ")"@
        } else {
            Seq::empty()
        };
        let mut first = concat(".function ", int_to_string(id).as_str());
        match f.debug_name() {
            Some(n) => {
                let a = concat(first.as_str(), " ; ");
                first = concat(a.as_str(), n);
            },
            None => {
                assert(first@ + dn =~= first@);
            },
        }
        assert(first@ == ".function "@ + int_text(id as int) + dn);
        let params = f.parameters();
        assert(params@.map_values(|s: String| s@) == names(params@));
        if params.len() > 0 {
            let a = concat(first.as_str(), "(");
            let b = concat(a.as_str(), join(params, ", ").as_str());
            first = concat(b.as_str(), ")");
        } else {
            assert(first@ + pp =~= first@);
        }
        assert(first@ == ".function "@ + int_text(id as int) + dn + pp);
        let mut r: Vec<String> = Vec::new();
        r.push(first);
        let locals = f.locals();
        assert(locals@.map_values(|s: String| s@) == names(locals@));
        let ghost lp: Seq<Seq<char>> = if f@.locals.len() > 0 {
            seq!["  .locals "@ + join_text(f@.locals, ", "@)]
        } else {
            Seq::empty()
        };
        if locals.len() > 0 {
            r.push(concat("  .locals ", join(locals, ", ").as_str()));
        }
        assert(r@.map_values(|s: String| s@) =~= seq![".function "@ + int_text(id as int) + dn + pp] + lp);
        let ghost top = r@.map_values(|s: String| s@);
        let ghost hl = f@.handlers.map_values(
            |h: HandlerView|
                "  .catch "@ + int_text(h.0 as int) + ".."@ + int_text(h.1 as int) + " -> "@ + int_text(
                    h.2 as int,
                ),
        );
        let handlers = f.get_exception_handlers();
        let mut k: usize = 0;
        assert(top + hl.take(0) =~= top);
        while k < handlers.len()
            invariant
                k <= handlers@.len(),
                handlers@.len() == f@.handlers.len(),
                forall|j: int| 0 <= j < handlers@.len() ==> #[trigger] handlers@[j]@ == seq![
                    f@.handlers[j].0,
                    f@.handlers[j].1,
                    f@.handlers[j].2,
                ],
                hl == f@.handlers.map_values(
                    |h: HandlerView|
                        "  .catch "@ + int_text(h.0 as int) + ".."@ + int_text(h.1 as int) + " -> "@
                            + int_text(h.2 as int),
                ),
                r@.map_values(|s: String| s@) == top + hl.take(k as int),
            decreases handlers@.len() - k,
        {
            let h = handlers[k];
            assert(h@ == seq![f@.handlers[k as int].0, f@.handlers[k as int].1, f@.handlers[k as int].2]);
            let a = concat("  .catch ", int_to_string(h[0]).as_str());
            let b = concat(a.as_str(), "..");
            let c = concat(b.as_str(), int_to_string(h[1]).as_str());
            let d = concat(c.as_str(), " -> ");
            let e = concat(d.as_str(), int_to_string(h[2]).as_str());
            let ghost before = r@.map_values(|s: String| s@);
            r.push(e);
            assert(r@.map_values(|s: String| s@) =~= before.push(hl[k as int]));
            k = k + 1;
            assert(top + hl.take(k as int) =~= (top + hl.take(k - 1)).push(hl[k - 1]));
        }
        assert(hl.take(k as int) =~= hl);
        r
    }

    /// The disassembly of `program`: a summary, the string constants, and
    /// each function in increasing order of id with its heading and its
    /// instructions by address; `None` when an instruction does not lie
    /// inside its function's bytecode.
    pub fn disassemble<N>(program: &GvmProgram<N>) -> (r: Option<Vec<String>>)
        requires
            program.wf(),
        ensures
            exists|ids: Seq<i32>|
                is_sorted_keys(ids, program@.functions.dom()) && match program_listing(program@, ids) {
                    Some(lines) => r is Some && r.unwrap()@.map_values(|s: String| s@) == lines,
                    None => r is None,
                },
    {
        let ghost p = program@;
        let strings = program.string_constants();
        let ids = program.function_ids();
        let ghost st = p.strings;
        assert(strings@.map_values(|s: String| s@) == st);
        let mut lines: Vec<String> = Vec::new();
        lines.push(concat("; program: ", program.name()));
        lines.push(concat("; strings: ", uint_to_string(strings.len()).as_str()));
        let fmap = program.functions();
        let count = fmap.len();
        proof {
            assert(fmap@.map_values(|f: GvmFunction| f@) == p.functions);
            assert(fmap@.dom() =~= p.functions.dom());
        }
        lines.push(concat("; functions: ", uint_to_string(count).as_str()));
        lines.push(String::new());
        lines.push(owned(".strings"));
        let ghost head = lines@.map_values(|s: String| s@);
        assert(head =~= seq![
            "; program: "@ + p.name,
            "; strings: "@ + int_text(p.strings.len() as int),
            "; functions: "@ + int_text(p.functions.dom().len() as int),
            Seq::<char>::empty(),
            ".strings"@,
        ]);
        let ghost sl = Seq::new(
            p.strings.len(),
            |i: int| "  "@ + pad_left(int_text(i), 4) + "  "@ + debug_text(p.strings[i]),
        );
        assert(head + sl.take(0) =~= head);
        let mut k: usize = 0;
        while k < strings.len()
            invariant
                k <= strings@.len(),
                strings@.map_values(|s: String| s@) == st,
                st == p.strings,
                sl == Seq::new(
                    p.strings.len(),
                    |i: int| "  "@ + pad_left(int_text(i), 4) + "  "@ + debug_text(p.strings[i]),
                ),
                lines@.map_values(|s: String| s@) == head + sl.take(k as int),
            decreases strings@.len() - k,
        {
            assert(st[k as int] == strings@[k as int]@);
            let a = concat("  ", pad(uint_to_string(k).as_str(), 4).as_str());
            let b = concat(a.as_str(), "  ");
            let l = concat(b.as_str(), debug_quoted(strings[k].as_str()).as_str());
            let ghost before = lines@.map_values(|s: String| s@);
            lines.push(l);
            assert(lines@.map_values(|s: String| s@) =~= before.push(sl[k as int]));
            k = k + 1;
            assert(head + sl.take(k as int) =~= (head + sl.take(k - 1)).push(sl[k - 1]));
        }
        assert(sl.take(k as int) =~= sl);
        lines.push(String::new());
        let ghost prefix = lines@.map_values(|s: String| s@);
        proof {
            match functions_listing(p, ids@) {
                Some(rest) => {
                    assert(prefix + rest =~= prefix + rest);
                    assert(ids@.skip(0) =~= ids@);
                },
                None => {
                    assert(ids@.skip(0) =~= ids@);
                },
            }
        }
        let mut j: usize = 0;
        while j < ids.len()
            invariant
                j <= ids@.len(),
                p == program@,
                program.wf(),
                is_sorted_keys(ids@, p.functions.dom()),
                strings@.map_values(|s: String| s@) == p.strings,
                match functions_listing(p, ids@) {
                    Some(all) => match functions_listing(p, ids@.skip(j as int)) {
                        Some(rest) => lines@.map_values(|s: String| s@) + rest == prefix + all,
                        None => false,
                    },
                    None => functions_listing(p, ids@.skip(j as int)) is None,
                },
            decreases ids@.len() - j,
        {
            let id = ids[j];
            assert(ids@.contains(id));
            let f = program.get_function(id).unwrap();
            let ghost rest_ids = ids@.skip(j as int);
            assert(rest_ids[0] == id);
            assert(rest_ids.drop_first() =~= ids@.skip(j + 1));
            let mut code = f.bytecode().clone();
            let body = match Self::list(&mut code, false, strings) {
                Some(b) => b,
                None => {
                    assert(functions_listing(p, rest_ids) is None);
                    return None;
                },
            };
            let ghost before = lines@.map_values(|s: String| s@);
            let hd = Self::heading(id, f);
            let mut m: usize = 0;
            while m < hd.len()
                invariant
                    m <= hd@.len(),
                    lines@.map_values(|s: String| s@) == before + hd@.map_values(|s: String| s@).take(m as int),
                decreases hd@.len() - m,
            {
                let ghost hv = hd@.map_values(|s: String| s@);
                let ghost b2 = lines@.map_values(|s: String| s@);
                assert(hv[m as int] == hd@[m as int]@);
                let x = hd[m].clone();
                lines.push(x);
                assert(lines@.map_values(|s: String| s@) =~= b2.push(hv[m as int]));
                assert(hv.take(m + 1) =~= hv.take(m as int).push(hv[m as int]));
                m = m + 1;
                assert(lines@.map_values(|s: String| s@) =~= before + hv.take(m as int));
            }
            let ghost before2 = lines@.map_values(|s: String| s@);
            let mut m: usize = 0;
            while m < body.len()
                invariant
                    m <= body@.len(),
                    lines@.map_values(|s: String| s@) == before2 + body@.map_values(|s: String| s@).take(m as int),
                decreases body@.len() - m,
            {
                let ghost bv = body@.map_values(|s: String| s@);
                let ghost b2 = lines@.map_values(|s: String| s@);
                assert(bv[m as int] == body@[m as int]@);
                let x = body[m].clone();
                lines.push(x);
                assert(lines@.map_values(|s: String| s@) =~= b2.push(bv[m as int]));
                assert(bv.take(m + 1) =~= bv.take(m as int).push(bv[m as int]));
                m = m + 1;
                assert(lines@.map_values(|s: String| s@) =~= before2 + bv.take(m as int));
            }
            lines.push(String::new());
            proof {
                let hv = hd@.map_values(|s: String| s@);
                let bv = body@.map_values(|s: String| s@);
                assert(hv.take(hd@.len() as int) =~= hv);
                assert(bv.take(body@.len() as int) =~= bv);
                assert(lines@.map_values(|s: String| s@) =~= before + hv + bv + seq![Seq::<char>::empty()]);
                match functions_listing(p, ids@.skip(j + 1)) {
                    Some(rest) => {
                        assert(functions_listing(p, rest_ids) == Some(hv + bv + seq![Seq::<char>::empty()] + rest));
                        assert(lines@.map_values(|s: String| s@) + rest =~= before + (hv + bv + seq![Seq::<char>::empty()] + rest));
                    },
                    None => {},
                }
            }
            j = j + 1;
        }
        proof {
            assert(ids@.skip(j as int) =~= Seq::<i32>::empty());
            assert(lines@.map_values(|s: String| s@) + Seq::<Seq<char>>::empty() =~= lines@.map_values(|s: String| s@));
            match functions_listing(p, ids@) {
                Some(all) => {
                    assert(prefix == seq![
                        "; program: "@ + p.name,
                        "; strings: "@ + int_text(p.strings.len() as int),
                        "; functions: "@ + int_text(p.functions.dom().len() as int),
                        Seq::<char>::empty(),
                        ".strings"@,
                    ] + sl + seq![Seq::<char>::empty()]);
                },
                None => {},
            }
        }
        Some(lines)
    }
}


/// The disassembly line of the instruction at `p`, after its address,
/// starts with the name of the opcode there and shows its operands: a
/// conditional jump is listed as `CJMP`, `LT` as `LT`, and so on for every
/// known opcode.
pub proof fn lemma_disassembly_names(data: Seq<u8>, p: int, strings: Seq<Seq<char>>)
    requires
        0 <= p < data.len(),
    ensures
        data[p] == 9u8 ==> disassembly_text(decode(data, p).unwrap().0, strings) == "RETURN"@,
        data[p] == 10u8 ==> disassembly_text(decode(data, p).unwrap().0, strings) == "PUT"@,
        data[p] == 11u8 ==> disassembly_text(decode(data, p).unwrap().0, strings) == "GET"@,
        data[p] == 12u8 ==> disassembly_text(decode(data, p).unwrap().0, strings) == "HALT"@,
        data[p] == 20u8 ==> disassembly_text(decode(data, p).unwrap().0, strings) == "NOT"@,
        data[p] == 27u8 ==> disassembly_text(decode(data, p).unwrap().0, strings) == "POP"@,
        data[p] == 28u8 ==> disassembly_text(decode(data, p).unwrap().0, strings) == "NATIVE"@,
        data[p] == 29u8 ==> disassembly_text(decode(data, p).unwrap().0, strings) == "DUP"@,
        data[p] == 31u8 ==> disassembly_text(decode(data, p).unwrap().0, strings) == "THROW"@,
        data[p] == 33u8 ==> disassembly_text(decode(data, p).unwrap().0, strings) == "BREAKPOINT"@,
        data[p] == 35u8 ==> disassembly_text(decode(data, p).unwrap().0, strings) == "GETDYNAMIC"@,
        data[p] == 37u8 ==> disassembly_text(decode(data, p).unwrap().0, strings) == "FORK"@,
        data[p] == 14u8 ==> disassembly_text(decode(data, p).unwrap().0, strings) == "ADD"@,
        data[p] == 15u8 ==> disassembly_text(decode(data, p).unwrap().0, strings) == "SUB"@,
        data[p] == 16u8 ==> disassembly_text(decode(data, p).unwrap().0, strings) == "MULT"@,
        data[p] == 17u8 ==> disassembly_text(decode(data, p).unwrap().0, strings) == "DIV"@,
        data[p] == 30u8 ==> disassembly_text(decode(data, p).unwrap().0, strings) == "MOD"@,
        data[p] == 18u8 ==> disassembly_text(decode(data, p).unwrap().0, strings) == "AND"@,
        data[p] == 19u8 ==> disassembly_text(decode(data, p).unwrap().0, strings) == "OR"@,
        data[p] == 21u8 ==> disassembly_text(decode(data, p).unwrap().0, strings) == "EQL"@,
        data[p] == 22u8 ==> disassembly_text(decode(data, p).unwrap().0, strings) == "GT"@,
        data[p] == 23u8 ==> disassembly_text(decode(data, p).unwrap().0, strings) == "LT"@,
        data[p] == 2u8 && p + 5 <= data.len() ==> disassembly_text(decode(data, p).unwrap().0, strings) == "LDS          "@ + int_text(int_at(data, p + 1) as int),
        data[p] == 8u8 && p + 5 <= data.len() ==> disassembly_text(decode(data, p).unwrap().0, strings) == "INVOKE       "@ + int_text(int_at(data, p + 1) as int),
        data[p] == 25u8 && p + 5 <= data.len() ==> disassembly_text(decode(data, p).unwrap().0, strings) == "JMP          @"@ + int_text(int_at(data, p + 1) as int),
        data[p] == 24u8 && p + 5 <= data.len() ==> disassembly_text(decode(data, p).unwrap().0, strings) == "CJMP         @"@ + int_text(int_at(data, p + 1) as int),
        data[p] == 32u8 && p + 9 <= data.len() ==> disassembly_text(decode(data, p).unwrap().0, strings) == "DEBUG        line "@ + int_text(int_at(data, p + 1) as int) + " ; "@ + constant_text(strings, int_at(data, p + 5)),
        data[p] == 1u8 && string_operand(data, p + 1) is Some ==> disassembly_text(decode(data, p).unwrap().0, strings) == "NEW          "@ + string_operand(data, p + 1).unwrap().0,
        data[p] == 34u8 && p + 5 <= data.len() && string_operand(data, p + 5) is Some ==> exists|x: Seq<char>| disassembly_text(decode(data, p).unwrap().0, strings) == "LDC          "@ + x + " ; "@ + string_operand(data, p + 5).unwrap().0,
{
    crate::vm::instruction::lemma_opcode_meaning(data, p);
    if data[p] == 34u8 && p + 5 <= data.len() && string_operand(data, p + 5) is Some {
        let t = string_operand(data, p + 5).unwrap().0;
        let v = int_at(data, p + 1);
        let x = if t == "String"@ {
            constant_text(strings, v)
        } else if t == "Boolean"@ {
            if v != 0 {
                "true"@
            } else {
                "false"@
            }
        } else {
            int_text(v as int)
        };
        assert(disassembly_text(decode(data, p).unwrap().0, strings) == "LDC          "@ + x + " ; "@ + t);
    }
}

/// The plain listing line of the instruction at `p` is the name of the
/// opcode there followed by its operands, separated by spaces.
pub proof fn lemma_plain_names(data: Seq<u8>, p: int)
    requires
        0 <= p < data.len(),
    ensures
        data[p] == 9u8 ==> plain_text(decode(data, p).unwrap().0) == Some("RETURN"@),
        data[p] == 10u8 ==> plain_text(decode(data, p).unwrap().0) == Some("PUT"@),
        data[p] == 11u8 ==> plain_text(decode(data, p).unwrap().0) == Some("GET"@),
        data[p] == 12u8 ==> plain_text(decode(data, p).unwrap().0) == Some("HALT"@),
        data[p] == 20u8 ==> plain_text(decode(data, p).unwrap().0) == Some("NOT"@),
        data[p] == 27u8 ==> plain_text(decode(data, p).unwrap().0) == Some("POP"@),
        data[p] == 28u8 ==> plain_text(decode(data, p).unwrap().0) == Some("NATIVE"@),
        data[p] == 29u8 ==> plain_text(decode(data, p).unwrap().0) == Some("DUP"@),
        data[p] == 31u8 ==> plain_text(decode(data, p).unwrap().0) == Some("THROW"@),
        data[p] == 33u8 ==> plain_text(decode(data, p).unwrap().0) == Some("BREAKPOINT"@),
        data[p] == 35u8 ==> plain_text(decode(data, p).unwrap().0) == Some("GETDYNAMIC"@),
        data[p] == 37u8 ==> plain_text(decode(data, p).unwrap().0) == Some("FORK"@),
        data[p] == 14u8 ==> plain_text(decode(data, p).unwrap().0) == Some("ADD"@),
        data[p] == 15u8 ==> plain_text(decode(data, p).unwrap().0) == Some("SUB"@),
        data[p] == 16u8 ==> plain_text(decode(data, p).unwrap().0) == Some("MULT"@),
        data[p] == 17u8 ==> plain_text(decode(data, p).unwrap().0) == Some("DIV"@),
        data[p] == 30u8 ==> plain_text(decode(data, p).unwrap().0) == Some("MOD"@),
        data[p] == 18u8 ==> plain_text(decode(data, p).unwrap().0) == Some("AND"@),
        data[p] == 19u8 ==> plain_text(decode(data, p).unwrap().0) == Some("OR"@),
        data[p] == 21u8 ==> plain_text(decode(data, p).unwrap().0) == Some("EQL"@),
        data[p] == 22u8 ==> plain_text(decode(data, p).unwrap().0) == Some("GT"@),
        data[p] == 23u8 ==> plain_text(decode(data, p).unwrap().0) == Some("LT"@),
        data[p] == 2u8 && p + 5 <= data.len() ==> plain_text(decode(data, p).unwrap().0) == Some("LDS "@ + int_text(int_at(data, p + 1) as int)),
        data[p] == 8u8 && p + 5 <= data.len() ==> plain_text(decode(data, p).unwrap().0) == Some("INVOKE "@ + int_text(int_at(data, p + 1) as int)),
        data[p] == 25u8 && p + 5 <= data.len() ==> plain_text(decode(data, p).unwrap().0) == Some("JMP "@ + int_text(int_at(data, p + 1) as int)),
        data[p] == 24u8 && p + 5 <= data.len() ==> plain_text(decode(data, p).unwrap().0) == Some("CJMP "@ + int_text(int_at(data, p + 1) as int)),
        data[p] == 32u8 && p + 9 <= data.len() ==> plain_text(decode(data, p).unwrap().0) == Some("DEBUG "@ + int_text(int_at(data, p + 1) as int) + " "@ + int_text(int_at(data, p + 5) as int)),
        data[p] == 1u8 && string_operand(data, p + 1) is Some ==> plain_text(decode(data, p).unwrap().0) == Some("NEW "@ + string_operand(data, p + 1).unwrap().0),
        data[p] == 34u8 && p + 5 <= data.len() && string_operand(data, p + 5) is Some ==> plain_text(decode(data, p).unwrap().0) == Some("LDC_D "@ + int_text(int_at(data, p + 1) as int) + " "@ + string_operand(data, p + 5).unwrap().0),
{
    crate::vm::instruction::lemma_opcode_meaning(data, p);
}

} // verus!
