//! The binary program format: the bytes a program is stored as, and what
//! reading bytes gives back.
use vstd::prelude::*;

use crate::program::function::{FunctionView, HandlerView};
use crate::program::program::{is_builtin_type, string_position, ProgramView};
use crate::vm::types::{
    boolean_name, boolean_supports, function_name, function_supports, undefined_name,
    undefined_supports, TypeKind,
};
use crate::streams::utf16::{lemma_string_bytes_roundtrip, string_bytes};
use crate::streams::{
    int_at, int_bytes, lemma_grown_len, lemma_int_roundtrip_bytes, write_at, zeros, StreamView,
};
use crate::vm::instruction::{int_operand, string_operand};

verus! {

/// The first four bytes of a stored program: `GSVM`.
pub open spec fn magic() -> Seq<u8> {
    seq![0x47u8, 0x53u8, 0x56u8, 0x4Du8]
}

/// The format version written and accepted.
pub const VERSION: i32 = 2;

/// A function as the format stores it.
pub struct FunctionRecord {
    pub id: i32,
    pub index: i32,
    pub debug_name: Option<Seq<char>>,
    pub parameters: Seq<Seq<char>>,
    pub locals: Seq<Seq<char>>,
    pub handlers: Seq<HandlerView>,
    pub code: Seq<u8>,
}

/// A program as the format stores it.
pub struct ProgramRecord {
    pub name: Seq<char>,
    pub strings: Seq<Seq<char>>,
    /// The argument count of each native method.
    pub arities: Seq<i32>,
    pub functions: Seq<FunctionRecord>,
}

/// Why bytes do not read as a program.
pub enum ReadFailure {
    /// The first four bytes are not `GSVM`.
    Magic,
    /// The version is not the one this library reads.
    Version(i32),
    /// The bytes end early, a count is negative, or a string index lies
    /// outside the string table.
    Malformed,
}

/// The concatenation of byte chunks.
pub open spec fn flat(chunks: Seq<Seq<u8>>) -> Seq<u8>
    decreases chunks.len(),
{
    if chunks.len() == 0 {
        Seq::empty()
    } else {
        chunks[0] + flat(chunks.drop_first())
    }
}

/// The concatenation of lists of strings.
pub open spec fn flat_strings(lists: Seq<Seq<Seq<char>>>) -> Seq<Seq<char>>
    decreases lists.len(),
{
    if lists.len() == 0 {
        Seq::empty()
    } else {
        lists[0] + flat_strings(lists.drop_first())
    }
}

/// A string: its byte length, then its bytes.
pub open spec fn str_chunk(s: Seq<char>) -> Seq<u8> {
    int_bytes(string_bytes(s).len() as i32) + string_bytes(s)
}

/// Integers one after the other.
pub open spec fn ints_chunk(vs: Seq<i32>) -> Seq<u8> {
    flat(vs.map_values(|v: i32| int_bytes(v)))
}

/// Strings one after the other.
pub open spec fn strs_chunk(ss: Seq<Seq<char>>) -> Seq<u8> {
    flat(ss.map_values(|s: Seq<char>| str_chunk(s)))
}

/// The positions of strings in the table.
pub open spec fn positions(table: Seq<Seq<char>>, ss: Seq<Seq<char>>) -> Seq<i32> {
    ss.map_values(|s: Seq<char>| string_position(table, s) as i32)
}

/// A catch block: start, end and target.
pub open spec fn handler_chunk(h: HandlerView) -> Seq<u8> {
    int_bytes(h.0) + int_bytes(h.1) + int_bytes(h.2)
}

/// Catch blocks one after the other.
pub open spec fn handlers_chunk(hs: Seq<HandlerView>) -> Seq<u8> {
    flat(hs.map_values(|h: HandlerView| handler_chunk(h)))
}

/// The table position written for a debug name (-1 for none).
pub open spec fn debug_name_ref(table: Seq<Seq<char>>, n: Option<Seq<char>>) -> i32 {
    match n {
        Some(s) => string_position(table, s) as i32,
        None => -1i32,
    }
}

/// A function: id, index, debug name, parameters, locals, catch blocks and
/// bytecode.
pub open spec fn function_chunk(table: Seq<Seq<char>>, f: FunctionRecord) -> Seq<u8> {
    int_bytes(f.id) + int_bytes(f.index) + int_bytes(debug_name_ref(table, f.debug_name))
        + int_bytes(f.parameters.len() as i32) + ints_chunk(positions(table, f.parameters))
        + int_bytes(f.locals.len() as i32) + ints_chunk(positions(table, f.locals)) + int_bytes(
        f.handlers.len() as i32,
    ) + handlers_chunk(f.handlers) + int_bytes(f.code.len() as i32) + f.code
}

/// Functions one after the other.
pub open spec fn functions_chunk(table: Seq<Seq<char>>, fs: Seq<FunctionRecord>) -> Seq<u8> {
    flat(fs.map_values(|f: FunctionRecord| function_chunk(table, f)))
}

/// The table after adding `s` unless it is there.
pub open spec fn intern_one(table: Seq<Seq<char>>, s: Seq<char>) -> Seq<Seq<char>> {
    if table.contains(s) {
        table
    } else {
        table.push(s)
    }
}

/// The table after adding each of `items` in order, each once.
pub open spec fn interned(table: Seq<Seq<char>>, items: Seq<Seq<char>>) -> Seq<Seq<char>>
    decreases items.len(),
{
    if items.len() == 0 {
        table
    } else {
        interned(intern_one(table, items[0]), items.drop_first())
    }
}

/// The strings a function contributes to the table: its debug name, its
/// parameters and its locals.
pub open spec fn function_strings(f: FunctionRecord) -> Seq<Seq<char>> {
    (match f.debug_name {
        Some(n) => seq![n],
        None => Seq::empty(),
    }) + f.parameters + f.locals
}

/// Every string of a program, in the order they enter the table.
pub open spec fn record_strings(r: ProgramRecord) -> Seq<Seq<char>> {
    seq![r.name] + r.strings + flat_strings(r.functions.map_values(|f: FunctionRecord| function_strings(f)))
}

/// The string table of a program.
#[verifier::opaque]
pub open spec fn record_table(r: ProgramRecord) -> Seq<Seq<char>> {
    interned(Seq::empty(), record_strings(r))
}

/// The bytes a program is stored as.
#[verifier::opaque]
pub open spec fn encode(r: ProgramRecord) -> Seq<u8> {
    let table = record_table(r);
    magic() + int_bytes(VERSION) + int_bytes(table.len() as i32) + strs_chunk(table) + int_bytes(
        string_position(table, r.name) as i32,
    ) + int_bytes(r.strings.len() as i32) + ints_chunk(positions(table, r.strings)) + int_bytes(
        r.arities.len() as i32,
    ) + ints_chunk(r.arities) + int_bytes(r.functions.len() as i32) + functions_chunk(
        table,
        r.functions,
    )
}

/// The data a reader sees for `bytes`: the bytes, then zeros to the end of
/// the last block of 8000 bytes.
#[verifier::opaque]
pub open spec fn loaded(bytes: Seq<u8>) -> Seq<u8> {
    write_at(Seq::empty(), 8000, 0, bytes)
}

/// A count read as `i32`; a negative one counts as zero.
pub open spec fn count_of(n: i32) -> nat {
    if n > 0 {
        n as nat
    } else {
        0
    }
}

/// `n` integers from position `p`.
pub open spec fn parse_ints(d: Seq<u8>, p: int, n: nat) -> Option<(Seq<i32>, int)>
    decreases n,
{
    if n == 0 {
        Some((Seq::empty(), p))
    } else {
        match int_operand(d, p) {
            Some((v, q)) => match parse_ints(d, q, (n - 1) as nat) {
                Some((rest, r)) => Some((seq![v] + rest, r)),
                None => None,
            },
            None => None,
        }
    }
}

/// `n` strings from position `p`.
pub open spec fn parse_strs(d: Seq<u8>, p: int, n: nat) -> Option<(Seq<Seq<char>>, int)>
    decreases n,
{
    if n == 0 {
        Some((Seq::empty(), p))
    } else {
        match string_operand(d, p) {
            Some((s, q)) => match parse_strs(d, q, (n - 1) as nat) {
                Some((rest, r)) => Some((seq![s] + rest, r)),
                None => None,
            },
            None => None,
        }
    }
}

/// Whether every integer is a position in the table.
pub open spec fn all_in_table(table: Seq<Seq<char>>, vs: Seq<i32>) -> bool {
    forall|i: int| 0 <= i < vs.len() ==> 0 <= #[trigger] vs[i] < table.len()
}

/// The strings at the given table positions.
pub open spec fn lookup(table: Seq<Seq<char>>, vs: Seq<i32>) -> Seq<Seq<char>> {
    vs.map_values(|v: i32| table[v as int])
}

/// `n` string references from position `p`, each a position in the table.
pub open spec fn parse_refs(d: Seq<u8>, p: int, n: nat, table: Seq<Seq<char>>) -> Option<(Seq<Seq<char>>, int)> {
    match parse_ints(d, p, n) {
        Some((vs, q)) => if all_in_table(table, vs) {
            Some((lookup(table, vs), q))
        } else {
            None
        },
        None => None,
    }
}

/// `n` catch blocks from position `p`.
pub open spec fn parse_handlers(d: Seq<u8>, p: int, n: nat) -> Option<(Seq<HandlerView>, int)>
    decreases n,
{
    if n == 0 {
        Some((Seq::empty(), p))
    } else {
        match parse_ints(d, p, 3) {
            Some((v, q)) => match parse_handlers(d, q, (n - 1) as nat) {
                Some((rest, r)) => Some((seq![(v[0], v[1], v[2])] + rest, r)),
                None => None,
            },
            None => None,
        }
    }
}

/// A count at position `p` that must not be negative.
pub open spec fn parse_count(d: Seq<u8>, p: int) -> Option<(nat, int)> {
    match int_operand(d, p) {
        Some((n, q)) => if n >= 0 {
            Some((n as nat, q))
        } else {
            None
        },
        None => None,
    }
}

/// A function from position `p`; its id must leave room for the next one.
pub open spec fn parse_function(d: Seq<u8>, p: int, table: Seq<Seq<char>>) -> Option<(FunctionRecord, int)> {
    match parse_ints(d, p, 3) {
        None => None,
        Some((head, p1)) => {
            let id = head[0];
            let index = head[1];
            let dn = head[2];
            if id == i32::MAX || dn >= table.len() {
                None
            } else {
                let debug_name = if dn >= 0 {
                    Some(table[dn as int])
                } else {
                    None
                };
                match parse_count(d, p1) {
                    None => None,
                    Some((pc, p2)) => match parse_refs(d, p2, pc, table) {
                        None => None,
                        Some((parameters, p3)) => match parse_count(d, p3) {
                            None => None,
                            Some((lc, p4)) => match parse_refs(d, p4, lc, table) {
                                None => None,
                                Some((locals, p5)) => match parse_count(d, p5) {
                                    None => None,
                                    Some((hc, p6)) => match parse_handlers(d, p6, hc) {
                                        None => None,
                                        Some((handlers, p7)) => match parse_count(d, p7) {
                                            None => None,
                                            Some((bc, p8)) => if p8 + bc <= d.len() {
                                                Some((
                                                    FunctionRecord {
                                                        id,
                                                        index,
                                                        debug_name,
                                                        parameters,
                                                        locals,
                                                        handlers,
                                                        code: d.subrange(p8, p8 + bc),
                                                    },
                                                    p8 + bc,
                                                ))
                                            } else {
                                                None
                                            },
                                        },
                                    },
                                },
                            },
                        },
                    },
                }
            }
        },
    }
}

/// `n` functions from position `p`.
pub open spec fn parse_functions(d: Seq<u8>, p: int, n: nat, table: Seq<Seq<char>>) -> Option<(Seq<FunctionRecord>, int)>
    decreases n,
{
    if n == 0 {
        Some((Seq::empty(), p))
    } else {
        match parse_function(d, p, table) {
            Some((f, q)) => match parse_functions(d, q, (n - 1) as nat, table) {
                Some((rest, r)) => Some((seq![f] + rest, r)),
                None => None,
            },
            None => None,
        }
    }
}

/// The program after the header, from position `p`: the string table, then
/// the rest.
pub open spec fn parse_body(d: Seq<u8>, p: int) -> Option<ProgramRecord> {
    match parse_count(d, p) {
        None => None,
        Some((tn, p1)) => match parse_strs(d, p1, tn) {
            None => None,
            Some((table, p2)) => parse_named(d, p2, table),
        },
    }
}

/// The program's name (a table position), then the rest.
pub open spec fn parse_named(d: Seq<u8>, p: int, table: Seq<Seq<char>>) -> Option<ProgramRecord> {
    match int_operand(d, p) {
        None => None,
        Some((ni, p1)) => if !(0 <= ni < table.len()) {
            None
        } else {
            parse_constants(d, p1, table, table[ni as int])
        },
    }
}

/// The string constants (table positions), then the rest.
pub open spec fn parse_constants(d: Seq<u8>, p: int, table: Seq<Seq<char>>, name: Seq<char>) -> Option<ProgramRecord> {
    match int_operand(d, p) {
        None => None,
        Some((sn, p1)) => match parse_refs(d, p1, count_of(sn), table) {
            None => None,
            Some((strings, p2)) => parse_natives(d, p2, table, name, strings),
        },
    }
}

/// The native arities, then the functions.
pub open spec fn parse_natives(
    d: Seq<u8>,
    p: int,
    table: Seq<Seq<char>>,
    name: Seq<char>,
    strings: Seq<Seq<char>>,
) -> Option<ProgramRecord> {
    match int_operand(d, p) {
        None => None,
        Some((nn, p1)) => match parse_ints(d, p1, count_of(nn)) {
            None => None,
            Some((arities, p2)) => match int_operand(d, p2) {
                None => None,
                Some((fnum, p3)) => match parse_functions(d, p3, count_of(fnum), table) {
                    None => None,
                    Some((functions, _)) => Some(ProgramRecord { name, strings, arities, functions }),
                },
            },
        },
    }
}

/// What reading the data `d` gives.
pub open spec fn parse(d: Seq<u8>) -> Result<ProgramRecord, ReadFailure> {
    if d.len() < 4 {
        Err(ReadFailure::Malformed)
    } else if d.subrange(0, 4) != magic() {
        Err(ReadFailure::Magic)
    } else {
        match int_operand(d, 4) {
            None => Err(ReadFailure::Malformed),
            Some((v, p)) => if v != VERSION {
                Err(ReadFailure::Version(v))
            } else {
                match parse_body(d, p) {
                    Some(r) => Ok(r),
                    None => Err(ReadFailure::Malformed),
                }
            },
        }
    }
}


/// Whether a function fits the format: its id leaves room for one more and
/// its counts and bytecode length fit in an `i32`.
pub open spec fn function_storable(f: FunctionRecord) -> bool {
    &&& f.id != i32::MAX
    &&& f.parameters.len() <= i32::MAX
    &&& f.locals.len() <= i32::MAX
    &&& f.handlers.len() <= i32::MAX
    &&& f.code.len() <= i32::MAX
}

/// Whether a program fits the format: its table, counts and string lengths
/// fit in an `i32`, and so does every function.
pub open spec fn storable(r: ProgramRecord) -> bool {
    let table = record_table(r);
    &&& table.len() <= i32::MAX
    &&& forall|i: int| 0 <= i < table.len() ==> string_bytes(#[trigger] table[i]).len() <= i32::MAX
    &&& r.strings.len() <= i32::MAX
    &&& r.arities.len() <= i32::MAX
    &&& r.functions.len() <= i32::MAX
    &&& forall|i: int| 0 <= i < r.functions.len() ==> function_storable(#[trigger] r.functions[i])
}

/// `d` holds `c` at position `p`.
pub open spec fn holds_at(d: Seq<u8>, p: int, c: Seq<u8>) -> bool {
    &&& 0 <= p
    &&& p + c.len() <= d.len()
    &&& d.subrange(p, p + c.len()) == c
}

proof fn lemma_split(d: Seq<u8>, p: int, a: Seq<u8>, b: Seq<u8>)
    requires
        holds_at(d, p, a + b),
    ensures
        holds_at(d, p, a),
        holds_at(d, p + a.len(), b),
{
    let whole = d.subrange(p, p + (a + b).len());
    assert forall|i: int| 0 <= i < a.len() implies d.subrange(p, p + a.len())[i] == a[i] by {
        assert(whole[i] == (a + b)[i]);
    }
    assert forall|i: int| 0 <= i < b.len() implies d.subrange(p + a.len(), p + a.len() + b.len())[i]
        == b[i] by {
        assert(whole[a.len() + i] == (a + b)[a.len() + i]);
    }
    assert(d.subrange(p, p + a.len()) =~= a);
    assert(d.subrange(p + a.len(), p + a.len() + b.len()) =~= b);
}

proof fn lemma_int(d: Seq<u8>, p: int, v: i32)
    requires
        holds_at(d, p, int_bytes(v)),
    ensures
        int_operand(d, p) == Some((v, p + 4)),
{
    let b = int_bytes(v);
    assert(d[p] == b[0]);
    assert(d[p + 1] == b[1]);
    assert(d[p + 2] == b[2]);
    assert(d[p + 3] == b[3]);
    lemma_int_roundtrip_bytes(v);
}

proof fn lemma_str(d: Seq<u8>, p: int, s: Seq<char>)
    requires
        holds_at(d, p, str_chunk(s)),
        string_bytes(s).len() <= i32::MAX,
    ensures
        string_operand(d, p) == Some((s, p + str_chunk(s).len())),
{
    let n = string_bytes(s).len();
    lemma_split(d, p, int_bytes(n as i32), string_bytes(s));
    lemma_int(d, p, n as i32);
    lemma_string_bytes_roundtrip(s);
}

proof fn lemma_flat_first(chunks: Seq<Seq<u8>>)
    requires
        chunks.len() > 0,
    ensures
        flat(chunks) == chunks[0] + flat(chunks.drop_first()),
{
}

proof fn lemma_ints(d: Seq<u8>, p: int, vs: Seq<i32>)
    requires
        holds_at(d, p, ints_chunk(vs)),
    ensures
        parse_ints(d, p, vs.len()) == Some((vs, p + ints_chunk(vs).len())),
    decreases vs.len(),
{
    if vs.len() > 0 {
        let m = vs.map_values(|v: i32| int_bytes(v));
        assert(m.drop_first() =~= vs.drop_first().map_values(|v: i32| int_bytes(v)));
        lemma_flat_first(m);
        lemma_split(d, p, int_bytes(vs[0]), ints_chunk(vs.drop_first()));
        lemma_int(d, p, vs[0]);
        lemma_ints(d, p + 4, vs.drop_first());
        assert(seq![vs[0]] + vs.drop_first() =~= vs);
    }
}

proof fn lemma_strs(d: Seq<u8>, p: int, ss: Seq<Seq<char>>)
    requires
        holds_at(d, p, strs_chunk(ss)),
        forall|i: int| 0 <= i < ss.len() ==> string_bytes(#[trigger] ss[i]).len() <= i32::MAX,
    ensures
        parse_strs(d, p, ss.len()) == Some((ss, p + strs_chunk(ss).len())),
    decreases ss.len(),
{
    if ss.len() > 0 {
        let m = ss.map_values(|s: Seq<char>| str_chunk(s));
        assert(m.drop_first() =~= ss.drop_first().map_values(|s: Seq<char>| str_chunk(s)));
        lemma_flat_first(m);
        lemma_split(d, p, str_chunk(ss[0]), strs_chunk(ss.drop_first()));
        assert(string_bytes(ss[0]).len() <= i32::MAX);
        lemma_str(d, p, ss[0]);
        assert forall|i: int| 0 <= i < ss.drop_first().len() implies string_bytes(
            #[trigger] ss.drop_first()[i],
        ).len() <= i32::MAX by {
            assert(ss.drop_first()[i] == ss[i + 1]);
        }
        lemma_strs(d, p + str_chunk(ss[0]).len(), ss.drop_first());
        assert(seq![ss[0]] + ss.drop_first() =~= ss);
    }
}

/// The position of a string in a table that holds it.
proof fn lemma_position(table: Seq<Seq<char>>, s: Seq<char>)
    requires
        table.contains(s),
    ensures
        0 <= string_position(table, s) < table.len(),
        table[string_position(table, s)] == s,
{
    table.index_of_first_ensures(s);
}

proof fn lemma_refs(d: Seq<u8>, p: int, table: Seq<Seq<char>>, ss: Seq<Seq<char>>)
    requires
        holds_at(d, p, ints_chunk(positions(table, ss))),
        table.len() <= i32::MAX,
        forall|i: int| 0 <= i < ss.len() ==> table.contains(#[trigger] ss[i]),
    ensures
        parse_refs(d, p, ss.len(), table) == Some((ss, p + ints_chunk(positions(table, ss)).len())),
{
    let vs = positions(table, ss);
    lemma_ints(d, p, vs);
    assert forall|i: int| 0 <= i < vs.len() implies 0 <= #[trigger] vs[i] < table.len() by {
        lemma_position(table, ss[i]);
    }
    assert forall|i: int| 0 <= i < ss.len() implies lookup(table, vs)[i] == ss[i] by {
        lemma_position(table, ss[i]);
    }
    assert(lookup(table, vs) =~= ss);
}

proof fn lemma_handlers(d: Seq<u8>, p: int, hs: Seq<HandlerView>)
    requires
        holds_at(d, p, handlers_chunk(hs)),
    ensures
        parse_handlers(d, p, hs.len()) == Some((hs, p + handlers_chunk(hs).len())),
    decreases hs.len(),
{
    if hs.len() > 0 {
        let m = hs.map_values(|h: HandlerView| handler_chunk(h));
        assert(m.drop_first() =~= hs.drop_first().map_values(|h: HandlerView| handler_chunk(h)));
        lemma_flat_first(m);
        let h = hs[0];
        lemma_split(d, p, handler_chunk(h), handlers_chunk(hs.drop_first()));
        lemma_three(d, p, h.0, h.1, h.2);
        lemma_handlers(d, p + 12, hs.drop_first());
        assert(seq![(h.0, h.1, h.2)] + hs.drop_first() =~= hs);
    }
}

proof fn lemma_three(d: Seq<u8>, p: int, a: i32, b: i32, c: i32)
    requires
        holds_at(d, p, int_bytes(a) + int_bytes(b) + int_bytes(c)),
    ensures
        parse_ints(d, p, 3) == Some((seq![a, b, c], p + 12)),
{
    lemma_split(d, p, int_bytes(a) + int_bytes(b), int_bytes(c));
    lemma_split(d, p, int_bytes(a), int_bytes(b));
    lemma_int(d, p, a);
    lemma_int(d, p + 4, b);
    lemma_int(d, p + 8, c);
    reveal_with_fuel(parse_ints, 4);
    assert(seq![a] + (seq![b] + (seq![c] + Seq::<i32>::empty())) =~= seq![a, b, c]);
}


/// Every string of a function is in the table.
pub open spec fn strings_in(table: Seq<Seq<char>>, f: FunctionRecord) -> bool {
    &&& (f.debug_name matches Some(n) ==> table.contains(n))
    &&& forall|i: int| 0 <= i < f.parameters.len() ==> table.contains(#[trigger] f.parameters[i])
    &&& forall|i: int| 0 <= i < f.locals.len() ==> table.contains(#[trigger] f.locals[i])
}

proof fn lemma_function(d: Seq<u8>, p: int, table: Seq<Seq<char>>, f: FunctionRecord)
    requires
        holds_at(d, p, function_chunk(table, f)),
        function_storable(f),
        table.len() <= i32::MAX,
        strings_in(table, f),
    ensures
        parse_function(d, p, table) == Some((f, p + function_chunk(table, f).len())),
{
    let dn = debug_name_ref(table, f.debug_name);
    let f0 = int_bytes(f.id);
    let f1 = int_bytes(f.index);
    let f2 = int_bytes(dn);
    let f3 = int_bytes(f.parameters.len() as i32);
    let f4 = ints_chunk(positions(table, f.parameters));
    let f5 = int_bytes(f.locals.len() as i32);
    let f6 = ints_chunk(positions(table, f.locals));
    let f7 = int_bytes(f.handlers.len() as i32);
    let f8 = handlers_chunk(f.handlers);
    let f9 = int_bytes(f.code.len() as i32);
    let f10 = f.code;
    let x3 = f0 + f1 + f2;
    let x4 = x3 + f3;
    let x5 = x4 + f4;
    let x6 = x5 + f5;
    let x7 = x6 + f6;
    let x8 = x7 + f7;
    let x9 = x8 + f8;
    let x10 = x9 + f9;
    assert(function_chunk(table, f) == x10 + f10);
    lemma_split(d, p, x10, f10);
    lemma_split(d, p, x9, f9);
    lemma_split(d, p, x8, f8);
    lemma_split(d, p, x7, f7);
    lemma_split(d, p, x6, f6);
    lemma_split(d, p, x5, f5);
    lemma_split(d, p, x4, f4);
    lemma_split(d, p, x3, f3);
    lemma_three(d, p, f.id, f.index, dn);
    let p1 = p + 12;
    lemma_int(d, p1, f.parameters.len() as i32);
    let p2 = p1 + 4;
    lemma_refs(d, p2, table, f.parameters);
    let p3 = p2 + f4.len();
    lemma_int(d, p3, f.locals.len() as i32);
    let p4 = p3 + 4;
    lemma_refs(d, p4, table, f.locals);
    let p5 = p4 + f6.len();
    lemma_int(d, p5, f.handlers.len() as i32);
    let p6 = p5 + 4;
    lemma_handlers(d, p6, f.handlers);
    let p7 = p6 + f8.len();
    lemma_int(d, p7, f.code.len() as i32);
    let p8 = p7 + 4;
    match f.debug_name {
        Some(n) => {
            lemma_position(table, n);
        },
        None => {},
    }
    assert(d.subrange(p8, p8 + f.code.len()) == f.code);
}

proof fn lemma_functions(d: Seq<u8>, p: int, table: Seq<Seq<char>>, fs: Seq<FunctionRecord>)
    requires
        holds_at(d, p, functions_chunk(table, fs)),
        table.len() <= i32::MAX,
        forall|i: int| 0 <= i < fs.len() ==> function_storable(#[trigger] fs[i]),
        forall|i: int| 0 <= i < fs.len() ==> strings_in(table, #[trigger] fs[i]),
    ensures
        parse_functions(d, p, fs.len(), table) == Some((fs, p + functions_chunk(table, fs).len())),
    decreases fs.len(),
{
    if fs.len() > 0 {
        let m = fs.map_values(|f: FunctionRecord| function_chunk(table, f));
        assert(m.drop_first() =~= fs.drop_first().map_values(|f: FunctionRecord| function_chunk(table, f)));
        lemma_flat_first(m);
        lemma_split(d, p, function_chunk(table, fs[0]), functions_chunk(table, fs.drop_first()));
        assert(function_storable(fs[0]));
        assert(strings_in(table, fs[0]));
        lemma_function(d, p, table, fs[0]);
        assert forall|i: int| 0 <= i < fs.drop_first().len() implies function_storable(#[trigger] fs.drop_first()[i])
            && strings_in(table, fs.drop_first()[i]) by {
            assert(fs.drop_first()[i] == fs[i + 1]);
        }
        lemma_functions(d, p + function_chunk(table, fs[0]).len(), table, fs.drop_first());
        assert(seq![fs[0]] + fs.drop_first() =~= fs);
    }
}

proof fn lemma_interned(table: Seq<Seq<char>>, items: Seq<Seq<char>>)
    ensures
        forall|s: Seq<char>| table.contains(s) ==> #[trigger] interned(table, items).contains(s),
        forall|i: int| 0 <= i < items.len() ==> interned(table, items).contains(#[trigger] items[i]),
    decreases items.len(),
{
    if items.len() > 0 {
        let t1 = intern_one(table, items[0]);
        lemma_interned(t1, items.drop_first());
        assert(interned(table, items) == interned(t1, items.drop_first()));
        assert forall|s: Seq<char>| table.contains(s) implies #[trigger] interned(table, items).contains(s) by {
            if !table.contains(items[0]) {
                let j = choose|j: int| 0 <= j < table.len() && table[j] == s;
                assert(t1[j] == s);
            }
        }
        assert(t1.contains(items[0])) by {
            if !table.contains(items[0]) {
                assert(t1[table.len() as int] == items[0]);
            }
        }
        assert forall|i: int| 0 <= i < items.len() implies interned(table, items).contains(#[trigger] items[i]) by {
            if i > 0 {
                assert(items.drop_first()[i - 1] == items[i]);
            }
        }
    }
}

proof fn lemma_flat_strings(lists: Seq<Seq<Seq<char>>>, i: int, j: int)
    requires
        0 <= i < lists.len(),
        0 <= j < lists[i].len(),
    ensures
        flat_strings(lists).contains(lists[i][j]),
    decreases lists.len(),
{
    if i == 0 {
        assert((lists[0] + flat_strings(lists.drop_first()))[j] == lists[0][j]);
    } else {
        lemma_flat_strings(lists.drop_first(), i - 1, j);
        let rest = flat_strings(lists.drop_first());
        let k = choose|k: int| 0 <= k < rest.len() && rest[k] == lists[i][j];
        assert((lists[0] + rest)[lists[0].len() + k] == rest[k]);
    }
}

/// Every string of a program is in its table.
proof fn lemma_record_table(r: ProgramRecord)
    ensures
        record_table(r).contains(r.name),
        forall|i: int| 0 <= i < r.strings.len() ==> record_table(r).contains(#[trigger] r.strings[i]),
        forall|i: int| 0 <= i < r.functions.len() ==> strings_in(record_table(r), #[trigger] r.functions[i]),
{
    reveal(record_table);
    let items = record_strings(r);
    let lists = r.functions.map_values(|f: FunctionRecord| function_strings(f));
    let tail = flat_strings(lists);
    lemma_interned(Seq::empty(), items);
    assert(items[0] == r.name);
    assert forall|i: int| 0 <= i < r.strings.len() implies record_table(r).contains(#[trigger] r.strings[i]) by {
        assert(items[1 + i] == r.strings[i]);
    }
    assert forall|i: int| 0 <= i < r.functions.len() implies strings_in(record_table(r), #[trigger] r.functions[i]) by {
        let f = r.functions[i];
        let fsx = function_strings(f);
        assert(lists[i] == fsx);
        let dl: int = match f.debug_name {
            Some(_) => 1,
            None => 0,
        };
        assert forall|j: int| 0 <= j < fsx.len() implies record_table(r).contains(#[trigger] fsx[j]) by {
            lemma_flat_strings(lists, i, j);
            let k = choose|k: int| 0 <= k < tail.len() && tail[k] == fsx[j];
            assert(items[1 + r.strings.len() + k] == tail[k]);
        }
        match f.debug_name {
            Some(n) => {
                assert(fsx[0] == n);
            },
            None => {},
        }
        assert forall|j: int| 0 <= j < f.parameters.len() implies record_table(r).contains(#[trigger] f.parameters[j]) by {
            assert(fsx[dl + j] == f.parameters[j]);
        }
        assert forall|j: int| 0 <= j < f.locals.len() implies record_table(r).contains(#[trigger] f.locals[j]) by {
            assert(fsx[dl + f.parameters.len() + j] == f.locals[j]);
        }
    }
}

/// A reader sees the loaded bytes at the start.
pub proof fn lemma_loaded(e: Seq<u8>)
    ensures
        holds_at(loaded(e), 0, e),
{
    reveal(loaded);
    let d = loaded(e);
    crate::streams::lemma_load_contents(8000, e);
    lemma_grown_len(0, 8000, e.len());
    assert(d.subrange(0, e.len() as int) =~= d.take(e.len() as int));
}

/// Where the parts of a stored program lie in what a reader sees.
proof fn lemma_layout(r: ProgramRecord)
    ensures
        ({
            let table = record_table(r);
            let d = loaded(encode(r));
            let c3 = strs_chunk(table);
            let c6 = ints_chunk(positions(table, r.strings));
            let c8 = ints_chunk(r.arities);
            let p2 = 12 + c3.len() as int;
            let p5 = p2 + 8 + c6.len() as int;
            let p7 = p5 + 4 + c8.len() as int;
            &&& holds_at(d, 0, magic())
            &&& holds_at(d, 4, int_bytes(VERSION))
            &&& holds_at(d, 8, int_bytes(table.len() as i32))
            &&& holds_at(d, 12, c3)
            &&& holds_at(d, p2, int_bytes(string_position(table, r.name) as i32))
            &&& holds_at(d, p2 + 4, int_bytes(r.strings.len() as i32))
            &&& holds_at(d, p2 + 8, c6)
            &&& holds_at(d, p5, int_bytes(r.arities.len() as i32))
            &&& holds_at(d, p5 + 4, c8)
            &&& holds_at(d, p7, int_bytes(r.functions.len() as i32))
            &&& holds_at(d, p7 + 4, functions_chunk(table, r.functions))
        }),
{
    let table = record_table(r);
    let e = encode(r);
    let d = loaded(e);
    lemma_loaded(e);
    let c0 = magic();
    let c1 = int_bytes(VERSION);
    let c2 = int_bytes(table.len() as i32);
    let c3 = strs_chunk(table);
    let c4 = int_bytes(string_position(table, r.name) as i32);
    let c5 = int_bytes(r.strings.len() as i32);
    let c6 = ints_chunk(positions(table, r.strings));
    let c7 = int_bytes(r.arities.len() as i32);
    let c8 = ints_chunk(r.arities);
    let c9 = int_bytes(r.functions.len() as i32);
    let c10 = functions_chunk(table, r.functions);
    let x2 = c0 + c1;
    let x3 = x2 + c2;
    let x4 = x3 + c3;
    let x5 = x4 + c4;
    let x6 = x5 + c5;
    let x7 = x6 + c6;
    let x8 = x7 + c7;
    let x9 = x8 + c8;
    let x10 = x9 + c9;
    assert(e == x10 + c10) by {
        reveal(encode);
    }
    lemma_split(d, 0, x10, c10);
    lemma_split(d, 0, x9, c9);
    lemma_split(d, 0, x8, c8);
    lemma_split(d, 0, x7, c7);
    lemma_split(d, 0, x6, c6);
    lemma_split(d, 0, x5, c5);
    lemma_split(d, 0, x4, c4);
    lemma_split(d, 0, x3, c3);
    lemma_split(d, 0, x2, c2);
    lemma_split(d, 0, c0, c1);
}

/// Reading what was stored gives the stored program back.
pub proof fn lemma_read_of_write(r: ProgramRecord)
    requires
        storable(r),
    ensures
        parse(loaded(encode(r))) == Ok::<ProgramRecord, ReadFailure>(r),
{
    let table = record_table(r);
    let d = loaded(encode(r));
    let c3 = strs_chunk(table);
    let c6 = ints_chunk(positions(table, r.strings));
    let c8 = ints_chunk(r.arities);
    let p2 = 12 + c3.len() as int;
    let p5 = p2 + 8 + c6.len() as int;
    let p7 = p5 + 4 + c8.len() as int;
    lemma_layout(r);
    lemma_record_table(r);
    lemma_int(d, 4, VERSION);
    lemma_int(d, 8, table.len() as i32);
    lemma_strs(d, 12, table);
    assert(parse_body(d, 8) == parse_named(d, p2, table));
    lemma_position(table, r.name);
    lemma_int(d, p2, string_position(table, r.name) as i32);
    assert(parse_named(d, p2, table) == parse_constants(d, p2 + 4, table, r.name));
    lemma_int(d, p2 + 4, r.strings.len() as i32);
    lemma_refs(d, p2 + 8, table, r.strings);
    assert(parse_constants(d, p2 + 4, table, r.name) == parse_natives(d, p5, table, r.name, r.strings));
    lemma_int(d, p5, r.arities.len() as i32);
    lemma_ints(d, p5 + 4, r.arities);
    lemma_int(d, p7, r.functions.len() as i32);
    lemma_functions(d, p7 + 4, table, r.functions);
    assert(parse_natives(d, p5, table, r.name, r.strings) == Some(r));
    assert(d.subrange(0, 4) == magic());
}


/// The bytecode a loaded function gets: a stream of blocks of 8000 bytes
/// holding `code`, positioned at 0.
pub open spec fn loaded_code(code: Seq<u8>) -> StreamView {
    StreamView {
        data: write_at(zeros(8000), 8000, 0, code),
        blocksize: 8000,
        size: code.len(),
        pointer: 0,
    }
}

/// The names in order of first occurrence, each once.
pub open spec fn dedup(s: Seq<Seq<char>>) -> Seq<Seq<char>>
    decreases s.len(),
{
    if s.len() == 0 {
        s
    } else {
        let d = dedup(s.drop_last());
        if d.contains(s.last()) {
            d
        } else {
            d.push(s.last())
        }
    }
}

/// The function a stored function loads as.
pub open spec fn function_view_of(f: FunctionRecord) -> FunctionView {
    FunctionView {
        bytecode: loaded_code(f.code),
        parameters: f.parameters,
        locals: dedup(f.locals),
        handlers: f.handlers,
        index: f.index,
        debug_name: f.debug_name,
    }
}

/// The functions by id after loading `fs` in order (a later function
/// replaces an earlier one with the same id).
pub open spec fn functions_of(fs: Seq<FunctionRecord>) -> Map<i32, FunctionView>
    decreases fs.len(),
{
    if fs.len() == 0 {
        Map::empty()
    } else {
        functions_of(fs.drop_last()).insert(fs.last().id, function_view_of(fs.last()))
    }
}

/// The id counter after loading `fs` in order: above every id.
pub open spec fn counter_of(fs: Seq<FunctionRecord>) -> i32
    decreases fs.len(),
{
    if fs.len() == 0 {
        0
    } else {
        let c = counter_of(fs.drop_last());
        if fs.last().id + 1 > c {
            (fs.last().id + 1) as i32
        } else {
            c
        }
    }
}

/// Whether `p` is the program loaded from `r`: a new program named after it
/// with its string constants, one native method per arity, and its
/// functions.
pub open spec fn program_loaded<N>(p: ProgramView<N>, r: ProgramRecord) -> bool {
    &&& p.name == r.name
    &&& p.strings == r.strings
    &&& p.natives.len() == r.arities.len()
    &&& p.functions == functions_of(r.functions)
    &&& p.counter == counter_of(r.functions)
    &&& p.types.len() == 3
    &&& is_builtin_type(p.types[0], TypeKind::Boolean, boolean_name(), |op| boolean_supports(op))
    &&& is_builtin_type(p.types[1], TypeKind::Undefined, undefined_name(), |op| undefined_supports(op))
    &&& is_builtin_type(p.types[2], TypeKind::Function, function_name(), |op| function_supports(op))
}

} // verus!
