//! Storing a program as bytes and loading it back.
use vstd::prelude::*;

use crate::program::format::{
    all_in_table, encode, flat, flat_strings, function_chunk, function_strings, functions_chunk,
    handler_chunk, handlers_chunk, intern_one, interned, ints_chunk, lookup, magic, parse_count,
    parse_function, parse_functions, parse_handlers, parse_ints, parse_refs, parse_strs, positions,
    count_of, counter_of, dedup, function_view_of, functions_of, loaded, loaded_code, parse,
    parse_body, storable,
    program_loaded,
    record_strings, record_table, str_chunk, strs_chunk, FunctionRecord, ProgramRecord, ReadFailure,
    VERSION,
};
use crate::streams::{lemma_grown_len, RandomAccessByteStream, StreamView};
use crate::text::{concat, int_text, int_to_string, owned};
use crate::vm::instruction::{read_int_operand, read_string_operand};
use crate::program::function::{names, FunctionView, GvmFunction, HandlerView};
use crate::program::program::{is_builtin_type, is_sorted_keys, string_position, GvmProgram, ProgramView};
use crate::vm::types::{
    boolean_name, boolean_supports, function_name, function_supports, undefined_name,
    undefined_supports, TypeKind,
};
use crate::streams::int_bytes;
use crate::streams::string_body;
use crate::vm::runtime::Runtime;

verus! {

/// A function as it is stored: its bytecode as the bytes written so far.
pub open spec fn function_record(id: i32, f: FunctionView) -> FunctionRecord {
    FunctionRecord {
        id,
        index: f.index,
        debug_name: f.debug_name,
        parameters: f.parameters,
        locals: f.locals,
        handlers: f.handlers,
        code: f.bytecode.contents(),
    }
}

/// A program as it is stored, with its functions in the order of `ids`
/// and the given argument counts of its native methods.
pub open spec fn program_record<N>(p: ProgramView<N>, ids: Seq<i32>, arities: Seq<i32>) -> ProgramRecord {
    ProgramRecord {
        name: p.name,
        strings: p.strings,
        arities,
        functions: ids.map_values(|id: i32| function_record(id, p.functions[id])),
    }
}

proof fn lemma_flat_push(chunks: Seq<Seq<u8>>, c: Seq<u8>)
    ensures
        flat(chunks.push(c)) == flat(chunks) + c,
    decreases chunks.len(),
{
    if chunks.len() == 0 {
        assert(flat(chunks.push(c)) == c + flat(chunks.push(c).drop_first()));
        assert(chunks.push(c).drop_first() =~= Seq::<Seq<u8>>::empty());
        assert(c + Seq::<u8>::empty() =~= c);
        assert(Seq::<u8>::empty() + c =~= c);
    } else {
        assert(chunks.push(c).drop_first() =~= chunks.drop_first().push(c));
        lemma_flat_push(chunks.drop_first(), c);
        assert(flat(chunks.push(c)) =~= chunks[0] + (flat(chunks.drop_first()) + c));
    }
}

proof fn lemma_flat_strings_push(lists: Seq<Seq<Seq<char>>>, l: Seq<Seq<char>>)
    ensures
        flat_strings(lists.push(l)) == flat_strings(lists) + l,
    decreases lists.len(),
{
    if lists.len() == 0 {
        assert(lists.push(l).drop_first() =~= Seq::<Seq<Seq<char>>>::empty());
        assert(flat_strings(lists.push(l).drop_first()) == Seq::<Seq<char>>::empty());
        assert(flat_strings(lists.push(l)) == lists.push(l)[0] + flat_strings(lists.push(l).drop_first()));
        assert(lists.push(l)[0] == l);
        assert(l + Seq::<Seq<char>>::empty() =~= l);
        assert(flat_strings(lists) == Seq::<Seq<char>>::empty());
        assert(Seq::<Seq<char>>::empty() + l =~= l);
    } else {
        assert(lists.push(l).drop_first() =~= lists.drop_first().push(l));
        lemma_flat_strings_push(lists.drop_first(), l);
        assert(flat_strings(lists.push(l)) =~= lists[0] + (flat_strings(lists.drop_first()) + l));
    }
}

proof fn lemma_ints_step(vs: Seq<i32>, k: int)
    requires
        0 <= k < vs.len(),
    ensures
        ints_chunk(vs.take(k + 1)) == ints_chunk(vs.take(k)) + int_bytes(vs[k]),
{
    let f = |v: i32| int_bytes(v);
    assert(vs.take(k + 1).map_values(f) =~= vs.take(k).map_values(f).push(int_bytes(vs[k])));
    lemma_flat_push(vs.take(k).map_values(f), int_bytes(vs[k]));
}

proof fn lemma_strs_step(ss: Seq<Seq<char>>, k: int)
    requires
        0 <= k < ss.len(),
    ensures
        strs_chunk(ss.take(k + 1)) == strs_chunk(ss.take(k)) + str_chunk(ss[k]),
{
    let f = |s: Seq<char>| str_chunk(s);
    assert(ss.take(k + 1).map_values(f) =~= ss.take(k).map_values(f).push(str_chunk(ss[k])));
    lemma_flat_push(ss.take(k).map_values(f), str_chunk(ss[k]));
}

proof fn lemma_handlers_step(hs: Seq<HandlerView>, k: int)
    requires
        0 <= k < hs.len(),
    ensures
        handlers_chunk(hs.take(k + 1)) == handlers_chunk(hs.take(k)) + handler_chunk(hs[k]),
{
    let f = |h: HandlerView| handler_chunk(h);
    assert(hs.take(k + 1).map_values(f) =~= hs.take(k).map_values(f).push(handler_chunk(hs[k])));
    lemma_flat_push(hs.take(k).map_values(f), handler_chunk(hs[k]));
}

proof fn lemma_functions_step(table: Seq<Seq<char>>, fs: Seq<FunctionRecord>, k: int)
    requires
        0 <= k < fs.len(),
    ensures
        functions_chunk(table, fs.take(k + 1)) == functions_chunk(table, fs.take(k)) + function_chunk(
            table,
            fs[k],
        ),
{
    let f = |x: FunctionRecord| function_chunk(table, x);
    assert(fs.take(k + 1).map_values(f) =~= fs.take(k).map_values(f).push(function_chunk(table, fs[k])));
    lemma_flat_push(fs.take(k).map_values(f), function_chunk(table, fs[k]));
}

/// Appends the four bytes of `v`.
fn push_int(out: &mut Vec<u8>, v: i32)
    ensures
        final(out)@ == old(out)@ + int_bytes(v),
{
    let u = v as u32;
    out.push((u & 0xff) as u8);
    out.push(((u >> 8) & 0xff) as u8);
    out.push(((u >> 16) & 0xff) as u8);
    out.push(((u >> 24) & 0xff) as u8);
    assert(final(out)@ =~= old(out)@ + int_bytes(v));
}

/// Appends `bytes`.
fn push_bytes(out: &mut Vec<u8>, bytes: &[u8])
    ensures
        final(out)@ == old(out)@ + bytes@,
{
    let mut k: usize = 0;
    while k < bytes.len()
        invariant
            k <= bytes@.len(),
            out@ == old(out)@ + bytes@.take(k as int),
        decreases bytes@.len() - k,
    {
        out.push(bytes[k]);
        k = k + 1;
        assert(out@ =~= old(out)@ + bytes@.take(k as int));
    }
    assert(bytes@.take(k as int) =~= bytes@);
}

/// Appends a string: its byte length, then its bytes.
fn push_str(out: &mut Vec<u8>, s: &str)
    ensures
        final(out)@ == old(out)@ + str_chunk(s@),
{
    let body = string_body(s);
    push_int(out, body.len() as i32);
    push_bytes(out, body.as_slice());
}

/// The first position of `s` among `v`, if any.
fn find_in(v: &Vec<String>, s: &str) -> (r: Option<usize>)
    ensures
        match r {
            Some(k) => names(v@).contains(s@) && k as int == string_position(names(v@), s@),
            None => !names(v@).contains(s@),
        },
{
    let ghost t = names(v@);
    let target = s.to_string();
    let mut k: usize = 0;
    while k < v.len()
        invariant
            k <= v@.len(),
            t == names(v@),
            target@ == s@,
            forall|j: int| 0 <= j < k ==> t[j] != s@,
        decreases v@.len() - k,
    {
        if v[k] == target {
            proof {
                assert(t[k as int] == s@);
                assert(t.contains(s@));
                t.index_of_first_ensures(s@);
                let i = t.index_of_first(s@).unwrap();
                if i < k {
                    assert(t[i] == s@);
                }
                if k < i {
                    assert(t[k as int] == s@);
                }
            }
            return Some(k);
        }
        k = k + 1;
    }
    proof {
        if t.contains(s@) {
            let j = choose|j: int| 0 <= j < t.len() && t[j] == s@;
            assert(t[j] != s@);
        }
    }
    None
}

/// The position of `s` among `v`, or -1.
fn position_in(v: &Vec<String>, s: &str) -> (r: i32)
    ensures
        r == string_position(names(v@), s@) as i32,
{
    match find_in(v, s) {
        Some(k) => k as i32,
        None => -1,
    }
}

/// Adds `s` to the table unless it is there.
fn intern(table: &mut Vec<String>, s: &str)
    ensures
        names(final(table)@) == intern_one(names(old(table)@), s@),
{
    if find_in(table, s).is_none() {
        let ghost before = names(table@);
        let owned = s.to_string();
        table.push(owned);
        assert(names(table@) =~= before.push(s@));
    }
}

/// Every string of `f`, in the order they enter the table.
fn push_function_strings(items: &mut Vec<String>, f: &GvmFunction)
    ensures
        names(final(items)@) == names(old(items)@) + function_strings(function_record(0, f@)),
{
    let ghost start = names(items@);
    match f.debug_name() {
        Some(n) => {
            let owned = n.to_string();
            items.push(owned);
        },
        None => {},
    }
    let ghost dn: Seq<Seq<char>> = match f@.debug_name {
        Some(n) => seq![n],
        None => Seq::empty(),
    };
    assert(names(items@) =~= start + dn);
    let params = f.parameters();
    let mut k: usize = 0;
    while k < params.len()
        invariant
            k <= params@.len(),
            names(params@) == f@.parameters,
            names(items@) == start + dn + f@.parameters.take(k as int),
        decreases params@.len() - k,
    {
        let ghost before = names(items@);
        assert(names(params@)[k as int] == params@[k as int]@);
        let x = params[k].clone();
        items.push(x);
        assert(names(items@) =~= before.push(f@.parameters[k as int]));
        k = k + 1;
        assert(names(items@) =~= start + dn + f@.parameters.take(k as int));
    }
    assert(f@.parameters.take(k as int) =~= f@.parameters);
    let locals = f.locals();
    let mut k: usize = 0;
    while k < locals.len()
        invariant
            k <= locals@.len(),
            names(locals@) == f@.locals,
            names(items@) == start + dn + f@.parameters + f@.locals.take(k as int),
        decreases locals@.len() - k,
    {
        let ghost before = names(items@);
        assert(names(locals@)[k as int] == locals@[k as int]@);
        let x = locals[k].clone();
        items.push(x);
        assert(names(items@) =~= before.push(f@.locals[k as int]));
        k = k + 1;
        assert(names(items@) =~= start + dn + f@.parameters + f@.locals.take(k as int));
    }
    assert(f@.locals.take(k as int) =~= f@.locals);
    assert(names(items@) =~= start + function_strings(function_record(0, f@)));
}

/// Appends the table positions of `list`.
fn push_refs(out: &mut Vec<u8>, table: &Vec<String>, list: &[String])
    ensures
        final(out)@ == old(out)@ + ints_chunk(positions(names(table@), names(list@))),
{
    let ghost t = names(table@);
    let ghost l = names(list@);
    let mut k: usize = 0;
    while k < list.len()
        invariant
            k <= list@.len(),
            l == names(list@),
            t == names(table@),
            out@ == old(out)@ + ints_chunk(positions(t, l).take(k as int)),
        decreases list@.len() - k,
    {
        assert(l[k as int] == list@[k as int]@);
        let p = position_in(table, list[k].as_str());
        proof {
            lemma_ints_step(positions(t, l), k as int);
        }
        push_int(out, p);
        k = k + 1;
    }
    assert(positions(t, l).take(k as int) =~= positions(t, l));
}

/// Appends catch blocks given as `[start, end, target]`.
fn push_handlers(out: &mut Vec<u8>, handlers: &Vec<[i32; 3]>, hs: Ghost<Seq<HandlerView>>)
    requires
        handlers@.len() == hs@.len(),
        forall|j: int| 0 <= j < handlers@.len() ==> #[trigger] handlers@[j]@ == seq![hs@[j].0, hs@[j].1, hs@[j].2],
    ensures
        final(out)@ == old(out)@ + handlers_chunk(hs@),
{
    let mut k: usize = 0;
    while k < handlers.len()
        invariant
            k <= handlers@.len(),
            handlers@.len() == hs@.len(),
            forall|j: int| 0 <= j < handlers@.len() ==> #[trigger] handlers@[j]@ == seq![hs@[j].0, hs@[j].1, hs@[j].2],
            out@ == old(out)@ + handlers_chunk(hs@.take(k as int)),
        decreases handlers@.len() - k,
    {
        let h = handlers[k];
        assert(h@ == seq![hs@[k as int].0, hs@[k as int].1, hs@[k as int].2]);
        proof {
            lemma_handlers_step(hs@, k as int);
        }
        push_int(out, h[0]);
        push_int(out, h[1]);
        push_int(out, h[2]);
        k = k + 1;
    }
    assert(hs@.take(k as int) =~= hs@);
}

/// Appends the stored form of function `f` with id `id`, given the table.
fn push_function(out: &mut Vec<u8>, table: &Vec<String>, id: i32, f: &GvmFunction)
    requires
        f.wf(),
    ensures
        final(out)@ == old(out)@ + function_chunk(names(table@), function_record(id, f@)),
{
    let ghost t = names(table@);
    let ghost r = function_record(id, f@);
    push_int(out, id);
    push_int(out, f.index());
    let dn = match f.debug_name() {
        Some(n) => position_in(table, n),
        None => -1,
    };
    push_int(out, dn);
    let params = f.parameters();
    push_int(out, params.len() as i32);
    push_refs(out, table, params);
    let locals = f.locals();
    push_int(out, locals.len() as i32);
    push_refs(out, table, locals);
    let handlers = f.get_exception_handlers();
    push_int(out, handlers.len() as i32);
    push_handlers(out, &handlers, Ghost(f@.handlers));
    let code = f.bytecode().contents();
    push_int(out, code.len() as i32);
    push_bytes(out, code.as_slice());
    proof {
        match f@.debug_name {
            Some(n) => {},
            None => {},
        }
    }
}

/// Stores programs as bytes and loads them back.
pub struct GvmProgramSerializer;

impl GvmProgramSerializer {
    /// The stored form of `program`, with `arities` as the argument counts of
    /// its native methods and its functions in increasing order of id.
    pub fn encode_program<N>(program: &GvmProgram<N>, arities: &[i32]) -> (r: Vec<u8>)
        requires
            program.wf(),
        ensures
            exists|ids: Seq<i32>|
                is_sorted_keys(ids, program@.functions.dom()) && r@ == encode(
                    program_record(program@, ids, arities@),
                ),
    {
        let ids = program.function_ids();
        let ghost p = program@;
        let ghost rec = program_record(p, ids@, arities@);
        let ghost lists = rec.functions.map_values(|f: FunctionRecord| function_strings(f));
        // Every string, in the order the table takes them.
        let mut items: Vec<String> = Vec::new();
        let owned_name = program.name().to_string();
        items.push(owned_name);
        assert(names(items@) =~= seq![p.name]);
        let strings = program.string_constants();
        let mut k: usize = 0;
        while k < strings.len()
            invariant
                k <= strings@.len(),
                strings@.map_values(|s: String| s@) == p.strings,
                names(items@) == seq![p.name] + p.strings.take(k as int),
            decreases strings@.len() - k,
        {
            let ghost before = names(items@);
            assert(strings@.map_values(|s: String| s@)[k as int] == strings@[k as int]@);
            let x = strings[k].clone();
            items.push(x);
            assert(names(items@) =~= before.push(p.strings[k as int]));
            k = k + 1;
            assert(names(items@) =~= seq![p.name] + p.strings.take(k as int));
        }
        assert(p.strings.take(k as int) =~= p.strings);
        assert(lists.take(0) =~= Seq::<Seq<Seq<char>>>::empty());
        assert(names(items@) =~= seq![p.name] + p.strings + flat_strings(lists.take(0)));
        let mut j: usize = 0;
        while j < ids.len()
            invariant
                j <= ids@.len(),
                p == program@,
                program.wf(),
                is_sorted_keys(ids@, p.functions.dom()),
                rec == program_record(p, ids@, arities@),
                lists == rec.functions.map_values(|f: FunctionRecord| function_strings(f)),
                names(items@) == seq![p.name] + p.strings + flat_strings(lists.take(j as int)),
            decreases ids@.len() - j,
        {
            let id = ids[j];
            assert(ids@.contains(id));
            let f = program.get_function(id).unwrap();
            push_function_strings(&mut items, f);
            proof {
                assert(lists.take(j + 1) =~= lists.take(j as int).push(lists[j as int]));
                lemma_flat_strings_push(lists.take(j as int), lists[j as int]);
                assert(function_strings(function_record(0, f@)) == lists[j as int]);
            }
            j = j + 1;
        }
        assert(lists.take(j as int) =~= lists);
        assert(names(items@) == record_strings(rec));
        // The table.
        let mut table: Vec<String> = Vec::new();
        assert(names(table@) =~= Seq::<Seq<char>>::empty());
        assert(names(items@).skip(0) =~= names(items@));
        let mut k: usize = 0;
        while k < items.len()
            invariant
                k <= items@.len(),
                interned(names(table@), names(items@).skip(k as int)) == interned(
                    Seq::empty(),
                    names(items@),
                ),
            decreases items@.len() - k,
        {
            let ghost rest = names(items@).skip(k as int);
            let ghost before = names(table@);
            intern(&mut table, items[k].as_str());
            assert(rest.drop_first() =~= names(items@).skip(k + 1));
            assert(interned(before, rest) == interned(intern_one(before, rest[0]), rest.drop_first()));
            k = k + 1;
        }
        assert(names(items@).skip(k as int) =~= Seq::<Seq<char>>::empty());
        let ghost t = names(table@);
        assert(t == record_table(rec)) by {
            reveal(record_table);
        }
        // The bytes.
        let mut out: Vec<u8> = Vec::new();
        out.push(0x47u8);
        out.push(0x53u8);
        out.push(0x56u8);
        out.push(0x4Du8);
        assert(out@ =~= magic());
        push_int(&mut out, VERSION);
        push_int(&mut out, table.len() as i32);
        let ghost mid = out@;
        let mut k: usize = 0;
        while k < table.len()
            invariant
                k <= table@.len(),
                t == names(table@),
                out@ == mid + strs_chunk(t.take(k as int)),
            decreases table@.len() - k,
        {
            proof {
                lemma_strs_step(t, k as int);
            }
            push_str(&mut out, table[k].as_str());
            k = k + 1;
        }
        assert(t.take(k as int) =~= t);
        push_int(&mut out, position_in(&table, program.name()));
        push_int(&mut out, strings.len() as i32);
        let ghost mid = out@;
        let mut k: usize = 0;
        while k < strings.len()
            invariant
                k <= strings@.len(),
                strings@.map_values(|s: String| s@) == p.strings,
                t == names(table@),
                out@ == mid + ints_chunk(positions(t, p.strings).take(k as int)),
            decreases strings@.len() - k,
        {
            let pos = position_in(&table, strings[k].as_str());
            proof {
                lemma_ints_step(positions(t, p.strings), k as int);
            }
            push_int(&mut out, pos);
            k = k + 1;
        }
        assert(positions(t, p.strings).take(k as int) =~= positions(t, p.strings));
        push_int(&mut out, arities.len() as i32);
        let ghost mid = out@;
        let mut k: usize = 0;
        while k < arities.len()
            invariant
                k <= arities@.len(),
                out@ == mid + ints_chunk(arities@.take(k as int)),
            decreases arities@.len() - k,
        {
            proof {
                lemma_ints_step(arities@, k as int);
            }
            push_int(&mut out, arities[k]);
            k = k + 1;
        }
        assert(arities@.take(k as int) =~= arities@);
        push_int(&mut out, ids.len() as i32);
        let ghost mid = out@;
        let mut j: usize = 0;
        while j < ids.len()
            invariant
                j <= ids@.len(),
                p == program@,
                program.wf(),
                is_sorted_keys(ids@, p.functions.dom()),
                rec == program_record(p, ids@, arities@),
                t == names(table@),
                out@ == mid + functions_chunk(t, rec.functions.take(j as int)),
            decreases ids@.len() - j,
        {
            let id = ids[j];
            assert(ids@.contains(id));
            let f = program.get_function(id).unwrap();
            proof {
                lemma_functions_step(t, rec.functions, j as int);
                assert(rec.functions[j as int] == function_record(id, f@));
            }
            push_function(&mut out, &table, id, f);
            j = j + 1;
        }
        assert(rec.functions.take(j as int) =~= rec.functions);
        assert(out@ == encode(rec)) by {
            reveal(encode);
        }
        out
    }

    /// The stored form of `program`, with the argument count of each native
    /// method as the runtime reports it.
    pub fn write_to<R: Runtime>(program: &GvmProgram<R::Native>, runtime: &R) -> (r: Vec<u8>)
        requires
            program.wf(),
        ensures
            exists|ids: Seq<i32>, arities: Seq<i32>|
                {
                    &&& is_sorted_keys(ids, program@.functions.dom())
                    &&& arities.len() == program@.natives.len()
                    &&& forall|k: int|
                        0 <= k < arities.len() ==> call_ensures(
                            R::argument_count,
                            (runtime, &program@.natives[k]),
                            #[trigger] arities[k],
                        )
                    &&& r@ == encode(program_record(program@, ids, arities))
                },
    {
        let natives = program.native_wrappers();
        let mut arities: Vec<i32> = Vec::new();
        let mut k: usize = 0;
        while k < natives.len()
            invariant
                k <= natives@.len(),
                natives@ == program@.natives,
                arities@.len() == k,
                forall|j: int|
                    0 <= j < k ==> call_ensures(R::argument_count, (runtime, &natives@[j]), #[trigger] arities@[j]),
            decreases natives@.len() - k,
        {
            arities.push(runtime.argument_count(&natives[k]));
            k = k + 1;
        }
        Self::encode_program(program, arities.as_slice())
    }
}


/// Why bytes could not be read as a program.
#[derive(Debug)]
pub enum ReadError {
    /// The first four bytes are not `GSVM`.
    InvalidMagic,
    /// The format version is not the one this library reads.
    UnsupportedVersion(i32),
    /// The bytes end early, a count is negative, or a string index lies
    /// outside the string table.
    Malformed,
}

impl ReadError {
    /// The reason in the terms of the format.
    pub open spec fn failure(&self) -> ReadFailure {
        match self {
            ReadError::InvalidMagic => ReadFailure::Magic,
            ReadError::UnsupportedVersion(v) => ReadFailure::Version(*v),
            ReadError::Malformed => ReadFailure::Malformed,
        }
    }

    /// A description of the error.
    pub fn message(&self) -> (r: String)
        ensures
            self is InvalidMagic ==> r@ == "Invalid magic: expected GSVM"@,
            self matches ReadError::UnsupportedVersion(v) ==> r@ == "Unsupported version: "@
                + int_text(v as int) + " (expected 2)"@,
            self is Malformed ==> r@ == "Malformed program"@,
    {
        match self {
            ReadError::InvalidMagic => owned("Invalid magic: expected GSVM"),
            ReadError::UnsupportedVersion(v) => {
                let a = concat("Unsupported version: ", int_to_string(*v).as_str());
                concat(a.as_str(), " (expected 2)")
            },
            ReadError::Malformed => owned("Malformed program"),
        }
    }
}

/// Makes the native method for an argument count when a program is loaded.
pub trait NativeMethodFactory {
    /// The native methods made.
    type Native;

    /// A native method that takes `argument_count` arguments.
    fn create(&self, argument_count: i32) -> Self::Native;
}

/// A function as read, before it is made.
struct FunctionData {
    id: i32,
    index: i32,
    debug_name: Option<String>,
    parameters: Vec<String>,
    locals: Vec<String>,
    handlers: Vec<(i32, i32, i32)>,
    code: Vec<u8>,
}

impl View for FunctionData {
    type V = FunctionRecord;

    closed spec fn view(&self) -> FunctionRecord {
        FunctionRecord {
            id: self.id,
            index: self.index,
            debug_name: match self.debug_name {
                Some(n) => Some(n@),
                None => None,
            },
            parameters: names(self.parameters@),
            locals: names(self.locals@),
            handlers: self.handlers@,
            code: self.code@,
        }
    }
}

/// A program as read, before it is made.
struct ProgramData {
    name: String,
    strings: Vec<String>,
    arities: Vec<i32>,
    functions: Vec<FunctionData>,
}

impl View for ProgramData {
    type V = ProgramRecord;

    closed spec fn view(&self) -> ProgramRecord {
        ProgramRecord {
            name: self.name@,
            strings: names(self.strings@),
            arities: self.arities@,
            functions: self.functions@.map_values(|f: FunctionData| f@),
        }
    }
}

/// The reader did not change the data it reads.
pub open spec fn same_data(a: StreamView, b: StreamView) -> bool {
    &&& a.data == b.data
    &&& a.size == b.size
    &&& a.blocksize == b.blocksize
}

fn read_ints(raw: &mut RandomAccessByteStream, n: usize) -> (r: Option<Vec<i32>>)
    requires
        old(raw).wf(),
    ensures
        final(raw).wf(),
        same_data(final(raw)@, old(raw)@),
        match parse_ints(old(raw)@.data, old(raw)@.pointer as int, n as nat) {
            Some((vs, q)) => r is Some && r.unwrap()@ == vs && final(raw)@.pointer == q,
            None => r is None,
        },
        r matches Some(vs) ==> vs@.len() == n,
{
    let ghost d = raw@.data;
    let ghost p0 = raw@.pointer as int;
    let mut vs: Vec<i32> = Vec::new();
    let mut k: usize = 0;
    proof {
        match parse_ints(d, p0, n as nat) {
            Some((rest, q)) => {
                assert(vs@ + rest =~= rest);
            },
            None => {},
        }
    }
    while k < n
        invariant
            k <= n,
            raw.wf(),
            same_data(raw@, old(raw)@),
            d == old(raw)@.data,
            p0 == old(raw)@.pointer as int,
            parse_ints(d, p0, n as nat) == match parse_ints(d, raw@.pointer as int, (n - k) as nat) {
                Some((rest, q)) => Some((vs@ + rest, q)),
                None => None,
            },
            vs@.len() == k,
        decreases n - k,
    {
        let ghost pk = raw@.pointer as int;
        match read_int_operand(raw) {
            None => {
                assert(parse_ints(d, pk, (n - k) as nat) is None);
                return None;
            },
            Some(v) => {
                let ghost before = vs@;
                vs.push(v);
                proof {
                    match parse_ints(d, raw@.pointer as int, (n - k - 1) as nat) {
                        Some((rest, q)) => {
                            assert(vs@ + rest =~= before + (seq![v] + rest));
                        },
                        None => {},
                    }
                }
            },
        }
        k = k + 1;
    }
    proof {
        assert(vs@ + Seq::<i32>::empty() =~= vs@);
    }
    Some(vs)
}

fn read_strs(raw: &mut RandomAccessByteStream, n: usize) -> (r: Option<Vec<String>>)
    requires
        old(raw).wf(),
    ensures
        final(raw).wf(),
        same_data(final(raw)@, old(raw)@),
        match parse_strs(old(raw)@.data, old(raw)@.pointer as int, n as nat) {
            Some((ss, q)) => r is Some && names(r.unwrap()@) == ss && final(raw)@.pointer == q,
            None => r is None,
        },
{
    let ghost d = raw@.data;
    let ghost p0 = raw@.pointer as int;
    let mut ss: Vec<String> = Vec::new();
    let mut k: usize = 0;
    proof {
        match parse_strs(d, p0, n as nat) {
            Some((rest, q)) => {
                assert(names(ss@) + rest =~= rest);
            },
            None => {},
        }
    }
    while k < n
        invariant
            k <= n,
            raw.wf(),
            same_data(raw@, old(raw)@),
            d == old(raw)@.data,
            p0 == old(raw)@.pointer as int,
            parse_strs(d, p0, n as nat) == match parse_strs(d, raw@.pointer as int, (n - k) as nat) {
                Some((rest, q)) => Some((names(ss@) + rest, q)),
                None => None,
            },
        decreases n - k,
    {
        let ghost pk = raw@.pointer as int;
        match read_string_operand(raw) {
            None => {
                assert(parse_strs(d, pk, (n - k) as nat) is None);
                return None;
            },
            Some(v) => {
                let ghost before = names(ss@);
                ss.push(v);
                proof {
                    assert(names(ss@) =~= before.push(v@));
                    match parse_strs(d, raw@.pointer as int, (n - k - 1) as nat) {
                        Some((rest, q)) => {
                            assert(names(ss@) + rest =~= before + (seq![v@] + rest));
                        },
                        None => {},
                    }
                }
            },
        }
        k = k + 1;
    }
    proof {
        assert(names(ss@) + Seq::<Seq<char>>::empty() =~= names(ss@));
    }
    Some(ss)
}

fn read_count(raw: &mut RandomAccessByteStream) -> (r: Option<usize>)
    requires
        old(raw).wf(),
    ensures
        final(raw).wf(),
        same_data(final(raw)@, old(raw)@),
        match parse_count(old(raw)@.data, old(raw)@.pointer as int) {
            Some((n, q)) => r == Some(n as usize) && final(raw)@.pointer == q,
            None => r is None,
        },
{
    match read_int_operand(raw) {
        Some(n) => if n >= 0 {
            Some(n as usize)
        } else {
            None
        },
        None => None,
    }
}

fn read_refs(raw: &mut RandomAccessByteStream, n: usize, table: &Vec<String>) -> (r: Option<Vec<String>>)
    requires
        old(raw).wf(),
    ensures
        final(raw).wf(),
        same_data(final(raw)@, old(raw)@),
        match parse_refs(old(raw)@.data, old(raw)@.pointer as int, n as nat, names(table@)) {
            Some((ss, q)) => r is Some && names(r.unwrap()@) == ss && final(raw)@.pointer == q,
            None => r is None,
        },
{
    let ghost t = names(table@);
    let vs = match read_ints(raw, n) {
        Some(vs) => vs,
        None => return None,
    };
    let ghost mid = raw@;
    let mut out: Vec<String> = Vec::new();
    let mut k: usize = 0;
    while k < vs.len()
        invariant
            k <= vs@.len(),
            raw@ == mid,
            raw.wf(),
            same_data(raw@, old(raw)@),
            t == names(table@),
            parse_ints(old(raw)@.data, old(raw)@.pointer as int, n as nat) == Some((vs@, raw@.pointer as int)),
            forall|j: int| 0 <= j < k ==> 0 <= #[trigger] vs@[j] < t.len(),
            names(out@) == lookup(t, vs@.take(k as int)),
        decreases vs@.len() - k,
    {
        let v = vs[k];
        if v < 0 || (v as usize) >= table.len() {
            proof {
                assert(!all_in_table(t, vs@));
            }
            return None;
        }
        let ghost before = names(out@);
        assert(t[v as int] == table@[v as int]@);
        let x = table[v as usize].clone();
        out.push(x);
        assert(vs@.take(k + 1) =~= vs@.take(k as int).push(v));
        assert(lookup(t, vs@.take(k + 1)) =~= lookup(t, vs@.take(k as int)).push(t[v as int]));
        assert(names(out@) =~= before.push(t[v as int]));
        k = k + 1;
    }
    assert(vs@.take(k as int) =~= vs@);
    Some(out)
}

fn read_handlers(raw: &mut RandomAccessByteStream, n: usize) -> (r: Option<Vec<(i32, i32, i32)>>)
    requires
        old(raw).wf(),
    ensures
        final(raw).wf(),
        same_data(final(raw)@, old(raw)@),
        match parse_handlers(old(raw)@.data, old(raw)@.pointer as int, n as nat) {
            Some((hs, q)) => r is Some && r.unwrap()@ == hs && final(raw)@.pointer == q,
            None => r is None,
        },
{
    let ghost d = raw@.data;
    let ghost p0 = raw@.pointer as int;
    let mut hs: Vec<(i32, i32, i32)> = Vec::new();
    let mut k: usize = 0;
    proof {
        match parse_handlers(d, p0, n as nat) {
            Some((rest, q)) => {
                assert(hs@ + rest =~= rest);
            },
            None => {},
        }
    }
    while k < n
        invariant
            k <= n,
            raw.wf(),
            same_data(raw@, old(raw)@),
            d == old(raw)@.data,
            p0 == old(raw)@.pointer as int,
            parse_handlers(d, p0, n as nat) == match parse_handlers(d, raw@.pointer as int, (n - k) as nat) {
                Some((rest, q)) => Some((hs@ + rest, q)),
                None => None,
            },
        decreases n - k,
    {
        let ghost pk = raw@.pointer as int;
        match read_ints(raw, 3) {
            None => {
                assert(parse_handlers(d, pk, (n - k) as nat) is None);
                return None;
            },
            Some(v) => {
                let h = (v[0], v[1], v[2]);
                let ghost before = hs@;
                hs.push(h);
                proof {
                    match parse_handlers(d, raw@.pointer as int, (n - k - 1) as nat) {
                        Some((rest, q)) => {
                            assert(hs@ + rest =~= before + (seq![h] + rest));
                        },
                        None => {},
                    }
                }
            },
        }
        k = k + 1;
    }
    proof {
        assert(hs@ + Seq::<(i32, i32, i32)>::empty() =~= hs@);
    }
    Some(hs)
}

fn read_function(raw: &mut RandomAccessByteStream, table: &Vec<String>) -> (r: Option<FunctionData>)
    requires
        old(raw).wf(),
    ensures
        final(raw).wf(),
        same_data(final(raw)@, old(raw)@),
        match parse_function(old(raw)@.data, old(raw)@.pointer as int, names(table@)) {
            Some((f, q)) => r is Some && r.unwrap()@ == f && final(raw)@.pointer == q,
            None => r is None,
        },
        r matches Some(f) ==> f@.code.len() <= old(raw)@.data.len() && f@.id != i32::MAX,
{
    let ghost t = names(table@);
    let head = match read_ints(raw, 3) {
        Some(h) => h,
        None => return None,
    };
    let id = head[0];
    let index = head[1];
    let dn = head[2];
    if id == 2147483647i32 || (dn >= 0 && (dn as usize) >= table.len()) {
        return None;
    }
    let debug_name = if dn >= 0 {
        Some(table[dn as usize].clone())
    } else {
        None
    };
    let pc = match read_count(raw) {
        Some(n) => n,
        None => return None,
    };
    let parameters = match read_refs(raw, pc, table) {
        Some(v) => v,
        None => return None,
    };
    let lc = match read_count(raw) {
        Some(n) => n,
        None => return None,
    };
    let locals = match read_refs(raw, lc, table) {
        Some(v) => v,
        None => return None,
    };
    let hc = match read_count(raw) {
        Some(n) => n,
        None => return None,
    };
    let handlers = match read_handlers(raw, hc) {
        Some(v) => v,
        None => return None,
    };
    let bc = match read_count(raw) {
        Some(n) => n,
        None => return None,
    };
    if raw.readable() < bc {
        return None;
    }
    let code = raw.read_bytes(bc);
    Some(FunctionData { id, index, debug_name, parameters, locals, handlers, code })
}

fn read_functions(raw: &mut RandomAccessByteStream, n: usize, table: &Vec<String>) -> (r: Option<Vec<FunctionData>>)
    requires
        old(raw).wf(),
    ensures
        final(raw).wf(),
        same_data(final(raw)@, old(raw)@),
        match parse_functions(old(raw)@.data, old(raw)@.pointer as int, n as nat, names(table@)) {
            Some((fs, q)) => r is Some && r.unwrap()@.map_values(|f: FunctionData| f@) == fs
                && final(raw)@.pointer == q,
            None => r is None,
        },
        r matches Some(fs) ==> forall|i: int| 0 <= i < fs@.len() ==> (#[trigger] fs@[i])@.code.len() <= old(raw)@.data.len() && fs@[i]@.id != i32::MAX,
{
    let ghost d = raw@.data;
    let ghost p0 = raw@.pointer as int;
    let ghost t = names(table@);
    let mut fs: Vec<FunctionData> = Vec::new();
    let mut k: usize = 0;
    proof {
        match parse_functions(d, p0, n as nat, t) {
            Some((rest, q)) => {
                assert(fs@.map_values(|f: FunctionData| f@) + rest =~= rest);
            },
            None => {},
        }
    }
    while k < n
        invariant
            k <= n,
            raw.wf(),
            same_data(raw@, old(raw)@),
            d == old(raw)@.data,
            p0 == old(raw)@.pointer as int,
            t == names(table@),
            parse_functions(d, p0, n as nat, t) == match parse_functions(d, raw@.pointer as int, (n - k) as nat, t) {
                Some((rest, q)) => Some((fs@.map_values(|f: FunctionData| f@) + rest, q)),
                None => None,
            },
            forall|i: int| 0 <= i < fs@.len() ==> (#[trigger] fs@[i])@.code.len() <= d.len() && fs@[i]@.id != i32::MAX,
        decreases n - k,
    {
        let ghost pk = raw@.pointer as int;
        match read_function(raw, table) {
            None => {
                assert(parse_functions(d, pk, (n - k) as nat, t) is None);
                return None;
            },
            Some(f) => {
                let ghost before = fs@.map_values(|f: FunctionData| f@);
                let ghost fv = f@;
                fs.push(f);
                proof {
                    assert(fs@.map_values(|f: FunctionData| f@) =~= before.push(fv));
                    match parse_functions(d, raw@.pointer as int, (n - k - 1) as nat, t) {
                        Some((rest, q)) => {
                            assert(fs@.map_values(|f: FunctionData| f@) + rest =~= before + (seq![fv] + rest));
                        },
                        None => {},
                    }
                }
            },
        }
        k = k + 1;
    }
    proof {
        assert(fs@.map_values(|f: FunctionData| f@) + Seq::<FunctionRecord>::empty() =~= fs@.map_values(|f: FunctionData| f@));
    }
    Some(fs)
}


/// A count read as `i32`; a negative one counts as zero.
fn count(n: i32) -> (r: usize)
    ensures
        r == count_of(n),
{
    if n > 0 {
        n as usize
    } else {
        0
    }
}

fn read_body(raw: &mut RandomAccessByteStream) -> (r: Option<ProgramData>)
    requires
        old(raw).wf(),
    ensures
        final(raw).wf(),
        match parse_body(old(raw)@.data, old(raw)@.pointer as int) {
            Some(rec) => r is Some && r.unwrap()@ == rec,
            None => r is None,
        },
        r matches Some(p) ==> forall|i: int| 0 <= i < p.functions@.len() ==> (#[trigger] p.functions@[i])@.code.len() <= old(raw)@.data.len() && p.functions@[i]@.id != i32::MAX,
{
    let tn = match read_count(raw) {
        Some(n) => n,
        None => return None,
    };
    let table = match read_strs(raw, tn) {
        Some(t) => t,
        None => return None,
    };
    let ni = match read_int_operand(raw) {
        Some(v) => v,
        None => return None,
    };
    if ni < 0 || (ni as usize) >= table.len() {
        return None;
    }
    let name = table[ni as usize].clone();
    assert(name@ == names(table@)[ni as int]);
    let sn = match read_int_operand(raw) {
        Some(v) => v,
        None => return None,
    };
    let strings = match read_refs(raw, count(sn), &table) {
        Some(v) => v,
        None => return None,
    };
    let nn = match read_int_operand(raw) {
        Some(v) => v,
        None => return None,
    };
    let arities = match read_ints(raw, count(nn)) {
        Some(v) => v,
        None => return None,
    };
    let fnum = match read_int_operand(raw) {
        Some(v) => v,
        None => return None,
    };
    let functions = match read_functions(raw, count(fnum), &table) {
        Some(v) => v,
        None => return None,
    };
    Some(ProgramData { name, strings, arities, functions })
}

/// The function a read function makes.
fn make_function(fd: FunctionData) -> (f: GvmFunction)
    requires
        fd@.code.len() + 8000 <= usize::MAX,
    ensures
        f.wf(),
        f@ == function_view_of(fd@),
{
    let ghost rec = fd@;
    let mut code = RandomAccessByteStream::new();
    proof {
        code.lemma_valid();
    }
    code.write_bytes(fd.code.as_slice());
    proof {
        code.lemma_valid();
    }
    code.seek(0);
    let mut f = GvmFunction::new(code, fd.parameters);
    f.set_index(fd.index);
    match fd.debug_name {
        Some(n) => f.set_debug_name(n),
        None => {},
    }
    let locals = fd.locals;
    let mut k: usize = 0;
    assert(rec.locals.take(0) =~= Seq::<Seq<char>>::empty());
    while k < locals.len()
        invariant
            k <= locals@.len(),
            names(locals@) == rec.locals,
            f.wf(),
            f@ == (FunctionView { locals: dedup(rec.locals.take(k as int)), handlers: Seq::empty(), ..function_view_of(rec) }),
        decreases locals@.len() - k,
    {
        assert(names(locals@)[k as int] == locals@[k as int]@);
        let x = locals[k].clone();
        f.register_local_variable(x);
        assert(rec.locals.take(k + 1).drop_last() =~= rec.locals.take(k as int));
        k = k + 1;
    }
    assert(rec.locals.take(k as int) =~= rec.locals);
    let handlers = fd.handlers;
    assert(rec.handlers.take(0) =~= Seq::<HandlerView>::empty());
    let mut k: usize = 0;
    while k < handlers.len()
        invariant
            k <= handlers@.len(),
            handlers@ == rec.handlers,
            f.wf(),
            f@ == (FunctionView { handlers: rec.handlers.take(k as int), ..function_view_of(rec) }),
        decreases handlers@.len() - k,
    {
        let h = handlers[k];
        f.register_catch_block(h.0, h.1, h.2);
        k = k + 1;
        assert(rec.handlers.take(k as int) =~= rec.handlers.take(k - 1).push(h));
    }
    assert(rec.handlers.take(k as int) =~= rec.handlers);
    f
}

/// The program a read program makes.
fn build<F: NativeMethodFactory>(data: ProgramData, factory: &F) -> (r: GvmProgram<F::Native>)
    requires
        forall|i: int| 0 <= i < data.functions@.len() ==> (#[trigger] data.functions@[i])@.code.len() + 8000 <= usize::MAX && data.functions@[i]@.id != i32::MAX,
    ensures
        r.wf(),
        program_loaded(r@, data@),
        forall|k: int|
            0 <= k < r@.natives.len() ==> call_ensures(F::create, (factory, data@.arities[k]), #[trigger] r@.natives[k]),
{
    let ghost rec = data@;
    let mut program: GvmProgram<F::Native> = GvmProgram::new(data.name);
    let strings = data.strings;
    let mut k: usize = 0;
    while k < strings.len()
        invariant
            k <= strings@.len(),
            names(strings@) == rec.strings,
            program.wf(),
            program@.strings == rec.strings.take(k as int),
            program@.name == rec.name,
            program@.functions == Map::<i32, FunctionView>::empty(),
            program@.natives == Seq::<F::Native>::empty(),
            program@.counter == 0,
            program@.types.len() == 3,
            is_builtin_type(program@.types[0], TypeKind::Boolean, boolean_name(), |op| boolean_supports(op)),
            is_builtin_type(program@.types[1], TypeKind::Undefined, undefined_name(), |op| undefined_supports(op)),
            is_builtin_type(program@.types[2], TypeKind::Function, function_name(), |op| function_supports(op)),
        decreases strings@.len() - k,
    {
        assert(names(strings@)[k as int] == strings@[k as int]@);
        let x = strings[k].clone();
        program.add_string_at(x, k);
        k = k + 1;
        assert(program@.strings =~= rec.strings.take(k as int));
    }
    assert(rec.strings.take(k as int) =~= rec.strings);
    let arities = data.arities;
    let mut k: usize = 0;
    while k < arities.len()
        invariant
            k <= arities@.len(),
            arities@ == rec.arities,
            program.wf(),
            program@.strings == rec.strings,
            program@.name == rec.name,
            program@.functions == Map::<i32, FunctionView>::empty(),
            program@.natives.len() == k,
            forall|j: int|
                0 <= j < k ==> call_ensures(F::create, (factory, rec.arities[j]), #[trigger] program@.natives[j]),
            program@.counter == 0,
            program@.types.len() == 3,
            is_builtin_type(program@.types[0], TypeKind::Boolean, boolean_name(), |op| boolean_supports(op)),
            is_builtin_type(program@.types[1], TypeKind::Undefined, undefined_name(), |op| undefined_supports(op)),
            is_builtin_type(program@.types[2], TypeKind::Function, function_name(), |op| function_supports(op)),
        decreases arities@.len() - k,
    {
        let native = factory.create(arities[k]);
        program.add_native(native);
        k = k + 1;
    }
    let ghost made = program@.natives;
    let mut functions = data.functions;
    let ghost fs = rec.functions;
    assert forall|i: int| 0 <= i < fs.len() implies (#[trigger] fs[i]).id != i32::MAX by {
        assert(fs[i] == functions@[i]@);
    }
    let ghost all = functions@;
    let total = functions.len();
    assert(all.len() == total);
    assert(fs.take(0) =~= Seq::<FunctionRecord>::empty());
    let mut remaining: Vec<FunctionData> = Vec::new();
    // Functions are taken from the back and made in their stored order.
    while functions.len() > 0
        invariant
            all.len() == fs.len(),
            forall|i: int| 0 <= i < all.len() ==> (#[trigger] all[i])@ == fs[i],
            functions@ == all.take(functions@.len() as int),
            all.len() <= usize::MAX,
            remaining@.len() + functions@.len() == all.len(),
            forall|i: int| 0 <= i < remaining@.len() ==> #[trigger] remaining@[i] == all[all.len() - 1 - i],
        decreases functions@.len(),
    {
        let f = functions.pop().unwrap();
        remaining.push(f);
        assert(functions@ =~= all.take(functions@.len() as int));
    }
    let mut j: usize = 0;
    while remaining.len() > 0
        invariant
            j + remaining@.len() == fs.len(),
            all.len() == fs.len(),
            all.len() <= usize::MAX,
            forall|i: int| 0 <= i < all.len() ==> (#[trigger] all[i])@ == fs[i],
            forall|i: int| 0 <= i < remaining@.len() ==> #[trigger] remaining@[i] == all[all.len() - 1 - i],
            forall|i: int| 0 <= i < all.len() ==> (#[trigger] all[i])@.code.len() + 8000 <= usize::MAX,
            forall|i: int| 0 <= i < fs.len() ==> (#[trigger] fs[i]).id != i32::MAX,
            program.wf(),
            program@.strings == rec.strings,
            program@.name == rec.name,
            program@.natives.len() == rec.arities.len(),
            program@.natives == made,
            forall|k: int|
                0 <= k < made.len() ==> call_ensures(F::create, (factory, rec.arities[k]), #[trigger] made[k]),
            program@.functions == functions_of(fs.take(j as int)),
            program@.counter == counter_of(fs.take(j as int)),
            program@.types.len() == 3,
            is_builtin_type(program@.types[0], TypeKind::Boolean, boolean_name(), |op| boolean_supports(op)),
            is_builtin_type(program@.types[1], TypeKind::Undefined, undefined_name(), |op| undefined_supports(op)),
            is_builtin_type(program@.types[2], TypeKind::Function, function_name(), |op| function_supports(op)),
        decreases remaining@.len(),
    {
        let fd = remaining.pop().unwrap();
        assert(fd == all[j as int]);
        let id = fd.id;
        assert(fs[j as int].id == id);
        let func = make_function(fd);
        program.add_function_with_id(id, func);
        assert(fs.take(j + 1).drop_last() =~= fs.take(j as int));
        j = j + 1;
    }
    assert(fs.take(j as int) =~= fs);
    program
}


impl GvmProgramSerializer {
    /// Reads a stored program; the native method for each stored argument
    /// count is made by `factory`. The bytes are read as loaded into
    /// zero-filled blocks of 8000 bytes; a read past the loaded blocks, a
    /// negative count or a string index outside the table gives
    /// `ReadError::Malformed`. There must be at least one byte.
    pub fn read_from<F: NativeMethodFactory>(bytes: &[u8], factory: &F) -> (r: Result<GvmProgram<F::Native>, ReadError>)
        requires
            bytes@.len() > 0,
            bytes@.len() + 16000 <= usize::MAX,
        ensures
            match parse(loaded(bytes@)) {
                Ok(rec) => r matches Ok(p) && p.wf() && program_loaded(p@, rec) && forall|k: int|
                    0 <= k < p@.natives.len() ==> call_ensures(F::create, (factory, rec.arities[k]), #[trigger] p@.natives[k]),
                Err(e) => r matches Err(x) && x.failure() == e,
            },
    {
        let mut raw = RandomAccessByteStream::new();
        raw.load(bytes);
        proof {
            reveal(loaded);
            raw.lemma_valid();
            lemma_grown_len(0, 8000, bytes@.len());
        }
        let ghost d = raw@.data;
        assert(d == loaded(bytes@));
        if raw.readable() < 4 {
            return Err(ReadError::Malformed);
        }
        let head = raw.read_bytes(4);
        if head[0] != 0x47u8 || head[1] != 0x53u8 || head[2] != 0x56u8 || head[3] != 0x4Du8 {
            proof {
                if d.subrange(0, 4) == magic() {
                    assert(head@ == magic());
                    assert(head@[0] == 0x47u8);
                }
            }
            return Err(ReadError::InvalidMagic);
        }
        assert(d.subrange(0, 4) =~= magic());
        let version = match read_int_operand(&mut raw) {
            Some(v) => v,
            None => return Err(ReadError::Malformed),
        };
        if version != VERSION {
            return Err(ReadError::UnsupportedVersion(version));
        }
        match read_body(&mut raw) {
            None => Err(ReadError::Malformed),
            Some(data) => Ok(build(data, factory)),
        }
    }
}


/// Whether `a` is `b` as loaded: the same parameters, locals, catch blocks,
/// index and debug name, and bytecode with the same contents positioned at
/// its start.
pub open spec fn same_function(a: FunctionView, b: FunctionView) -> bool {
    &&& a.parameters == b.parameters
    &&& a.locals == b.locals
    &&& a.handlers == b.handlers
    &&& a.index == b.index
    &&& a.debug_name == b.debug_name
    &&& a.bytecode.contents() == b.bytecode.contents()
    &&& a.bytecode.pointer == 0
}

proof fn lemma_dedup_distinct(s: Seq<Seq<char>>)
    requires
        s.no_duplicates(),
    ensures
        dedup(s) == s,
    decreases s.len(),
{
    if s.len() > 0 {
        let init = s.drop_last();
        assert(init.no_duplicates());
        lemma_dedup_distinct(init);
        if init.contains(s.last()) {
            let j = choose|j: int| 0 <= j < init.len() && init[j] == s.last();
            assert(s[j] == s[s.len() - 1]);
        }
        assert(init.push(s.last()) =~= s);
    }
}

proof fn lemma_loaded_code(code: Seq<u8>)
    ensures
        loaded_code(code).contents() == code,
{
    lemma_grown_len(8000, 8000, code.len());
    assert(loaded_code(code).contents() =~= code);
}

proof fn lemma_functions_of(fs: Seq<FunctionRecord>)
    requires
        forall|i: int, j: int| 0 <= i < j < fs.len() ==> fs[i].id != fs[j].id,
    ensures
        forall|i: int| 0 <= i < fs.len() ==> #[trigger] functions_of(fs).contains_key(fs[i].id)
            && functions_of(fs)[fs[i].id] == function_view_of(fs[i]),
        forall|k: i32| #[trigger] functions_of(fs).contains_key(k) ==> exists|i: int| 0 <= i < fs.len() && fs[i].id == k,
    decreases fs.len(),
{
    if fs.len() > 0 {
        let init = fs.drop_last();
        lemma_functions_of(init);
        assert forall|i: int| 0 <= i < fs.len() implies #[trigger] functions_of(fs).contains_key(fs[i].id)
            && functions_of(fs)[fs[i].id] == function_view_of(fs[i]) by {
            if i < fs.len() - 1 {
                assert(init[i] == fs[i]);
                assert(fs[i].id != fs[fs.len() - 1].id);
            }
        }
        assert forall|k: i32| #[trigger] functions_of(fs).contains_key(k) implies exists|i: int| 0 <= i < fs.len() && fs[i].id == k by {
            if k != fs.last().id {
                assert(functions_of(init).contains_key(k));
                let i = choose|i: int| 0 <= i < init.len() && init[i].id == k;
                assert(fs[i] == init[i]);
            }
        }
    }
}

/// Storing a consistent program and loading the bytes back gives the
/// program back: reading succeeds with the stored record, and a program
/// loaded from it (`loaded`) has the same name and string constants, one
/// native method per stored argument count, and for each function id the
/// same function up to where its bytecode is positioned. The counts read
/// back are the stored ones, so `read_from` makes the k-th native method
/// from the count that `write_to` took from the k-th native method.
pub proof fn lemma_load_of_store<N, M>(
    program: &GvmProgram<N>,
    ids: Seq<i32>,
    arities: Seq<i32>,
    loaded_program: ProgramView<M>,
)
    requires
        program.wf(),
        is_sorted_keys(ids, program@.functions.dom()),
        storable(program_record(program@, ids, arities)),
    ensures
        parse(loaded(encode(program_record(program@, ids, arities)))) == Ok::<ProgramRecord, ReadFailure>(
            program_record(program@, ids, arities),
        ),
        program_record(program@, ids, arities).arities == arities,
        program_loaded(loaded_program, program_record(program@, ids, arities)) ==> {
            &&& loaded_program.name == program@.name
            &&& loaded_program.strings == program@.strings
            &&& loaded_program.natives.len() == arities.len()
            &&& loaded_program.functions.dom() == program@.functions.dom()
            &&& forall|id: i32| #[trigger] program@.functions.contains_key(id) ==> same_function(
                loaded_program.functions[id],
                program@.functions[id],
            )
        },
{
    let p = program@;
    let rec = program_record(p, ids, arities);
    crate::program::format::lemma_read_of_write(rec);
    let fs = rec.functions;
    assert forall|i: int, j: int| 0 <= i < j < fs.len() implies fs[i].id != fs[j].id by {
        assert(fs[i].id == ids[i]);
        assert(fs[j].id == ids[j]);
    }
    lemma_functions_of(fs);
    if program_loaded(loaded_program, rec) {
        let q = loaded_program;
        assert forall|id: i32| q.functions.contains_key(id) <==> p.functions.contains_key(id) by {
            if p.functions.contains_key(id) {
                assert(ids.contains(id));
                let i = choose|i: int| 0 <= i < ids.len() && ids[i] == id;
                assert(fs[i].id == id);
            }
            if q.functions.contains_key(id) {
                let i = choose|i: int| 0 <= i < fs.len() && fs[i].id == id;
                assert(ids[i] == id);
            }
        }
        assert(q.functions.dom() =~= p.functions.dom());
        assert forall|id: i32| #[trigger] p.functions.contains_key(id) implies same_function(q.functions[id], p.functions[id]) by {
            assert(ids.contains(id));
            let i = choose|i: int| 0 <= i < ids.len() && ids[i] == id;
            assert(fs[i] == function_record(id, p.functions[id]));
            program.lemma_function_wf(id);
            program.lemma_locals_distinct(id);
            lemma_dedup_distinct(p.functions[id].locals);
            lemma_loaded_code(p.functions[id].bytecode.contents());
        }
    }
}

} // verus!
