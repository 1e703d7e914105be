//! The access that types, exception conversion and native methods get to
//! the heap and the program while the machine runs.
use vstd::prelude::*;

use crate::program::function::{names, GvmFunction};
use crate::program::heap::{GvmHeap, HeapView};
use crate::program::program::{GvmProgram, ProgramView};
use crate::streams::utf16::string_bytes;
use crate::streams::{int_bytes, RandomAccessByteStream, StreamView};
use crate::text::{concat, int_text, int_to_string};
use crate::vm::gvm::{LDC_D, LDS, NATIVE, RETURN};
use crate::vm::object::{gets_keys, gets_value, has_field, GvmObject};
use crate::vm::runtime::Runtime;
use crate::vm::thread::GvmThread;
use crate::vm::types::Value;

verus! {

/// The code of `n` loads of the arguments 1 to `n`.
pub open spec fn load_arguments_code(n: nat) -> Seq<u8>
    decreases n,
{
    if n == 0 {
        Seq::empty()
    } else {
        load_arguments_code((n - 1) as nat) + seq![LDS] + int_bytes(n as i32)
    }
}

/// The bytecode of the function that calls native method `index` with
/// `n` arguments: load each argument, load the native method as a
/// `Function` value, call it and return its result.
pub open spec fn native_stub_code(n: nat, index: i32) -> Seq<u8> {
    load_arguments_code(n) + seq![LDC_D] + int_bytes(index) + int_bytes(
        string_bytes("Function"@).len() as i32,
    ) + string_bytes("Function"@) + seq![NATIVE, RETURN]
}

/// The parameter names `p0`, `p1`, ... of a native stub with `n` arguments.
pub open spec fn native_stub_parameters(n: nat) -> Seq<Seq<char>> {
    Seq::new(n, |i: int| "p"@ + int_text(i))
}

/// The number of arguments of a native stub for `arg_count`.
pub open spec fn stub_arity(arg_count: i32) -> nat {
    if arg_count > 0 {
        arg_count as nat
    } else {
        0
    }
}

/// How a program changes through a context: functions, strings and
/// natives are only added, types and the name stay, and the result is
/// consistent again.
pub open spec fn program_grows<N>(before: ProgramView<N>, after: ProgramView<N>) -> bool {
    &&& before.functions.submap_of(after.functions)
    &&& before.strings.is_prefix_of(after.strings)
    &&& before.natives.is_prefix_of(after.natives)
    &&& before.types == after.types
    &&& before.name == after.name
    &&& before.counter <= after.counter
}

/// How a heap changes through a context: objects may change or be added,
/// none is removed, references keep increasing.
pub open spec fn heap_grows<O>(before: HeapView<O>, after: HeapView<O>) -> bool {
    &&& before.objects.dom().subset_of(after.objects.dom())
    &&& before.counter <= after.counter
    &&& after.valid()
}

pub(crate) proof fn lemma_push_code(v: StreamView, bytes: Seq<u8>)
    requires
        v.valid(),
        v.pointer == v.size,
        v.can_write(bytes.len()),
    ensures
        v.after_write(bytes).valid(),
        v.after_write(bytes).pointer == v.after_write(bytes).size,
        v.after_write(bytes).contents() == v.contents() + bytes,
        v.after_write(bytes).blocksize == v.blocksize,
        v.after_write(bytes).size == v.size + bytes.len(),
{
    crate::streams::lemma_write_then_read(v, bytes);
    crate::streams::lemma_append(v, bytes);
}

/// Writes a native stub into a program and returns the new function's id.
pub(crate) fn add_native_stub<N>(program: &mut GvmProgram<N>, wrapper: N, arg_count: i32, offset: i32) -> (id: i32)
    requires
        old(program).wf(),
        old(program)@.counter < i32::MAX,
        old(program)@.natives.len() + offset <= i32::MAX,
        old(program)@.natives.len() + offset >= i32::MIN,
        old(program)@.natives.len() < i32::MAX,
        5 * stub_arity(arg_count) + 8100 <= usize::MAX,
    ensures
        final(program).wf(),
        id == old(program)@.counter,
        final(program)@.counter == id + 1,
        final(program)@.natives == old(program)@.natives.push(wrapper),
        final(program)@.functions == old(program)@.functions.insert(id, final(program)@.functions[id]),
        !old(program)@.functions.contains_key(id),
        final(program)@.functions[id].bytecode.contents() == native_stub_code(
            stub_arity(arg_count),
            (old(program)@.natives.len() + offset) as i32,
        ),
        final(program)@.functions[id].bytecode.pointer == final(program)@.functions[id].bytecode.size,
        final(program)@.functions[id].parameters == native_stub_parameters(stub_arity(arg_count)),
        final(program)@.functions[id].locals == Seq::<Seq<char>>::empty(),
        final(program)@.functions[id].handlers == Seq::<(i32, i32, i32)>::empty(),
        final(program)@.strings == old(program)@.strings,
        final(program)@.types == old(program)@.types,
        final(program)@.name == old(program)@.name,
{
    let native_idx = program.add_native(wrapper);
    let real_idx = native_idx + offset;
    let mut code = RandomAccessByteStream::new();
    let mut param_names: Vec<String> = Vec::new();
    let ghost n = stub_arity(arg_count);
    proof {
        code.lemma_valid();
        assert(code@.contents() =~= Seq::<u8>::empty());
    }
    let mut i: i32 = 0;
    while i < arg_count
        invariant
            0 <= i,
            arg_count > 0 ==> i <= arg_count,
            arg_count <= 0 ==> i == 0,
            n == stub_arity(arg_count),
            5 * n + 8100 <= usize::MAX,
            code.wf(),
            code@.valid(),
            code@.blocksize == 8000,
            code@.pointer == code@.size,
            code@.size == 5 * i,
            code@.contents() == load_arguments_code(i as nat),
            names(param_names@) == native_stub_parameters(i as nat),
        decreases arg_count - i,
    {
        let name = concat("p", int_to_string(i).as_str());
        let ghost before = param_names@;
        param_names.push(name);
        proof {
            assert(names(param_names@) =~= names(before).push(name@));
            assert(native_stub_parameters((i + 1) as nat) =~= native_stub_parameters(i as nat).push(
                "p"@ + int_text(i as int),
            ));
            lemma_push_code(code@, seq![LDS]);
        }
        code.write_byte(LDS);
        proof {
            code.lemma_valid();
            lemma_push_code(code@, int_bytes((1 + i) as i32));
        }
        code.write_int(1 + i);
        proof {
            code.lemma_valid();
        }
        i = i + 1;
        assert(code@.contents() =~= load_arguments_code(i as nat));
    }
    assert(i as nat == n);
    proof {
        lemma_push_code(code@, seq![LDC_D]);
    }
    code.write_byte(LDC_D);
    proof {
        code.lemma_valid();
        lemma_push_code(code@, int_bytes(real_idx));
    }
    code.write_int(real_idx);
    proof {
        code.lemma_valid();
        reveal_strlit("Function");
        assert(string_bytes("Function"@).len() == 18) by {
            crate::streams::utf16::lemma_bmp_encode_len("Function"@);
        }
        lemma_push_code(code@, int_bytes(18));
    }
    let function_name = "Function";
    code.write_string(function_name);
    proof {
        code.lemma_valid();
        lemma_push_code(code@, string_bytes("Function"@));
    }
    proof {
        code.lemma_valid();
        lemma_push_code(code@, seq![NATIVE]);
    }
    code.write_byte(NATIVE);
    proof {
        code.lemma_valid();
        lemma_push_code(code@, seq![RETURN]);
    }
    code.write_byte(RETURN);
    assert(code@.contents() =~= native_stub_code(n, real_idx));
    let function = GvmFunction::new(code, param_names);
    program.add_function(function)
}

pub(crate) fn set_field<O: GvmObject>(heap: &mut GvmHeap<O>, obj_ref: i32, field: &str, value: Value)
    requires
        old(heap)@.valid(),
    ensures
        final(heap)@.valid(),
        final(heap)@.objects.dom() == old(heap)@.objects.dom(),
        forall|k: i32|
            k != obj_ref && #[trigger] old(heap)@.objects.contains_key(k) ==> final(heap)@.objects[k]
                == old(heap)@.objects[k],
        final(heap)@.counter == old(heap)@.counter,
        !old(heap)@.objects.contains_key(obj_ref) ==> final(heap)@ == old(heap)@,
        old(heap)@.objects.contains_key(obj_ref) ==> exists|m: &mut O|
            {
                &&& *m == old(heap)@.objects[obj_ref]
                &&& *final(m) == final(heap)@.objects[obj_ref]
                &&& call_ensures(O::set_value, (m, field, value), ())
            },
{
    match heap.get_object_mut(obj_ref) {
        Some(obj) => {
            obj.set_value(field, value);
        },
        None => {},
    }
    assert(final(heap)@.objects.dom() =~= old(heap)@.objects.dom());
}

pub(crate) fn add_string_to<N>(program: &mut GvmProgram<N>, s: &str) -> (r: i32)
    requires
        old(program).wf(),
    ensures
        final(program).wf(),
        program_grows(old(program)@, final(program)@),
        final(program)@.strings == if old(program)@.strings.contains(s@) {
            old(program)@.strings
        } else {
            old(program)@.strings.push(s@)
        },
        final(program)@.strings.len() <= i32::MAX ==> 0 <= r && final(program)@.strings[r as int] == s@,
{
    let owned = s.to_string();
    let r = program.add_string(owned);
    proof {
        if old(program)@.strings.contains(s@) {
            old(program)@.strings.index_of_first_ensures(s@);
        }
        assert(old(program)@.strings.is_prefix_of(final(program)@.strings));
    }
    r
}

/// A bundle of the program, the heap and a thread, with the same access to
/// the heap and the program as the runtime's context.
pub struct GvmContext<'a, R: Runtime> {
    pub program: &'a mut GvmProgram<R::Native>,
    pub heap: &'a mut GvmHeap<R::Object>,
    pub thread: &'a mut GvmThread,
}

impl<'a, R: Runtime> GvmContext<'a, R> {
    /// The heap as the bundle sees it.
    pub open spec fn heap_view(&self) -> HeapView<R::Object> {
        self.heap@
    }

    /// The program as the bundle sees it.
    pub open spec fn program_view(&self) -> ProgramView<R::Native> {
        self.program@
    }

    /// A context over the given program, heap and thread.
    pub fn new(
        program: &'a mut GvmProgram<R::Native>,
        heap: &'a mut GvmHeap<R::Object>,
        thread: &'a mut GvmThread,
    ) -> (c: Self)
        ensures
            *c.program == *old(program),
            *c.heap == *old(heap),
            *c.thread == *old(thread),
            c.program_view() == old(program)@,
            c.heap_view() == old(heap)@,
    {
        GvmContext { program, heap, thread }
    }

    /// The value of field `field` of the object `obj_ref`, if the object
    /// exists and has one.
    pub fn heap_get_object_value(&self, obj_ref: i32, field: &str) -> (r: Option<Value>)
        ensures
            !self.heap_view().objects.contains_key(obj_ref) ==> r is None,
            self.heap_view().objects.contains_key(obj_ref) ==> gets_value(
                self.heap_view().objects[obj_ref],
                field,
                r,
            ),
    {
        match self.heap.get_object(obj_ref) {
            Some(o) => o.get_value(field),
            None => None,
        }
    }

    /// Stores `value` in field `field` of the object `obj_ref`, if it exists.
    pub fn heap_set_object_value(&mut self, obj_ref: i32, field: &str, value: Value)
        requires
            old(self).heap@.valid(),
        ensures
            final(self).heap@.valid(),
            final(self).heap@.objects.dom() == old(self).heap@.objects.dom(),
            forall|k: i32|
                k != obj_ref && #[trigger] old(self).heap@.objects.contains_key(k) ==> final(self).heap@.objects[k] == old(self).heap@.objects[k],
            final(self).program@ == old(self).program@,
            final(self).heap@.counter == old(self).heap@.counter,
            *final(self).thread == *old(self).thread,
            !old(self).heap@.objects.contains_key(obj_ref) ==> final(self).heap@ == old(self).heap@,
            old(self).heap@.objects.contains_key(obj_ref) ==> exists|m: &mut R::Object|
                {
                    &&& *m == old(self).heap@.objects[obj_ref]
                    &&& *final(m) == final(self).heap@.objects[obj_ref]
                    &&& call_ensures(R::Object::set_value, (m, field, value), ())
                },
    {
        set_field(self.heap, obj_ref, field, value);
    }

    /// Whether the object `obj_ref` exists and field `field` has a value.
    pub fn heap_has_object_value(&self, obj_ref: i32, field: &str) -> (r: bool)
        ensures
            !self.heap_view().objects.contains_key(obj_ref) ==> !r,
            self.heap_view().objects.contains_key(obj_ref) ==> has_field(
                self.heap_view().objects[obj_ref],
                field,
                r,
            ),
    {
        match self.heap.get_object(obj_ref) {
            Some(o) => o.has_value(field),
            None => false,
        }
    }

    /// Stores a new object on the heap and returns its reference.
    pub fn heap_add_object_box(&mut self, object: R::Object) -> (r: i32)
        requires
            old(self).heap@.counter < i32::MAX,
        ensures
            r == old(self).heap@.counter + 1,
            final(self).heap@.objects == old(self).heap@.objects.insert(r, object),
            final(self).heap@.counter == r,
            old(self).heap@.valid() ==> final(self).heap@.valid(),
    {
        self.heap.add_object(object)
    }

    /// The field names of the object `obj_ref`; none when it does not exist.
    pub fn heap_get_object_keys(&self, obj_ref: i32) -> (r: Vec<String>)
        ensures
            !self.heap_view().objects.contains_key(obj_ref) ==> r@.len() == 0,
            self.heap_view().objects.contains_key(obj_ref) ==> gets_keys(self.heap_view().objects[obj_ref], r),
    {
        match self.heap.get_object(obj_ref) {
            Some(o) => o.get_keys(),
            None => Vec::new(),
        }
    }

    /// The string constant at `index`, if any.
    pub fn get_string(&self, index: i32) -> (r: Option<&str>)
        ensures
            match r {
                Some(s) => 0 <= index < self.program_view().strings.len() && s@ == self.program_view().strings[index as int],
                None => !(0 <= index < self.program_view().strings.len()),
            },
    {
        self.program.get_string(index)
    }

    /// The index of the string constant `s`, adding it when absent.
    pub fn add_string(&mut self, s: &str) -> (r: i32)
        requires
            old(self).program.wf(),
        ensures
            final(self).program.wf(),
            final(self).program@.strings == if old(self).program@.strings.contains(s@) {
                old(self).program@.strings
            } else {
                old(self).program@.strings.push(s@)
            },
            final(self).program@.strings.len() <= i32::MAX ==> 0 <= r && final(self).program@.strings[r as int] == s@,
    {
        add_string_to(self.program, s)
    }

    /// Adds a native method together with a function that calls it with
    /// `arg_count` arguments (`p0`, `p1`, ...), and returns that function's id.
    pub fn generate_native_method_function(&mut self, wrapper: R::Native, arg_count: i32) -> (id: i32)
        requires
            old(self).program.wf(),
            old(self).program@.counter < i32::MAX,
            old(self).program@.natives.len() < i32::MAX,
            5 * stub_arity(arg_count) + 8100 <= usize::MAX,
        ensures
            final(self).program.wf(),
            id == old(self).program@.counter,
            final(self).program@.natives == old(self).program@.natives.push(wrapper),
            final(self).program@.functions[id].bytecode.contents() == native_stub_code(
                stub_arity(arg_count),
                old(self).program@.natives.len() as i32,
            ),
            final(self).program@.functions[id].parameters == native_stub_parameters(stub_arity(arg_count)),
            final(self).program@.counter == id + 1,
            final(self).program@.functions == old(self).program@.functions.insert(id, final(self).program@.functions[id]),
            !old(self).program@.functions.contains_key(id),
            final(self).program@.functions[id].bytecode.pointer == final(self).program@.functions[id].bytecode.size,
            final(self).program@.functions[id].locals == Seq::<Seq<char>>::empty(),
            final(self).program@.functions[id].handlers == Seq::<(i32, i32, i32)>::empty(),
            final(self).program@.strings == old(self).program@.strings,
            final(self).program@.types == old(self).program@.types,
            final(self).program@.name == old(self).program@.name,
            final(self).heap@ == old(self).heap@,
            *final(self).thread == *old(self).thread,
    {
        add_native_stub(self.program, wrapper, arg_count, 0)
    }
}


/// The loads of a native stub have five bytes each.
proof fn lemma_load_arguments_len(n: nat)
    ensures
        load_arguments_code(n).len() == 5 * n,
    decreases n,
{
    if n > 0 {
        lemma_load_arguments_len((n - 1) as nat);
    }
}

/// The `k`-th load of the arguments is `LDS k + 1`.
proof fn lemma_load_arguments_entry(n: nat, k: int)
    requires
        0 <= k < n,
    ensures
        load_arguments_code(n).subrange(5 * k, 5 * k + 5) == seq![LDS] + int_bytes((k + 1) as i32),
    decreases n,
{
    lemma_load_arguments_len((n - 1) as nat);
    let prev = load_arguments_code((n - 1) as nat);
    let code = load_arguments_code(n);
    assert(code == prev + (seq![LDS] + int_bytes(n as i32)));
    if k == n - 1 {
        assert(code.subrange(5 * k, 5 * k + 5) =~= seq![LDS] + int_bytes(n as i32));
    } else {
        lemma_load_arguments_entry((n - 1) as nat, k);
        assert(code.subrange(5 * k, 5 * k + 5) =~= prev.subrange(5 * k, 5 * k + 5));
    }
}

/// A native stub for `n` arguments loads its parameters in order, each
/// once: its `k`-th instruction (from 0) is `LDS k + 1`, the slot of the
/// `k`-th argument above the frame pointer.
pub proof fn lemma_stub_loads_arguments(n: nat, index: i32, k: int)
    requires
        0 <= k < n,
        n < i32::MAX,
    ensures
        native_stub_code(n, index).subrange(5 * k, 5 * k + 5) == seq![2u8] + int_bytes((k + 1) as i32),
        crate::vm::instruction::decode(native_stub_code(n, index), 5 * k) == Some(
            (crate::vm::instruction::Decoded::Lds((k + 1) as i32), 5 * k + 5),
        ),
{
    let code = native_stub_code(n, index);
    let loads = load_arguments_code(n);
    lemma_load_arguments_len(n);
    lemma_load_arguments_entry(n, k);
    assert(code.subrange(5 * k, 5 * k + 5) =~= loads.subrange(5 * k, 5 * k + 5));
    let b = int_bytes((k + 1) as i32);
    crate::streams::lemma_int_roundtrip_bytes((k + 1) as i32);
    let w = code.subrange(5 * k, 5 * k + 5);
    assert(code[5 * k] == w[0]);
    assert(code[5 * k + 1] == w[1]);
    assert(code[5 * k + 2] == w[2]);
    assert(code[5 * k + 3] == w[3]);
    assert(code[5 * k + 4] == w[4]);
    assert(crate::streams::int_at(code, 5 * k + 1) == (k + 1) as i32);
    crate::vm::instruction::lemma_opcode_meaning(code, 5 * k);
}

/// After its loads a native stub loads native method `index`.
pub proof fn lemma_stub_calls_native(n: nat, index: i32)
    ensures
        native_stub_code(n, index)[5 * n as int] == 34u8,
        crate::streams::int_at(native_stub_code(n, index), 5 * n as int + 1) == index,
{
    let code = native_stub_code(n, index);
    lemma_load_arguments_len(n);
    let ib = int_bytes(index);
    crate::streams::lemma_int_roundtrip_bytes(index);
    assert(code[5 * n as int] == LDC_D);
    assert(code[5 * n as int + 1] == ib[0]);
    assert(code[5 * n as int + 2] == ib[1]);
    assert(code[5 * n as int + 3] == ib[2]);
    assert(code[5 * n as int + 4] == ib[3]);
}

} // verus!
