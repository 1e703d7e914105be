//! The interpreter.
use vstd::prelude::*;

use crate::gc::{GarbageCollector, MarkAndSweepGarbageCollector};
use crate::program::context::{
    add_native_stub, add_string_to, heap_grows, lemma_push_code, native_stub_code,
    native_stub_parameters, program_grows, set_field, stub_arity,
};
use crate::streams::utf16::string_bytes;
use crate::streams::{int_bytes, RandomAccessByteStream};
use crate::vm::semantics::{
    at, can_resume, fork_spec, moves_to, native_returned, native_spec, others_unchanged, performs,
    pushes_plain, pushes_runtime_value, raises, unwind, with_stack, MachineView, StepKind, Unwind,
};
use crate::program::program::type_supports;
use crate::text::{concat, debug_text, int_text, join_text, owned};
use crate::vm::types::{
    BooleanType, FunctionType, Operation, TypeKind, UndefinedType, ValueType,
};
use crate::vm::thread::GvmThread;
use crate::program::heap::{GvmHeap, HeapView};
use crate::program::program::{GvmProgram, ProgramView};
use crate::vm::object::{gets_keys, gets_value, has_field, GvmObject};
use crate::vm::runtime::Runtime;
use crate::vm::types::Value;
use crate::vm::instruction::{decode, read_instruction, Instruction};
use crate::vm::messages::{unhandled_exception_message, unhandled_text};
use crate::vm::semantics::{instruction_effect, put_field, step_spec, Raised};

verus! {

pub const NEW: u8 = 1;
pub const LDS: u8 = 2;
pub const INVOKE: u8 = 8;
pub const RETURN: u8 = 9;
pub const PUT: u8 = 10;
pub const GET: u8 = 11;
pub const HALT: u8 = 12;
pub const ADD: u8 = 14;
pub const SUB: u8 = 15;
pub const MULT: u8 = 16;
pub const DIV: u8 = 17;
pub const AND: u8 = 18;
pub const OR: u8 = 19;
pub const NOT: u8 = 20;
pub const EQL: u8 = 21;
pub const GT: u8 = 22;
pub const LT: u8 = 23;
pub const CJMP: u8 = 24;
pub const JMP: u8 = 25;
pub const POP: u8 = 27;
pub const NATIVE: u8 = 28;
pub const DUP: u8 = 29;
pub const MOD: u8 = 30;
pub const THROW: u8 = 31;
pub const DEBUG: u8 = 32;
pub const BREAKPOINT: u8 = 33;
pub const LDC_D: u8 = 34;
pub const GETDYNAMIC: u8 = 35;
pub const FORK: u8 = 37;

/// The context handed to the runtime: the heap, the program, and the
/// offset added to the index of native methods made while a native method
/// runs.
pub struct VmTypeContext<O, N> {
    heap: GvmHeap<O>,
    program: GvmProgram<N>,
    native_wrapper_offset: i32,
}

impl<O: GvmObject, N> VmTypeContext<O, N> {
    /// The heap as the context sees it now.
    pub closed spec fn heap_state(&self) -> HeapView<O> {
        self.heap@
    }

    /// The program as the context sees it now.
    pub closed spec fn program_state(&self) -> ProgramView<N> {
        self.program@
    }

    /// The offset added to native method indices.
    pub closed spec fn offset(&self) -> i32 {
        self.native_wrapper_offset
    }

    /// The heap is valid and the program consistent.
    pub closed spec fn wf(&self) -> bool {
        self.heap@.valid() && self.program.wf()
    }

    /// Every change through the context keeps it consistent and only adds
    /// to the program and the heap.
    pub open spec fn preserves(&self, before: &Self) -> bool {
        &&& self.wf()
        &&& self.offset() == before.offset()
        &&& program_grows(before.program_state(), self.program_state())
        &&& heap_grows(before.heap_state(), self.heap_state())
    }

    /// The value of field `field` of the object `obj_ref`, if the object
    /// exists and has one.
    pub fn heap_get_object_value(&self, obj_ref: i32, field: &str) -> (r: Option<Value>)
        ensures
            !self.heap_state().objects.contains_key(obj_ref) ==> r is None,
            self.heap_state().objects.contains_key(obj_ref) ==> gets_value(
                self.heap_state().objects[obj_ref],
                field,
                r,
            ),
    {
        match self.heap.get_object(obj_ref) {
            Some(o) => o.get_value(field),
            None => None,
        }
    }

    /// Stores `value` in field `field` of the object `obj_ref`, if it exists.
    pub fn heap_set_object_value(&mut self, obj_ref: i32, field: &str, value: Value)
        requires
            old(self).wf(),
        ensures
            final(self).preserves(&*old(self)),
            final(self).heap_state().objects.dom() == old(self).heap_state().objects.dom(),
            forall|k: i32|
                k != obj_ref && #[trigger] old(self).heap_state().objects.contains_key(k) ==> final(self).heap_state().objects[k] == old(self).heap_state().objects[k],
            final(self).program_state() == old(self).program_state(),
            final(self).heap_state().counter == old(self).heap_state().counter,
            final(self).offset() == old(self).offset(),
            !old(self).heap_state().objects.contains_key(obj_ref) ==> final(self).heap_state() == old(
                self,
            ).heap_state(),
            old(self).heap_state().objects.contains_key(obj_ref) ==> exists|m: &mut O|
                {
                    &&& *m == old(self).heap_state().objects[obj_ref]
                    &&& *final(m) == final(self).heap_state().objects[obj_ref]
                    &&& call_ensures(O::set_value, (m, field, value), ())
                },
    {
        set_field(&mut self.heap, obj_ref, field, value);
    }

    /// Whether the object `obj_ref` exists and field `field` has a value.
    pub fn heap_has_object_value(&self, obj_ref: i32, field: &str) -> (r: bool)
        ensures
            !self.heap_state().objects.contains_key(obj_ref) ==> !r,
            self.heap_state().objects.contains_key(obj_ref) ==> has_field(
                self.heap_state().objects[obj_ref],
                field,
                r,
            ),
    {
        match self.heap.get_object(obj_ref) {
            Some(o) => o.has_value(field),
            None => false,
        }
    }

    /// Stores a new object on the heap and returns its reference.
    pub fn heap_add_object_box(&mut self, object: O) -> (r: i32)
        requires
            old(self).wf(),
            old(self).heap_state().counter < i32::MAX,
        ensures
            final(self).preserves(&*old(self)),
            r == old(self).heap_state().counter + 1,
            final(self).heap_state().objects == old(self).heap_state().objects.insert(r, object),
            final(self).heap_state().counter == r,
            final(self).program_state() == old(self).program_state(),
    {
        self.heap.add_object(object)
    }

    /// The field names of the object `obj_ref`; none when it does not exist.
    pub fn heap_get_object_keys(&self, obj_ref: i32) -> (r: Vec<String>)
        ensures
            !self.heap_state().objects.contains_key(obj_ref) ==> r@.len() == 0,
            self.heap_state().objects.contains_key(obj_ref) ==> gets_keys(self.heap_state().objects[obj_ref], r),
    {
        match self.heap.get_object(obj_ref) {
            Some(o) => o.get_keys(),
            None => Vec::new(),
        }
    }

    /// The string constant at `index`, if any.
    pub fn get_string(&self, index: i32) -> (r: Option<&str>)
        ensures
            match r {
                Some(s) => 0 <= index < self.program_state().strings.len() && s@
                    == self.program_state().strings[index as int],
                None => !(0 <= index < self.program_state().strings.len()),
            },
    {
        self.program.get_string(index)
    }

    /// The index of the string constant `s`, adding it when absent.
    pub fn add_string(&mut self, s: &str) -> (r: i32)
        requires
            old(self).wf(),
        ensures
            final(self).preserves(&*old(self)),
            final(self).heap_state() == old(self).heap_state(),
            final(self).program_state().strings == if old(self).program_state().strings.contains(s@) {
                old(self).program_state().strings
            } else {
                old(self).program_state().strings.push(s@)
            },
            final(self).program_state().strings.len() <= i32::MAX ==> 0 <= r && final(self).program_state().strings[r as int] == s@,
    {
        add_string_to(&mut self.program, s)
    }

    /// Adds a native method together with a function that calls it with
    /// `arg_count` arguments (`p0`, `p1`, ...), and returns that function's id.
    pub fn generate_native_method_function(&mut self, wrapper: N, arg_count: i32) -> (id: i32)
        requires
            old(self).wf(),
            old(self).program_state().counter < i32::MAX,
            old(self).program_state().natives.len() < i32::MAX,
            old(self).program_state().natives.len() + old(self).offset() <= i32::MAX,
            old(self).program_state().natives.len() + old(self).offset() >= i32::MIN,
            5 * stub_arity(arg_count) + 8100 <= usize::MAX,
        ensures
            final(self).preserves(&*old(self)),
            final(self).heap_state() == old(self).heap_state(),
            id == old(self).program_state().counter,
            final(self).program_state().natives == old(self).program_state().natives.push(wrapper),
            final(self).program_state().functions[id].bytecode.contents() == native_stub_code(
                stub_arity(arg_count),
                (old(self).program_state().natives.len() + old(self).offset()) as i32,
            ),
            final(self).program_state().functions[id].parameters == native_stub_parameters(
                stub_arity(arg_count),
            ),
            final(self).program_state().counter == id + 1,
            final(self).program_state().functions == old(self).program_state().functions.insert(
                id,
                final(self).program_state().functions[id],
            ),
            !old(self).program_state().functions.contains_key(id),
            final(self).program_state().functions[id].bytecode.pointer
                == final(self).program_state().functions[id].bytecode.size,
            final(self).program_state().functions[id].locals == Seq::<Seq<char>>::empty(),
            final(self).program_state().functions[id].handlers == Seq::<(i32, i32, i32)>::empty(),
            final(self).program_state().strings == old(self).program_state().strings,
            final(self).program_state().types == old(self).program_state().types,
            final(self).program_state().name == old(self).program_state().name,
    {
        add_native_stub(&mut self.program, wrapper, arg_count, self.native_wrapper_offset)
    }
}



/// The code a machine starts with: make an `Object`, call function 0 on
/// it, and halt.
pub open spec fn boot_code() -> Seq<u8> {
    seq![NEW] + int_bytes(14) + string_bytes("Object"@) + seq![LDC_D] + int_bytes(0) + int_bytes(18)
        + string_bytes("Function"@) + seq![INVOKE] + int_bytes(0) + seq![HALT]
}

/// What a step of a thread led to.
#[derive(Debug)]
pub enum Step {
    /// The thread goes on.
    Continue,
    /// The thread executed `HALT`.
    Halted,
    /// A `BREAKPOINT` was executed at this debug line.
    Breakpoint(i32),
    /// An exception reached the bottom of the thread; the machine stops with
    /// this message.
    Unhandled(String),
    /// The bytecode or the program broke the machine's rules (an operand
    /// stack too short, a missing function or type, a jump outside the
    /// code); the machine cannot go on.
    Fault(String),
}

impl Step {
    /// The outcome as contracts speak of it: the text of a fault is left out.
    pub open spec fn kind(&self) -> StepKind {
        match self {
            Step::Continue => StepKind::Continue,
            Step::Halted => StepKind::Halted,
            Step::Breakpoint(l) => StepKind::Breakpoint(*l),
            Step::Unhandled(m) => StepKind::Unhandled(m@),
            Step::Fault(_) => StepKind::Fault,
        }
    }

    /// Whether the thread goes on after this step.
    pub fn continues(&self) -> (r: bool)
        ensures
            r == (self.kind() == StepKind::Continue || self.kind() is Breakpoint),
    {
        match self {
            Step::Continue => true,
            Step::Breakpoint(_) => true,
            _ => false,
        }
    }
}

/// The virtual machine: a program, its heap, the threads that run it and
/// the language runtime.
pub struct Gvm<R: Runtime> {
    gc: MarkAndSweepGarbageCollector,
    context: VmTypeContext<R::Object, R::Native>,
    threads: Vec<GvmThread>,
    running: Vec<bool>,
    debug: bool,
    gc_ran: bool,
    runtime: R,
}

impl<R: Runtime> View for Gvm<R> {
    type V = MachineView<R::Object, R::Native>;

    closed spec fn view(&self) -> MachineView<R::Object, R::Native> {
        MachineView {
            threads: self.threads@,
            running: self.running@,
            heap: self.context.heap@,
            program: self.context.program@,
            threshold: self.gc.threshold(),
        }
    }
}

impl<R: Runtime> Gvm<R> {
    /// The machine is consistent: its heap is valid, its program consistent,
    /// every thread consistent and has a running flag.
    pub closed spec fn wf(&self) -> bool {
        &&& self.context.wf()
        &&& self.context.native_wrapper_offset == 0
        &&& self.threads@.len() == self.running@.len()
        &&& forall|j: int| 0 <= j < self.threads@.len() ==> (#[trigger] self.threads@[j]).wf()
    }

    /// Whether steps are traced.
    pub closed spec fn is_debug(&self) -> bool {
        self.debug
    }

    /// The runtime.
    pub closed spec fn runtime_of(&self) -> R {
        self.runtime
    }

    /// Whether the garbage collector ran in the last step.
    pub closed spec fn collected_last(&self) -> bool {
        self.gc_ran
    }

    /// A machine for `program` with an empty heap and no threads.
    pub fn new(program: GvmProgram<R::Native>, runtime: R) -> (m: Self)
        requires
            program.wf(),
        ensures
            m.wf(),
            m@.program == program@,
            m@.heap.objects == Map::<i32, R::Object>::empty(),
            m@.heap.counter == -1,
            m@.threads.len() == 0,
            m@.running.len() == 0,
            !m.is_debug(),
            m.runtime_of() == runtime,
    {
        Self::with_heap(program, GvmHeap::new(), runtime)
    }

    /// A machine for `program` with the given heap and no threads.
    pub fn with_heap(program: GvmProgram<R::Native>, heap: GvmHeap<R::Object>, runtime: R) -> (m: Self)
        requires
            program.wf(),
            heap@.valid(),
        ensures
            m.wf(),
            m@.program == program@,
            m@.heap == heap@,
            m@.threads.len() == 0,
            m@.running.len() == 0,
            !m.is_debug(),
            m.runtime_of() == runtime,
    {
        Gvm {
            gc: MarkAndSweepGarbageCollector::new(),
            context: VmTypeContext { heap, program, native_wrapper_offset: 0 },
            threads: Vec::new(),
            running: Vec::new(),
            debug: false,
            gc_ran: false,
            runtime,
        }
    }

    /// Turns tracing of steps on or off.
    pub fn set_debug(&mut self, debug: bool)
        ensures
            final(self)@ == old(self)@,
            final(self).is_debug() == debug,
            final(self).wf() == old(self).wf(),
    {
        self.debug = debug;
    }

    /// Whether the garbage collector ran in the last step.
    pub fn gc_ran(&self) -> (r: bool)
        ensures
            r == self.collected_last(),
    {
        self.gc_ran
    }

    /// Whether steps are traced.
    pub fn debug(&self) -> (r: bool)
        ensures
            r == self.is_debug(),
    {
        self.debug
    }

    /// The heap.
    pub fn heap(&self) -> (r: &GvmHeap<R::Object>)
        ensures
            r@ == self@.heap,
    {
        &self.context.heap
    }

    /// The program.
    pub fn program(&self) -> (r: &GvmProgram<R::Native>)
        ensures
            r@ == self@.program,
            self.wf() ==> r.wf(),
    {
        &self.context.program
    }

    /// The thread at `idx`.
    pub fn thread(&self, idx: usize) -> (r: &GvmThread)
        requires
            idx < self@.threads.len(),
        ensures
            *r == self@.threads[idx as int],
    {
        &self.threads[idx]
    }

    /// The number of threads.
    pub fn thread_count(&self) -> (r: usize)
        ensures
            r == self@.threads.len(),
    {
        self.threads.len()
    }

    /// Adds a new thread that is not running and returns its index.
    pub fn spawn_thread(&mut self) -> (idx: usize)
        requires
            old(self).wf(),
            old(self)@.threads.len() < usize::MAX,
        ensures
            final(self).wf(),
            idx == old(self)@.threads.len(),
            final(self)@.threads.len() == idx + 1,
            final(self)@.threads.take(idx as int) == old(self)@.threads,
            final(self)@.threads[idx as int]@ == GvmThread::new_view(),
            final(self)@.running == old(self)@.running.push(false),
            final(self)@.heap == old(self)@.heap,
            final(self)@.program == old(self)@.program,
            final(self).is_debug() == old(self).is_debug(),
            final(self).collected_last() == old(self).collected_last(),
    {
        let thread = GvmThread::new();
        self.threads.push(thread);
        self.running.push(false);
        let idx = self.threads.len() - 1;
        assert(self@.threads.take(idx as int) =~= old(self)@.threads);
        idx
    }

    /// Starts the machine: adds a running main thread whose code makes an
    /// `Object` and calls function 0 on it, and empties the heap. Returns
    /// the main thread's index.
    pub fn start(&mut self) -> (idx: usize)
        requires
            old(self).wf(),
            old(self)@.threads.len() < usize::MAX,
        ensures
            final(self).wf(),
            idx == old(self)@.threads.len(),
            final(self)@.threads.len() == idx + 1,
            final(self)@.threads.take(idx as int) == old(self)@.threads,
            final(self)@.threads[idx as int]@ == (crate::vm::thread::ThreadView {
                code: final(self)@.threads[idx as int]@.code,
                ..GvmThread::new_view()
            }),
            final(self)@.threads[idx as int]@.code.contents() == boot_code(),
            final(self)@.threads[idx as int]@.code.pointer == 0,
            final(self)@.running == old(self)@.running.push(true),
            final(self)@.heap.objects == Map::<i32, R::Object>::empty(),
            final(self)@.heap.counter == old(self)@.heap.counter,
            final(self)@.program == old(self)@.program,
    {
        let idx = self.spawn_thread();
        self.running.set(idx, true);
        self.context.heap.clear();
        let code = boot();
        self.threads[idx].bytecode = code;
        assert(self@.threads.take(idx as int) =~= old(self)@.threads);
        assert(self@.running =~= old(self)@.running.push(true));
        idx
    }

    /// Marks thread `idx` as running; returns whether no thread was running
    /// before, in which case the caller runs the machine.
    pub fn inject(&mut self, idx: usize) -> (was_idle: bool)
        requires
            old(self).wf(),
            idx < old(self)@.threads.len(),
        ensures
            final(self).wf(),
            was_idle == !old(self)@.running.contains(true),
            final(self)@ == (MachineView { running: old(self)@.running.update(idx as int, true), ..old(self)@ }),
            final(self).is_debug() == old(self).is_debug(),
            final(self).collected_last() == old(self).collected_last(),
    {
        let mut any = false;
        let mut k: usize = 0;
        while k < self.running.len()
            invariant
                k <= self.running@.len(),
                any <==> (exists|j: int| 0 <= j < k && #[trigger] self.running@[j]),
            decreases self.running@.len() - k,
        {
            if self.running[k] {
                any = true;
            }
            k = k + 1;
        }
        proof {
            if any {
                let j = choose|j: int| 0 <= j < k && #[trigger] self.running@[j];
                assert(self.running@[j] == true);
            }
        }
        self.running.set(idx, true);
        !any
    }

    /// The indices of the running threads, in order.
    pub fn running_threads(&self) -> (r: Vec<usize>)
        ensures
            forall|j: int| 0 <= j < r@.len() ==> #[trigger] r@[j] < self@.running.len() && self@.running[r@[j] as int],
            forall|i: int| 0 <= i < self@.running.len() && self@.running[i] ==> r@.contains(i as usize),
            forall|j: int, k: int| 0 <= j < k < r@.len() ==> r@[j] < r@[k],
    {
        let mut r: Vec<usize> = Vec::new();
        let mut k: usize = 0;
        while k < self.running.len()
            invariant
                k <= self.running@.len(),
                forall|j: int| 0 <= j < r@.len() ==> #[trigger] r@[j] < k && self@.running[r@[j] as int],
                forall|i: int| 0 <= i < k && self@.running[i] ==> r@.contains(i as usize),
                forall|j: int, l: int| 0 <= j < l < r@.len() ==> r@[j] < r@[l],
            decreases self.running@.len() - k,
        {
            let ghost prev = r@;
            if self.running[k] {
                r.push(k);
                assert(r@[r@.len() - 1] == k);
            }
            assert forall|i: int| 0 <= i < k + 1 && self@.running[i] implies r@.contains(i as usize) by {
                if i < k {
                    let j = choose|j: int| 0 <= j < prev.len() && prev[j] == i as usize;
                    assert(r@[j] == i as usize);
                } else {
                    assert(r@[r@.len() - 1] == k);
                }
            }
            k = k + 1;
        }
        r
    }

    /// Marks thread `idx` as not running.
    pub fn stop(&mut self, idx: usize)
        requires
            old(self).wf(),
            idx < old(self)@.threads.len(),
        ensures
            final(self).wf(),
            final(self)@ == (MachineView { running: old(self)@.running.update(idx as int, false), ..old(self)@ }),
            final(self).is_debug() == old(self).is_debug(),
            final(self).collected_last() == old(self).collected_last(),
    {
        self.running.set(idx, false);
    }
}

/// The bytecode stream the main thread starts with.
fn boot() -> (code: RandomAccessByteStream)
    ensures
        code.wf(),
        code@.contents() == boot_code(),
        code@.pointer == 0,
        code@.blocksize == 8000,
{
    let mut code = RandomAccessByteStream::new();
    proof {
        code.lemma_valid();
        assert(code@.contents() =~= Seq::<u8>::empty());
        reveal_strlit("Object");
        reveal_strlit("Function");
        assert(string_bytes("Object"@).len() == 14) by {
            crate::streams::utf16::lemma_bmp_encode_len("Object"@);
        }
        assert(string_bytes("Function"@).len() == 18) by {
            crate::streams::utf16::lemma_bmp_encode_len("Function"@);
        }
        lemma_push_code(code@, seq![NEW]);
    }
    code.write_byte(NEW);
    proof {
        code.lemma_valid();
        lemma_push_code(code@, int_bytes(14));
        lemma_push_code(code@.after_write(int_bytes(14)), string_bytes("Object"@));
    }
    code.write_string("Object");
    proof {
        code.lemma_valid();
        lemma_push_code(code@, seq![LDC_D]);
    }
    code.write_byte(LDC_D);
    proof {
        code.lemma_valid();
        lemma_push_code(code@, int_bytes(0));
    }
    code.write_int(0);
    proof {
        code.lemma_valid();
        lemma_push_code(code@, int_bytes(18));
        lemma_push_code(code@.after_write(int_bytes(18)), string_bytes("Function"@));
    }
    code.write_string("Function");
    proof {
        code.lemma_valid();
        lemma_push_code(code@, seq![INVOKE]);
    }
    code.write_byte(INVOKE);
    proof {
        code.lemma_valid();
        lemma_push_code(code@, int_bytes(0));
    }
    code.write_int(0);
    proof {
        code.lemma_valid();
        lemma_push_code(code@, seq![HALT]);
    }
    code.write_byte(HALT);
    proof {
        code.lemma_valid();
    }
    assert(code@.contents() =~= boot_code());
    code.seek(0);
    code
}


impl<R: Runtime> Gvm<R> {
    /// Whether thread `idx` can be unwound one call.
    fn resumable(&self, idx: usize) -> (r: bool)
        requires
            self.wf(),
            idx < self@.threads.len(),
        ensures
            r == can_resume(self@.threads[idx as int]@, self@.program),
    {
        let t = &self.threads[idx];
        let len = t.call_stack.len();
        if len > 2147483647usize || len < 1 || t.frame_pointer < 1 {
            return false;
        }
        let k: usize = if (len as i32) > t.frame_pointer {
            (t.frame_pointer - 1) as usize
        } else {
            len - 1
        };
        let fr = &t.call_stack[k];
        match self.context.program.get_function(fr.calling_function) {
            None => false,
            Some(f) => 0 <= fr.program_counter && (fr.program_counter as usize) < f.bytecode().capacity(),
        }
    }

    /// The message for an exception that no catch block handles: built from
    /// the `message`, `line` and `location` fields of the exception object
    /// when it has them, the message and location being string constants.
    pub fn unhandled_message(&self, exception: &Value) -> (r: String)
        ensures
            unhandled_message_of(self@.heap, self@.program, *exception, r@),
    {
        let none: Option<&str> = None;
        if !exception.type_.operations.permits(Operation::Get) {
            return unhandled_exception_message(none, None, none);
        }
        let obj = match self.context.heap.get_object(exception.value) {
            Some(o) => o,
            None => return unhandled_exception_message(none, None, none),
        };
        let mf = "message";
        let lf = "line";
        let cf = "location";
        let mv = obj.get_value(mf);
        let lv = obj.get_value(lf);
        let cv = obj.get_value(cf);
        let message = match &mv {
            Some(m) => self.context.program.get_string(m.value),
            None => None,
        };
        let line = match &lv {
            Some(l) => Some(l.value),
            None => None,
        };
        let location = match &cv {
            Some(l) => self.context.program.get_string(l.value),
            None => None,
        };
        let r = unhandled_exception_message(message, line, location);
        proof {
            assert(gets_value(*obj, mf, mv));
            assert(gets_value(*obj, lf, lv));
            assert(gets_value(*obj, cf, cv));
            assert(r@ == unhandled_text(
                constant_of(self@.program.strings, mv),
                payload_of(lv),
                constant_of(self@.program.strings, cv),
            ));
        }
        r
    }

    /// Unwinds thread `idx` to the innermost catch block for `exception` and
    /// pushes the exception there.
    fn handle_exception_object(&mut self, idx: usize, exception: Value) -> (r: Step)
        requires
            old(self).wf(),
            idx < old(self)@.threads.len(),
        ensures
            final(self).wf(),
            final(self).is_debug() == old(self).is_debug(),
            final(self).collected_last() == old(self).collected_last(),
            others_unchanged(old(self)@, final(self)@, idx as int),
            final(self)@.heap == old(self)@.heap,
            final(self)@.program == old(self)@.program,
            match unwind(old(self)@.threads[idx as int]@, old(self)@.program) {
                Unwind::Caught(u) => r.kind() == StepKind::Continue && final(self)@.threads[idx as int]@
                    == with_stack(u, u.stack.push(exception)),
                Unwind::Unhandled => (r matches Step::Unhandled(m)
                    && unhandled_message_of(old(self)@.heap, old(self)@.program, exception, m@)),
                Unwind::Fault => r.kind() == StepKind::Fault,
            },
        decreases old(self)@.threads[idx as int]@.call_stack.len(),
    {
        let fp = self.threads[idx].function_pointer;
        let pc = self.threads[idx].bytecode.get_pointer_position();
        let catch_block = match self.context.program.get_function(fp) {
            None => return Step::Fault(owned("the current function does not exist")),
            Some(f) => {
                if !f.handler_distances_fit(pc) {
                    return Step::Fault(owned("a catch block lies too far from the position"));
                }
                f.get_exception_handler(pc)
            },
        };
        if catch_block > -1 {
            if (catch_block as usize) >= self.threads[idx].bytecode.capacity() {
                return Step::Fault(owned("a catch block lies outside the bytecode"));
            }
            self.threads[idx].stack_push(exception);
            self.threads[idx].bytecode.seek(catch_block);
            assert(self@.threads =~= old(self)@.threads.update(idx as int, self@.threads[idx as int]));
            Step::Continue
        } else if self.threads[idx].call_stack.len() == 1 {
            Step::Unhandled(self.unhandled_message(&exception))
        } else {
            if !self.resumable(idx) {
                return Step::Fault(owned("the caller to resume does not exist"));
            }
            proof {
                let t = self.threads@[idx as int];
                self.context.program.lemma_function_wf(t.call_stack@[crate::vm::thread::peel_index(&t)].calling_function);
            }
            self.threads[idx].peel(&self.context.program);
            assert(self@.threads[idx as int]@ == crate::vm::semantics::resumed(old(self)@.threads[idx as int]@, old(self)@.program));
            self.handle_exception_object(idx, exception)
        }
    }

    /// Raises an exception with `message` in thread `idx`.
    fn raise_message(&mut self, idx: usize, message: String) -> (r: Step)
        requires
            old(self).wf(),
            idx < old(self)@.threads.len(),
        ensures
            final(self).wf(),
            final(self).is_debug() == old(self).is_debug(),
            final(self).collected_last() == old(self).collected_last(),
            raises(
                old(self).runtime_of(),
                old(self)@,
                final(self)@,
                idx as int,
                old(self)@.threads[idx as int]@,
                Raised::Message(message@),
                r.kind(),
            ),
            forall|b: MachineView<R::Object, R::Native>|
                b.heap == old(self)@.heap && b.program == old(self)@.program && others_unchanged(b, old(self)@, idx as int)
                    ==> #[trigger] raises(
                    old(self).runtime_of(),
                    b,
                    final(self)@,
                    idx as int,
                    old(self)@.threads[idx as int]@,
                    Raised::Message(message@),
                    r.kind(),
                ),
    {
        let line = self.threads[idx].debug_line_number;
        let location = self.threads[idx].location;
        let ms = message.as_str();
        let exception = self.runtime.convert_message(ms, &mut self.context, line, location);
        proof {
            assert(crate::vm::semantics::handed(
                old(self).runtime_of(),
                old(self)@.heap,
                old(self)@.program,
                Raised::Message(message@),
                old(self)@.threads[idx as int]@,
                exception,
            ));
        }
        let r = self.handle_exception_object(idx, exception);
        proof {
            assert forall|b: MachineView<R::Object, R::Native>|
                b.heap == old(self)@.heap && b.program == old(self)@.program && others_unchanged(b, old(self)@, idx as int)
                    implies #[trigger] raises(
                    old(self).runtime_of(),
                    b,
                    self@,
                    idx as int,
                    old(self)@.threads[idx as int]@,
                    Raised::Message(message@),
                    r.kind(),
                ) by {
                lemma_raises_from(old(self).runtime_of(), b, old(self)@, self@, idx as int, old(self)@.threads[idx as int]@, Raised::Message(message@), r.kind());
            }
        }
        r
    }

    /// Raises `value`, thrown by the program, in thread `idx`.
    fn raise_value(&mut self, idx: usize, value: Value) -> (r: Step)
        requires
            old(self).wf(),
            idx < old(self)@.threads.len(),
        ensures
            final(self).wf(),
            final(self).is_debug() == old(self).is_debug(),
            final(self).collected_last() == old(self).collected_last(),
            raises(
                old(self).runtime_of(),
                old(self)@,
                final(self)@,
                idx as int,
                old(self)@.threads[idx as int]@,
                Raised::Thrown(value),
                r.kind(),
            ),
            forall|b: MachineView<R::Object, R::Native>|
                b.heap == old(self)@.heap && b.program == old(self)@.program && others_unchanged(b, old(self)@, idx as int)
                    ==> #[trigger] raises(
                    old(self).runtime_of(),
                    b,
                    final(self)@,
                    idx as int,
                    old(self)@.threads[idx as int]@,
                    Raised::Thrown(value),
                    r.kind(),
                ),
    {
        let line = self.threads[idx].debug_line_number;
        let location = self.threads[idx].location;
        let exception = self.runtime.convert_value(&value, &mut self.context, line, location);
        proof {
            assert(crate::vm::semantics::handed(
                old(self).runtime_of(),
                old(self)@.heap,
                old(self)@.program,
                Raised::Thrown(value),
                old(self)@.threads[idx as int]@,
                exception,
            ));
        }
        let r = self.handle_exception_object(idx, exception);
        proof {
            assert forall|b: MachineView<R::Object, R::Native>|
                b.heap == old(self)@.heap && b.program == old(self)@.program && others_unchanged(b, old(self)@, idx as int)
                    implies #[trigger] raises(
                    old(self).runtime_of(),
                    b,
                    self@,
                    idx as int,
                    old(self)@.threads[idx as int]@,
                    Raised::Thrown(value),
                    r.kind(),
                ) by {
                lemma_raises_from(old(self).runtime_of(), b, old(self)@, self@, idx as int, old(self)@.threads[idx as int]@, Raised::Thrown(value), r.kind());
            }
        }
        r
    }
}


impl<R: Runtime> Gvm<R> {
    /// The kind of the registered type named `tname` and whether it supports
    /// `op`, if the type is registered.
    fn type_of(&self, tname: &str, op: Operation) -> (r: Option<(TypeKind, bool)>)
        ensures
            match r {
                Some((kind, ok)) => crate::vm::semantics::kind_of(self@.program, tname@) == Some(kind) && ok
                    == type_supports(self@.program.types, tname@, op),
                None => crate::vm::semantics::kind_of(self@.program, tname@) is None && !type_supports(
                    self@.program.types,
                    tname@,
                    op,
                ),
            },
    {
        match self.context.program.find_type(tname) {
            Some(ti) => Some((ti.kind, ti.supports_operation(op))),
            None => None,
        }
    }

    /// A type of kind `kind` performs `op` on `this` (and `other`); the
    /// result is pushed on thread `idx`.
    fn perform_op(&mut self, idx: usize, kind: TypeKind, op: Operation, this: Value, other: Option<Value>) -> (r: Step)
        requires
            old(self).wf(),
            idx < old(self)@.threads.len(),
        ensures
            final(self).wf(),
            final(self).is_debug() == old(self).is_debug(),
            final(self).collected_last() == old(self).collected_last(),
            kind == TypeKind::Custom ==> exists|c: &mut VmTypeContext<R::Object, R::Native>, v: Value|
                #![trigger call_ensures(R::perform, (&old(self).runtime_of(), c, op, &this, crate::vm::semantics::operand_ref(other)), v)]
                crate::vm::semantics::custom_performed(old(self).runtime_of(), old(self)@.heap, old(self)@.program, final(self)@.heap, final(self)@.program, op, this, other, c, *final(c), v),
            performs(old(self).runtime_of(), old(self)@,
                final(self)@,
                idx as int,
                old(self)@.threads[idx as int]@,
                kind,
                op,
                this,
                other,
                r.kind(),
            ),
    {
        let v = match kind {
            TypeKind::Custom => {
                let r = self.runtime.perform(&mut self.context, op, &this, other.as_ref());
                assert(exists|c: &mut VmTypeContext<R::Object, R::Native>, v: Value|
                    #![trigger call_ensures(R::perform, (&old(self).runtime_of(), c, op, &this, crate::vm::semantics::operand_ref(other)), v)]
                    call_ensures(R::perform, (&old(self).runtime_of(), c, op, &this, crate::vm::semantics::operand_ref(other)), v));
                self.threads[idx].stack_push(r);
                return Step::Continue;
            },
            TypeKind::Undefined => {
                if op != Operation::Eql {
                    return Step::Fault(owned("the undefined type only supports equality"));
                }
                UndefinedType.perform(op, &this, other.as_ref())
            },
            TypeKind::Boolean => {
                if !(op == Operation::Not || ((op == Operation::And || op == Operation::Or || op
                    == Operation::Eql) && other.is_some())) {
                    return Step::Fault(owned("the boolean type does not support this operation"));
                }
                BooleanType.perform(op, &this, other.as_ref())
            },
            TypeKind::Function => {
                if op == Operation::Eql && other.is_none() {
                    return Step::Fault(owned("equality needs a second operand"));
                }
                FunctionType.perform(op, &this, other.as_ref())
            },
        };
        self.threads[idx].stack_push(v);
        Step::Continue
    }

    /// A binary operation (`arity` 2) or `NOT` (`arity` 1) on thread `idx`.
    fn exec_operation(&mut self, idx: usize, op: Operation, arity: usize) -> (r: Step)
        requires
            old(self).wf(),
            idx < old(self)@.threads.len(),
            arity == 1 || arity == 2,
        ensures
            final(self).wf(),
            final(self).is_debug() == old(self).is_debug(),
            final(self).collected_last() == old(self).collected_last(),
            (old(self)@.threads[idx as int]@.stack.len() >= arity && old(self)@.threads[idx as int]@.stack[old(self)@.threads[idx as int]@.stack.len() - arity].type_.operations.allows(op) && old(self)@.threads[idx as int]@.stack[old(self)@.threads[idx as int]@.stack.len() - arity].type_.kind == TypeKind::Custom) ==> exists|c: &mut VmTypeContext<R::Object, R::Native>, v: Value|
                #![trigger call_ensures(R::perform, (&old(self).runtime_of(), c, op, &old(self)@.threads[idx as int]@.stack[old(self)@.threads[idx as int]@.stack.len() - arity], crate::vm::semantics::operand_ref(crate::vm::semantics::second_operand(old(self)@.threads[idx as int]@.stack, arity as int))), v)]
                crate::vm::semantics::custom_performed(old(self).runtime_of(), old(self)@.heap, old(self)@.program, final(self)@.heap, final(self)@.program, op, old(self)@.threads[idx as int]@.stack[old(self)@.threads[idx as int]@.stack.len() - arity], crate::vm::semantics::second_operand(old(self)@.threads[idx as int]@.stack, arity as int), c, *final(c), v),
            crate::vm::semantics::operation_spec(old(self).runtime_of(), old(self)@,
                final(self)@,
                idx as int,
                old(self)@.threads[idx as int]@,
                op,
                arity as int,
                r.kind(),
            ),
    {
        let ghost s = old(self)@.threads[idx as int]@.stack;
        if self.threads[idx].stack.len() < arity {
            return Step::Fault(owned("operand stack underflow"));
        }
        let other = if arity == 2 {
            Some(self.threads[idx].stack_pop())
        } else {
            None
        };
        let first = self.threads[idx].stack_pop();
        assert(self@.threads[idx as int]@.stack =~= s.take(s.len() - arity));
        proof {
            assert(other == crate::vm::semantics::second_operand(s, arity as int));
            assert(first == s[s.len() - arity]);
        }
        if first.type_.operations.permits(op) {
            let kind = first.type_.kind;
            let ghost m = self@;
            let ghost gf = first;
            let ghost go = other;
            let ghost rt = self.runtime_of();
            assert(rt == old(self).runtime_of());
            let r = self.perform_op(idx, kind, op, first, other);
            proof {
                if kind == TypeKind::Custom {
                    assert(exists|c: &mut VmTypeContext<R::Object, R::Native>, v: Value|
                        #![trigger call_ensures(R::perform, (&rt, c, op, &gf, crate::vm::semantics::operand_ref(go)), v)]
                        crate::vm::semantics::custom_performed(rt, m.heap, m.program, self@.heap, self@.program, op, gf, go, c, *final(c), v));
                }
            }
            r
        } else {
            let msg = crate::vm::messages::unsupported_message(
                first.type_.name.as_str(),
                crate::vm::messages::operation_name(op),
            );
            self.raise_message(idx, msg)
        }
    }

    /// `NEW tname` on thread `idx`.
    fn exec_new(&mut self, idx: usize, tname: String) -> (r: Step)
        requires
            old(self).wf(),
            idx < old(self)@.threads.len(),
        ensures
            final(self).wf(),
            final(self).is_debug() == old(self).is_debug(),
            final(self).collected_last() == old(self).collected_last(),
            crate::vm::semantics::custom_operation(old(self)@.program, old(self)@.threads[idx as int]@, crate::vm::instruction::Decoded::New(tname@)) is Some ==> exists|u: Value, c: &mut VmTypeContext<R::Object, R::Native>, v: Value|
                #![trigger call_ensures(R::perform, (&old(self).runtime_of(), c, Operation::New, &u, crate::vm::semantics::operand_ref(None::<Value>)), v)]
                crate::vm::types::plain_value(u, 0, TypeKind::Undefined) && crate::vm::semantics::custom_performed(old(self).runtime_of(), old(self)@.heap, old(self)@.program, final(self)@.heap, final(self)@.program, Operation::New, u, None::<Value>, c, *final(c), v),
            crate::vm::semantics::new_spec(old(self).runtime_of(), old(self)@,
                final(self)@,
                idx as int,
                old(self)@.threads[idx as int]@,
                tname@,
                r.kind(),
            ),
    {
        match self.type_of(tname.as_str(), Operation::New) {
            None => Step::Fault(owned("unknown type")),
            Some((kind, supported)) => {
                if supported {
                    self.perform_op(idx, kind, Operation::New, Value::undefined(), None)
                } else {
                    let msg = crate::vm::messages::unsupported_message(tname.as_str(), "NEW");
                    self.raise_message(idx, msg)
                }
            },
        }
    }

    /// `INVOKE argc` on thread `idx`.
    fn exec_invoke(&mut self, idx: usize, argc: i32) -> (r: Step)
        requires
            old(self).wf(),
            idx < old(self)@.threads.len(),
        ensures
            final(self).wf(),
            final(self).is_debug() == old(self).is_debug(),
            final(self).collected_last() == old(self).collected_last(),
            crate::vm::semantics::invoke_spec(old(self).runtime_of(), old(self)@,
                final(self)@,
                idx as int,
                old(self)@.threads[idx as int]@,
                argc,
                r.kind(),
            ),
    {
        if self.threads[idx].stack.len() == 0 {
            return Step::Fault(owned("operand stack underflow"));
        }
        let caller = self.threads[idx].function_pointer;
        let callee = self.threads[idx].stack_pop();
        if !callee.type_.operations.permits(Operation::Invoke) {
            let msg = crate::vm::messages::invoke_unsupported_message(callee.type_.name.as_str());
            return self.raise_message(idx, msg);
        }
        self.threads[idx].function_pointer = callee.value;
        let (pcount, fits) = match self.context.program.get_function(callee.value) {
            None => return Step::Fault(owned("the called function does not exist")),
            Some(f) => {
                let pc = f.parameters().len();
                let m = self.threads[idx].stack.len();
                (pc, m >= pc && m - pc >= 1 && m - pc <= 2147483647usize && f.bytecode().capacity() > 0)
            },
        };
        if pcount > 2147483647usize {
            return Step::Fault(owned("too many parameters"));
        }
        if argc != pcount as i32 {
            let msg = crate::vm::messages::argument_count_message(callee.value, pcount as i32, argc);
            return self.raise_message(idx, msg);
        }
        if !fits {
            return Step::Fault(owned("operand stack underflow"));
        }
        proof {
            self.context.program.lemma_function_wf(callee.value);
        }
        self.threads[idx].enter(self.context.program.get_function(callee.value).unwrap(), caller, callee.value);
        Step::Continue
    }
}


/// An exception raised from machine `m` is raised from any machine `b`
/// that differs from `m` only in thread `idx`.
proof fn lemma_raises_from<O: GvmObject, N, RT: Runtime<Object = O, Native = N>>(
    rt: RT,
    b: MachineView<O, N>,
    m: MachineView<O, N>,
    a: MachineView<O, N>,
    idx: int,
    t: crate::vm::thread::ThreadView,
    what: crate::vm::semantics::Raised,
    r: StepKind,
)
    requires
        b.heap == m.heap,
        b.program == m.program,
        others_unchanged(b, m, idx),
        raises(rt, m, a, idx, t, what, r),
    ensures
        raises(rt, b, a, idx, t, what, r),
{
    let e = choose|e: Value|
        {
            &&& #[trigger] crate::vm::semantics::handed(rt, m.heap, m.program, what, t, e)
            &&& unwind(t, a.program) is Caught ==> a.threads[idx]@.stack.last() == e
            &&& r matches StepKind::Unhandled(msg) ==> unhandled_message_of(a.heap, a.program, e, msg)
        };
    assert(crate::vm::semantics::handed(rt, b.heap, b.program, what, t, e));
}

/// Whether a native call is described from machine `m` or from `b` makes
/// no difference when the two differ only in thread `idx`.
proof fn lemma_native_called_transfer<O: GvmObject, N, RT: Runtime<Object = O, Native = N>>(
    rt: RT,
    m: MachineView<O, N>,
    b: MachineView<O, N>,
    a: MachineView<O, N>,
    idx: int,
    t: crate::vm::thread::ThreadView,
    r: StepKind,
    ran: bool,
)
    requires
        m.heap == b.heap,
        m.program == b.program,
        m.threshold == b.threshold,
        m.running == b.running,
        m.threads.len() == b.threads.len(),
        forall|j: int| 0 <= j < b.threads.len() && j != idx ==> m.threads[j] == b.threads[j],
    ensures
        forall|
            argc: i32,
            args: Vec<Value>,
            c: &mut VmTypeContext<O, N>,
            after: VmTypeContext<O, N>,
            res: Result<Value, String>,
        |
            #[trigger] crate::vm::semantics::native_called(rt, m, a, idx, t, argc, args, c, after, res, r, false, ran)
                == crate::vm::semantics::native_called(rt, b, a, idx, t, argc, args, c, after, res, r, false, ran),
{
    assert forall|
        argc: i32,
        args: Vec<Value>,
        c: &mut VmTypeContext<O, N>,
        after: VmTypeContext<O, N>,
        res: Result<Value, String>,
    |
        crate::vm::semantics::native_called(rt, m, a, idx, t, argc, args, c, after, res, r, false, ran)
            == crate::vm::semantics::native_called(rt, b, a, idx, t, argc, args, c, after, res, r, false, ran)
        by {
        let merged = crate::vm::semantics::merged_natives(b.program, after.program_state());
        let xm = MachineView { heap: after.heap_state(), program: merged, ..m };
        let xb = MachineView { heap: after.heap_state(), program: merged, ..b };
        assert(others_unchanged(xm, a, idx) == others_unchanged(xb, a, idx));
    }
}

proof fn lemma_program_grows_trans<N>(x: ProgramView<N>, y: ProgramView<N>, z: ProgramView<N>)
    requires
        program_grows(x, y),
        program_grows(y, z),
    ensures
        program_grows(x, z),
{
    assert(x.functions.submap_of(z.functions)) by {
        assert forall|k: i32| #[trigger] x.functions.contains_key(k) implies z.functions.contains_key(k)
            && z.functions[k] == x.functions[k] by {
            assert(x.functions.dom().contains(k) && y.functions.dom().contains(k));
            assert(y.functions.dom().contains(k) && z.functions.dom().contains(k));
        }
    }
    assert(x.strings =~= z.strings.subrange(0, x.strings.len() as int)) by {
        assert(x.strings =~= y.strings.subrange(0, x.strings.len() as int));
        assert(y.strings =~= z.strings.subrange(0, y.strings.len() as int));
    }
    assert(x.natives =~= z.natives.subrange(0, x.natives.len() as int)) by {
        assert(x.natives =~= y.natives.subrange(0, x.natives.len() as int));
        assert(y.natives =~= z.natives.subrange(0, y.natives.len() as int));
    }
}

proof fn lemma_heap_grows_trans<O>(x: HeapView<O>, y: HeapView<O>, z: HeapView<O>)
    requires
        heap_grows(x, y),
        heap_grows(y, z),
    ensures
        heap_grows(x, z),
{
}

impl<R: Runtime> Gvm<R> {
    /// `RETURN` on thread `idx`.
    fn exec_return(&mut self, idx: usize) -> (r: Step)
        requires
            old(self).wf(),
            idx < old(self)@.threads.len(),
        ensures
            final(self).wf(),
            final(self).is_debug() == old(self).is_debug(),
            r.kind() == StepKind::Continue ==> final(self).collected_last() == (old(self)@.heap.objects.len()
                >= old(self)@.threshold),
            r.kind() != StepKind::Continue ==> final(self).collected_last() == old(self).collected_last(),
            crate::vm::semantics::return_spec(
                old(self)@,
                final(self)@,
                idx as int,
                old(self)@.threads[idx as int]@,
                r.kind(),
            ),
    {
        let ghost t = old(self)@.threads[idx as int]@;
        let n = self.threads[idx].stack.len();
        if n == 0 {
            return Step::Fault(owned("operand stack underflow"));
        }
        let fp = self.threads[idx].function_pointer;
        let (lc, pc) = match self.context.program.get_function(fp) {
            None => return Step::Fault(owned("the current function does not exist")),
            Some(f) => (f.locals().len(), f.parameters().len()),
        };
        if pc >= n || lc >= n - 1 - pc {
            return Step::Fault(owned("operand stack underflow"));
        }
        let k = lc + pc + 1;
        let frames = self.threads[idx].call_stack.len();
        if frames == 0 {
            return Step::Fault(owned("call stack underflow"));
        }
        let fr_pc = self.threads[idx].call_stack[frames - 1].program_counter;
        let fr_fn = self.threads[idx].call_stack[frames - 1].calling_function;
        let fr_fp = self.threads[idx].call_stack[frames - 1].frame_pointer;
        let fr_line = self.threads[idx].call_stack[frames - 1].line_number;
        let fr_loc = self.threads[idx].call_stack[frames - 1].location;
        let code = match self.context.program.get_function(fr_fn) {
            None => return Step::Fault(owned("the function to return to does not exist")),
            Some(f) => {
                if fr_pc < 0 || (fr_pc as usize) >= f.bytecode().capacity() {
                    return Step::Fault(owned("the position to return to lies outside the bytecode"));
                }
                let mut code = f.bytecode().clone();
                code.seek(fr_pc);
                code
            },
        };
        let v = self.threads[idx].stack_pop();
        self.threads[idx].stack.truncate(n - 1 - k);
        self.threads[idx].call_stack.pop();
        self.threads[idx].debug_line_number = fr_line;
        self.threads[idx].function_pointer = fr_fn;
        self.threads[idx].frame_pointer = fr_fp;
        self.threads[idx].location = fr_loc;
        self.threads[idx].bytecode = code;
        self.threads[idx].stack_push(v);
        assert(self@.threads[idx as int]@.stack =~= t.stack.take(n - 1 - k).push(t.stack.last()));
        self.gc_ran = self.gc.collect(&mut self.context.heap, self.threads.as_slice());
        Step::Continue
    }

    /// `PUT` on thread `idx`.
    fn exec_put(&mut self, idx: usize) -> (r: Step)
        requires
            old(self).wf(),
            idx < old(self)@.threads.len(),
        ensures
            final(self).wf(),
            final(self).is_debug() == old(self).is_debug(),
            final(self).collected_last() == old(self).collected_last(),
            crate::vm::semantics::put_spec(
                old(self)@,
                final(self)@,
                idx as int,
                old(self)@.threads[idx as int]@,
                r.kind(),
            ),
            ({
                let pf = put_field(old(self)@.threads[idx as int]@);
                (pf is Some && old(self)@.heap.objects.contains_key(pf.unwrap().0)) ==> exists|
                    m: &mut R::Object,
                    fs: &str,
                |
                    {
                        &&& fs@ == pf.unwrap().1
                        &&& *m == old(self)@.heap.objects[pf.unwrap().0]
                        &&& *final(m) == final(self)@.heap.objects[pf.unwrap().0]
                        &&& call_ensures(R::Object::set_value, (m, fs, pf.unwrap().2), ())
                    }
            }),
    {
        if self.threads[idx].stack.len() < 2 {
            return Step::Fault(owned("operand stack underflow"));
        }
        let target = self.threads[idx].stack_pop();
        let value = self.threads[idx].stack_peek();
        let stored = Value::new(value.value, value.type_.clone());
        match &target.source {
            crate::vm::types::ValueSource::Stack(i) => {
                if *i >= self.threads[idx].stack.len() {
                    return Step::Fault(owned("store outside the operand stack"));
                }
                self.threads[idx].stack_set(*i, stored);
            },
            crate::vm::types::ValueSource::HeapField(o, f) => {
                let ghost h0 = self@.heap;
                let fs = f.as_str();
                let ghost sv = stored;
                set_field(&mut self.context.heap, *o, fs, stored);
                proof {
                    let pf = put_field(old(self)@.threads[idx as int]@);
                    assert(pf is Some);
                    assert(pf.unwrap().0 == *o);
                    assert(pf.unwrap().1 == fs@);
                    assert(pf.unwrap().2 == sv);
                    assert(h0 == old(self)@.heap);
                }
            },
            crate::vm::types::ValueSource::Nowhere => {},
        }
        Step::Continue
    }

    /// `GET` on thread `idx`.
    fn exec_get(&mut self, idx: usize) -> (r: Step)
        requires
            old(self).wf(),
            idx < old(self)@.threads.len(),
        ensures
            final(self).wf(),
            final(self).is_debug() == old(self).is_debug(),
            final(self).collected_last() == old(self).collected_last(),
            (old(self)@.threads[idx as int]@.stack.len() >= 2 && old(self)@.threads[idx as int]@.stack[old(self)@.threads[idx as int]@.stack.len() - 2].type_.operations.allows(Operation::Get) && old(self)@.threads[idx as int]@.stack[old(self)@.threads[idx as int]@.stack.len() - 2].type_.kind == TypeKind::Custom) ==> exists|c: &mut VmTypeContext<R::Object, R::Native>, v: Value|
                #![trigger call_ensures(R::perform, (&old(self).runtime_of(), c, Operation::Get, &old(self)@.threads[idx as int]@.stack[old(self)@.threads[idx as int]@.stack.len() - 2], crate::vm::semantics::operand_ref(Some(old(self)@.threads[idx as int]@.stack[old(self)@.threads[idx as int]@.stack.len() - 1]))), v)]
                crate::vm::semantics::custom_performed(old(self).runtime_of(), old(self)@.heap, old(self)@.program, final(self)@.heap, final(self)@.program, Operation::Get, old(self)@.threads[idx as int]@.stack[old(self)@.threads[idx as int]@.stack.len() - 2], Some(old(self)@.threads[idx as int]@.stack[old(self)@.threads[idx as int]@.stack.len() - 1]), c, *final(c), v),
            crate::vm::semantics::get_spec(old(self).runtime_of(), old(self)@,
                final(self)@,
                idx as int,
                old(self)@.threads[idx as int]@,
                r.kind(),
            ),
    {
        let ghost s = old(self)@.threads[idx as int]@.stack;
        if self.threads[idx].stack.len() < 2 {
            return Step::Fault(owned("operand stack underflow"));
        }
        let name = self.threads[idx].stack_pop();
        let target = self.threads[idx].stack_pop();
        assert(self@.threads[idx as int]@.stack =~= s.take(s.len() - 2));
        if !target.type_.operations.permits(Operation::Get) {
            let msg = crate::vm::messages::get_unsupported_message(
                &target,
                self.threads[idx].bytecode.get_pointer_position(),
                self.threads[idx].function_pointer,
            );
            return self.raise_message(idx, msg);
        }
        let kind = target.type_.kind;
        let field: Option<String> = if crate::text::str_eq(name.type_.name.as_str(), "String") {
            match self.context.program.get_string(name.value) {
                Some(f) => Some(owned(f)),
                None => None,
            }
        } else {
            Some(crate::text::int_to_string(name.value))
        };
        let mut v = match kind {
            TypeKind::Custom => self.runtime.perform(&mut self.context, Operation::Get, &target, Some(&name)),
            TypeKind::Function => FunctionType.perform(Operation::Get, &target, Some(&name)),
            _ => return Step::Fault(owned("a built-in type reported field access it does not have")),
        };
        let ghost w = v;
        proof {
            if kind == TypeKind::Custom {
                assert(crate::vm::semantics::runtime_performed(
                    old(self).runtime_of(),
                    old(self)@,
                    Operation::Get,
                    target,
                    Some(name),
                    w,
                ));
            }
        }
        match field {
            Some(f) => {
                v.source = crate::vm::types::ValueSource::HeapField(target.value, f);
            },
            None => {},
        }
        self.threads[idx].stack_push(v);
        Step::Continue
    }

    /// `GETDYNAMIC` on thread `idx`.
    fn exec_get_dynamic(&mut self, idx: usize) -> (r: Step)
        requires
            old(self).wf(),
            idx < old(self)@.threads.len(),
        ensures
            final(self).wf(),
            final(self).is_debug() == old(self).is_debug(),
            final(self).collected_last() == old(self).collected_last(),
            crate::vm::semantics::get_dynamic_spec(
                old(self)@,
                final(self)@,
                idx as int,
                old(self)@.threads[idx as int]@,
                r.kind(),
            ),
    {
        if self.threads[idx].stack.len() == 0 {
            return Step::Fault(owned("operand stack underflow"));
        }
        let variable = self.threads[idx].stack_pop();
        let name = match self.context.program.get_string(variable.value) {
            Some(s) => owned(s),
            None => return Step::Fault(owned("the variable name is not a string constant")),
        };
        let fs = name.as_str();
        let ghost frames = self.threads@[idx as int].call_stack@;
        let ghost h = self@.heap;
        let mut found: Option<Value> = None;
        let mut source: Option<i32> = None;
        let ghost mut at: int = 0;
        let mut j: usize = 0;
        let count = self.threads[idx].call_stack.len();
        while j < count
            invariant_except_break
                found is None,
                source is None,
                forall|jj: int| 0 <= jj < j ==> #[trigger] crate::vm::semantics::scope_lacks(h, frames, fs, jj),
            invariant
                j <= count,
                count == frames.len(),
                frames == self.threads@[idx as int].call_stack@,
                h == self@.heap,
                idx < self.threads@.len(),
                fs@ == name@,
            ensures
                (found is None && source is None && j == count && forall|jj: int|
                    0 <= jj < count ==> #[trigger] crate::vm::semantics::scope_lacks(h, frames, fs, jj))
                    || (source matches Some(sc) && 0 <= at < count && sc == frames[at].scope.value
                    && crate::vm::semantics::looked_up(h, frames, fs, at, found)),
            decreases count - j,
        {
            let scope = self.threads[idx].call_stack[j].scope.value;
            assert(frames[j as int].scope.value == scope);
            match self.context.heap.get_object(scope) {
                Some(obj) => {
                    if obj.has_value(fs) {
                        found = obj.get_value(fs);
                        source = Some(scope);
                        proof {
                            at = j as int;
                        }
                        break;
                    }
                },
                None => {},
            }
            j = j + 1;
        }
        if found.is_none() && source.is_none() && count > 0 {
            let last = self.threads[idx].call_stack[count - 1].scope.value;
            assert(frames[count - 1].scope.value == last);
            source = Some(last);
            found = match self.context.heap.get_object(last) {
                Some(obj) => obj.get_value(fs),
                None => None,
            };
            proof {
                at = count - 1;
                assert(crate::vm::semantics::scope_lacks(h, frames, fs, count - 1));
                assert(crate::vm::semantics::looked_up(h, frames, fs, at, found));
            }
        }
        let ghost w = found;
        let mut v = match found {
            Some(v) => v,
            None => Value::undefined(),
        };
        let ghost v0 = v;
        match source {
            Some(sc) => {
                v.source = crate::vm::types::ValueSource::HeapField(sc, name);
            },
            None => {},
        }
        proof {
            if count > 0 {
                assert(source is Some);
                assert(crate::vm::semantics::looked_up(h, frames, fs, at, w));
                assert(v.value == v0.value && v.type_ == v0.type_ && v.comment == v0.comment);
            }
        }
        let ghost vv = v;
        self.threads[idx].stack_push(v);
        proof {
            let t = old(self)@.threads[idx as int]@;
            let u = self@.threads[idx as int]@;
            assert(u.stack.last() == vv);
            if t.call_stack.len() > 0 {
                assert(t.call_stack == frames);
                assert(old(self)@.heap == h);
                assert(crate::vm::semantics::looked_up(old(self)@.heap, t.call_stack, fs, at, w));
                assert(vv.source matches crate::vm::types::ValueSource::HeapField(o, f) && o == t.call_stack[at].scope.value);
            }
        }
        Step::Continue
    }
}


impl<R: Runtime> Gvm<R> {
    /// `NATIVE` on thread `idx`.
    fn exec_native(&mut self, idx: usize) -> (r: Step)
        requires
            old(self).wf(),
            idx < old(self)@.threads.len(),
        ensures
            final(self).wf(),
            final(self).is_debug() == old(self).is_debug(),
            crate::vm::semantics::native_target(old(self)@.program, old(self)@.threads[idx as int]@) is None
                ==> final(self).collected_last() == old(self).collected_last(),
            crate::vm::semantics::native_spec(old(self).runtime_of(), old(self)@,
                final(self)@,
                idx as int,
                old(self)@.threads[idx as int]@,
                r.kind(),
            ),
            crate::vm::semantics::native_target(old(self)@.program, old(self)@.threads[idx as int]@) is Some
                ==> r.kind() == StepKind::Fault || exists|
                argc: i32,
                args: Vec<Value>,
                c: &mut VmTypeContext<R::Object, R::Native>,
                res: Result<Value, String>,
            |
                #![trigger call_ensures(R::argument_count, (&old(self).runtime_of(), &crate::vm::semantics::native_target(old(self)@.program, old(self)@.threads[idx as int]@).unwrap()), argc), call_ensures(R::invoke, (&old(self).runtime_of(), &crate::vm::semantics::native_target(old(self)@.program, old(self)@.threads[idx as int]@).unwrap(), args, c), res)]
                crate::vm::semantics::native_called(
                    old(self).runtime_of(),
                    old(self)@,
                    final(self)@,
                    idx as int,
                    old(self)@.threads[idx as int]@,
                    argc,
                    args,
                    c,
                    *final(c),
                    res,
                    r.kind(),
                    old(self).collected_last(),
                    final(self).collected_last(),
                ),
    {
        let ghost b = old(self)@;
        let ghost s = b.threads[idx as int]@.stack;
        if self.threads[idx].stack.len() == 0 {
            return Step::Fault(owned("operand stack underflow"));
        }
        let arg = self.threads[idx].stack_pop();
        assert(self@.threads[idx as int]@.stack =~= s.drop_last());
        if !arg.type_.operations.permits(Operation::Invoke) {
            let msg = crate::vm::messages::native_unsupported_message(arg.type_.name.as_str());
            return self.raise_message(idx, msg);
        }
        if arg.value < 0 || (arg.value as usize) >= self.context.program.native_wrappers().len() {
            return Step::Fault(owned("no native method with this index"));
        }
        let wrapper_idx = arg.value as usize;
        let argc = self.runtime.argument_count(&self.context.program.native_wrappers()[wrapper_idx]);
        let m = self.threads[idx].stack.len();
        let k: usize = if argc > 0 {
            argc as usize
        } else {
            0
        };
        if k > m {
            return Step::Fault(owned("operand stack underflow"));
        }
        let args = self.threads[idx].pop_values(k);
        let ghost ga = args;
        proof {
            assert(ga@ =~= crate::vm::semantics::popped(s.drop_last(), k as int));
        }
        let ghost t3 = self@.threads[idx as int]@;
        let ghost m1 = self@;
        let mut natives: Vec<R::Native> = Vec::new();
        std::mem::swap(&mut natives, self.context.program.native_wrappers_mut());
        let offset = natives.len() as i32;
        self.context.native_wrapper_offset = offset;
        assert(self.context.program_state() =~= (ProgramView { natives: Seq::empty(), ..b.program }));
        assert(crate::vm::semantics::native_context(self.context, b));
        let result = self.runtime.invoke(&natives[wrapper_idx], args, &mut self.context);
        let ghost gres = result;
        let ghost after = self.context;
        self.context.native_wrapper_offset = 0;
        let mut added: Vec<R::Native> = Vec::new();
        std::mem::swap(&mut added, self.context.program.native_wrappers_mut());
        natives.append(&mut added);
        self.context.program.set_natives(natives);
        let ghost m2 = self@;
        proof {
            assert(m2.program == crate::vm::semantics::merged_natives(b.program, after.program_state()));
            assert(m2.heap == after.heap_state());
            assert(m1.program.natives.is_prefix_of(m2.program.natives));
            assert(program_grows(m1.program, m2.program));
            assert(heap_grows(m1.heap, m2.heap));
        }
        match result {
            Ok(v) => {
                self.threads[idx].stack_push(v);
                let ghost h = self@.heap;
                self.gc_ran = self.gc.collect(&mut self.context.heap, self.threads.as_slice());
                proof {
                    assert(crate::vm::semantics::collected(h, self@.heap, b.threshold, self@.threshold, self@.threads));
                    assert(heap_grows(b.heap, h));
                    assert(crate::vm::semantics::native_returned(
                        old(self).runtime_of(),
                        b,
                        self@,
                        idx as int,
                        crate::vm::semantics::with_stack(b.threads[idx as int]@, s.drop_last()),
                        b.program.natives[wrapper_idx as int],
                        k as int,
                        StepKind::Continue,
                    ));
                }
                Step::Continue
            },
            Err(msg) => {
                let ghost gm = msg@;
                let r = self.raise_message(idx, msg);
                proof {
                    assert(crate::vm::semantics::runtime_ran(b, m2));
                    assert(others_unchanged(b, m2, idx as int));
                    let t2 = crate::vm::semantics::with_stack(b.threads[idx as int]@, s.drop_last());
                    let t3s = crate::vm::semantics::with_stack(t2, t2.stack.take(t2.stack.len() - k));
                    assert(t3.stack =~= t3s.stack);
                    assert(t3 == t3s);
                    assert(raises(old(self).runtime_of(), m2, self@, idx as int, t3s, Raised::Message(gm), r.kind()));
                    lemma_program_grows_trans(b.program, m2.program, self@.program);
                    lemma_heap_grows_trans(b.heap, m2.heap, self@.heap);
                    assert(crate::vm::semantics::native_returned(
                        old(self).runtime_of(),
                        b,
                        self@,
                        idx as int,
                        crate::vm::semantics::with_stack(b.threads[idx as int]@, s.drop_last()),
                        b.program.natives[wrapper_idx as int],
                        k as int,
                        r.kind(),
                    ));
                }
                r
            },
        }
    }

    /// `FORK` on thread `idx`.
    fn exec_fork(&mut self, idx: usize) -> (r: Step)
        requires
            old(self).wf(),
            idx < old(self)@.threads.len(),
            old(self)@.threads.len() < usize::MAX,
        ensures
            final(self).wf(),
            final(self).is_debug() == old(self).is_debug(),
            final(self).collected_last() == old(self).collected_last(),
            crate::vm::semantics::fork_spec(
                old(self)@,
                final(self)@,
                idx as int,
                old(self)@.threads[idx as int]@,
                r.kind(),
            ),
    {
        let t = &self.threads[idx];
        let len = t.call_stack.len();
        if len == 0 {
            return Step::Fault(owned("fork without a frame"));
        }
        if self.context.heap.get_object(t.call_stack[len - 1].scope.value).is_none() {
            return Step::Fault(owned("fork of a scope that is not on the heap"));
        }
        if self.context.heap.last_reference() == 2147483647i32 {
            return Step::Fault(owned("no heap reference left"));
        }
        assert(self.threads@[idx as int].wf());
        if t.bytecode.readable() == 0 || t.bytecode.position() > 2147483647usize {
            return Step::Fault(owned("fork at the end of the bytecode"));
        }
        let ghost tv = old(self)@.threads[idx as int]@;
        let child = self.threads[idx].fork(&mut self.context.heap);
        proof {
            let len = tv.call_stack.len() as int;
            let top = tv.call_stack[len - 1];
            let id = (old(self)@.heap.counter + 1) as i32;
            assert(child.call_stack@ =~= tv.call_stack.take(len - 1).push(
                crate::vm::stack_frame::StackFrame { scope: crate::vm::types::new_value(id, top.scope.type_), ..top },
            ));
        }
        self.threads.push(child);
        self.running.push(true);
        let n = self.threads.len() - 1;
        self.threads[idx].stack_push(
            Value::with_comment(0, ValueType::boolean(), owned("Fork return value")),
        );
        self.threads[n].stack_push(
            Value::with_comment(1, ValueType::boolean(), owned("Fork return value")),
        );
        proof {
            let a = self@;
            let b = old(self)@;
            assert(a.threads.len() == b.threads.len() + 1);
            assert(a.running =~= b.running.push(true));
            assert(crate::vm::semantics::pushed_one(tv, a.threads[idx as int]@));
            assert(crate::vm::semantics::fork_flag(a.threads[idx as int]@.stack.last(), 0));
            assert(crate::vm::semantics::fork_flag(a.threads[n as int]@.stack.last(), 1));
            assert(a.heap.valid());
        }
        Step::Continue
    }
}


/// The effect of an instruction depends on the machine only through the
/// other threads, the running flags, the heap and the program.
proof fn lemma_effect_transfer<O: GvmObject, N, RT: Runtime<Object = O, Native = N>>(
    rt: RT,
    m: MachineView<O, N>,
    b: MachineView<O, N>,
    a: MachineView<O, N>,
    idx: int,
    t: crate::vm::thread::ThreadView,
    d: crate::vm::instruction::Decoded,
    r: StepKind,
)
    requires
        0 <= idx < b.threads.len(),
        m.threads.len() == b.threads.len(),
        forall|j: int| 0 <= j < b.threads.len() && j != idx ==> m.threads[j] == b.threads[j],
        m.running == b.running,
        m.heap == b.heap,
        m.program == b.program,
        m.threshold == b.threshold,
        instruction_effect(rt, m, a, idx, t, d, r),
    ensures
        instruction_effect(rt, b, a, idx, t, d, r),
{
    assert(crate::vm::semantics::threads_unchanged(m, a, idx) == crate::vm::semantics::threads_unchanged(b, a, idx));
    assert(others_unchanged(m, a, idx) == others_unchanged(b, a, idx));
    assert forall|u: crate::vm::thread::ThreadView, w: crate::vm::semantics::Raised, rr: StepKind|
        raises(rt, m, a, idx, u, w, rr) == raises(rt, b, a, idx, u, w, rr) by {}
    assert forall|u: crate::vm::thread::ThreadView| moves_to(m, a, idx, u) == moves_to(b, a, idx, u) by {}
    assert forall|op: Operation, this: Value, other: Option<Value>, v: Value|
        crate::vm::semantics::runtime_performed(rt, m, op, this, other, v)
            == crate::vm::semantics::runtime_performed(rt, b, op, this, other, v) by {}
    assert forall|u: crate::vm::thread::ThreadView| pushes_runtime_value(m, a, idx, u) == pushes_runtime_value(b, a, idx, u) by {}
    assert forall|u: crate::vm::thread::ThreadView, v: int, kind: crate::vm::types::TypeKind|
        pushes_plain(m, a, idx, u, v, kind) == pushes_plain(b, a, idx, u, v, kind) by {}
    assert forall|u: crate::vm::thread::ThreadView, v: int, tv: crate::program::program::TypeView|
        crate::vm::semantics::pushes_constant(m, a, idx, u, v, tv)
            == crate::vm::semantics::pushes_constant(b, a, idx, u, v, tv) by {}
    assert forall|u: crate::vm::thread::ThreadView, kind: crate::vm::types::TypeKind, op: Operation, this: Value, other: Option<Value>, rr: StepKind|
        performs(rt, m, a, idx, u, kind, op, this, other, rr) == performs(rt, b, a, idx, u, kind, op, this, other, rr) by {}
    assert forall|u: crate::vm::thread::ThreadView, nat_: N, k: int, rr: StepKind|
        native_returned(rt, m, a, idx, u, nat_, k, rr) == native_returned(rt, b, a, idx, u, nat_, k, rr) by {}
    match d {
        crate::vm::instruction::Decoded::Native => {
            assert(native_spec(rt, m, a, idx, t, r) == native_spec(rt, b, a, idx, t, r));
        },
        crate::vm::instruction::Decoded::Fork => {
            assert(fork_spec(m, a, idx, t, r) == fork_spec(b, a, idx, t, r));
        },
        _ => {},
    }
}

impl<R: Runtime> Gvm<R> {
    /// Executes `instr` on thread `idx`, which is already past it.
    fn execute(&mut self, idx: usize, instr: Instruction) -> (r: Step)
        requires
            old(self).wf(),
            idx < old(self)@.threads.len(),
            old(self)@.threads.len() < usize::MAX,
        ensures
            final(self).wf(),
            final(self).is_debug() == old(self).is_debug(),
            instr@ != crate::vm::instruction::Decoded::Return && instr@ != crate::vm::instruction::Decoded::Native
                ==> final(self).collected_last() == old(self).collected_last(),
            instr@ == crate::vm::instruction::Decoded::Return && r.kind() == StepKind::Continue
                ==> final(self).collected_last() == (old(self)@.heap.objects.len() >= old(self)@.threshold),
            instr@ == crate::vm::instruction::Decoded::Return && r.kind() != StepKind::Continue
                ==> final(self).collected_last() == old(self).collected_last(),
            instr@ == crate::vm::instruction::Decoded::Native && crate::vm::semantics::native_target(old(self)@.program, old(self)@.threads[idx as int]@) is None
                ==> final(self).collected_last() == old(self).collected_last(),
            instruction_effect(old(self).runtime_of(), old(self)@, final(self)@, idx as int, old(self)@.threads[idx as int]@, instr@, r.kind()),
            crate::vm::semantics::custom_operation(old(self)@.program, old(self)@.threads[idx as int]@, instr@) is Some ==> exists|
                this_v: Value,
                other_v: Option<Value>,
                c: &mut VmTypeContext<R::Object, R::Native>,
                v: Value,
            |
                #![trigger call_ensures(R::perform, (&old(self).runtime_of(), c, crate::vm::semantics::custom_operation(old(self)@.program, old(self)@.threads[idx as int]@, instr@).unwrap(), &this_v, crate::vm::semantics::operand_ref(other_v)), v)]
                crate::vm::semantics::custom_operands(old(self)@.threads[idx as int]@, instr@, this_v, other_v)
                    && crate::vm::semantics::custom_performed(old(self).runtime_of(), old(self)@.heap, old(self)@.program, final(self)@.heap, final(self)@.program, crate::vm::semantics::custom_operation(old(self)@.program, old(self)@.threads[idx as int]@, instr@).unwrap(), this_v, other_v, c, *final(c), v),
            instr@ == crate::vm::instruction::Decoded::Native && crate::vm::semantics::native_target(old(self)@.program, old(self)@.threads[idx as int]@) is Some ==> r.kind() == StepKind::Fault || exists|
                argc: i32,
                args: Vec<Value>,
                c: &mut VmTypeContext<R::Object, R::Native>,
                res: Result<Value, String>,
            |
                #![trigger call_ensures(R::argument_count, (&old(self).runtime_of(), &crate::vm::semantics::native_target(old(self)@.program, old(self)@.threads[idx as int]@).unwrap()), argc), call_ensures(R::invoke, (&old(self).runtime_of(), &crate::vm::semantics::native_target(old(self)@.program, old(self)@.threads[idx as int]@).unwrap(), args, c), res)]
                crate::vm::semantics::native_called(
                    old(self).runtime_of(),
                    old(self)@,
                    final(self)@,
                    idx as int,
                    old(self)@.threads[idx as int]@,
                    argc,
                    args,
                    c,
                    *final(c),
                    res,
                    r.kind(),
                    old(self).collected_last(),
                    final(self).collected_last(),
                ),
            ({
                let pf = put_field(old(self)@.threads[idx as int]@);
                (instr@ == crate::vm::instruction::Decoded::Put && pf is Some && old(self)@.heap.objects.contains_key(pf.unwrap().0)) ==> exists|
                    m: &mut R::Object,
                    fs: &str,
                |
                    {
                        &&& fs@ == pf.unwrap().1
                        &&& *m == old(self)@.heap.objects[pf.unwrap().0]
                        &&& *final(m) == final(self)@.heap.objects[pf.unwrap().0]
                        &&& call_ensures(R::Object::set_value, (m, fs, pf.unwrap().2), ())
                    }
            }),
    {
        let ghost t = old(self)@.threads[idx as int]@;
        proof {
            assert(self.threads@[idx as int].wf());
        }
        let ghost d = instr@;
        match instr {
            Instruction::New(tname) => self.exec_new(idx, tname),
            Instruction::Lds(pos) => {
                let n = self.threads[idx].stack.len();
                let fp = self.threads[idx].frame_pointer;
                let i: usize = if pos >= 0 {
                    let a = fp as i64 + pos as i64;
                    if a < 0 || a > 2147483647i64 || (a as usize) >= n {
                        return Step::Fault(owned("load outside the operand stack"));
                    }
                    a as usize
                } else {
                    if n > 2147483647usize {
                        return Step::Fault(owned("operand stack too large"));
                    }
                    let a = n as i64 + pos as i64 - 1;
                    if a < 0 || (a as usize) >= n {
                        return Step::Fault(owned("load outside the operand stack"));
                    }
                    a as usize
                };
                let mut v = self.threads[idx].stack_get(i);
                v.source = crate::vm::types::ValueSource::Stack(i);
                self.threads[idx].stack_push(v);
                Step::Continue
            },
            Instruction::Dup => {
                if self.threads[idx].stack.len() == 0 {
                    return Step::Fault(owned("operand stack underflow"));
                }
                let v = self.threads[idx].stack_peek();
                self.threads[idx].stack_push(v);
                Step::Continue
            },
            Instruction::LdcD(arg, tname) => {
                let vt = match self.context.program.find_type(tname.as_str()) {
                    None => return Step::Fault(owned("unknown type")),
                    Some(info) => ValueType::of(info),
                };
                self.threads[idx].stack_push(Value::new(arg, vt));
                Step::Continue
            },
            Instruction::Invoke(argc) => self.exec_invoke(idx, argc),
            Instruction::Return => self.exec_return(idx),
            Instruction::Put => self.exec_put(idx),
            Instruction::Get => {
                let ghost rt = self.runtime_of();
                let r = self.exec_get(idx);
                proof {
                    let st = t.stack;
                    if crate::vm::semantics::custom_operation(old(self)@.program, t, d) is Some {
                        assert(crate::vm::semantics::custom_operation(old(self)@.program, t, d).unwrap() == Operation::Get);
                        assert(rt == old(self).runtime_of());
                        assert(crate::vm::semantics::custom_operands(t, d, st[st.len() - 2], Some(st[st.len() - 1])));
                    }
                }
                r
            },
            Instruction::GetDynamic => self.exec_get_dynamic(idx),
            Instruction::Halt => {
                self.threads[idx].mark_finished();
                Step::Halted
            },
            Instruction::Binary(op) => {
                let ghost rt = self.runtime_of();
                let r = self.exec_operation(idx, op, 2);
                proof {
                    let st = t.stack;
                    if crate::vm::semantics::custom_operation(old(self)@.program, t, d) is Some {
                        assert(crate::vm::semantics::custom_operation(old(self)@.program, t, d).unwrap() == op);
                        assert(rt == old(self).runtime_of());
                        assert(crate::vm::semantics::second_operand(st, 2) == Some(st[st.len() - 1]));
                        assert(crate::vm::semantics::custom_operands(t, d, st[st.len() - 2], Some(st[st.len() - 1])));
                    }
                }
                r
            },
            Instruction::Not => {
                let ghost rt = self.runtime_of();
                let r = self.exec_operation(idx, Operation::Not, 1);
                proof {
                    let st = t.stack;
                    if crate::vm::semantics::custom_operation(old(self)@.program, t, d) is Some {
                        assert(crate::vm::semantics::custom_operation(old(self)@.program, t, d).unwrap() == Operation::Not);
                        assert(rt == old(self).runtime_of());
                        assert(crate::vm::semantics::second_operand(st, 1) == None::<Value>);
                        assert(crate::vm::semantics::custom_operands(t, d, st[st.len() - 1], None));
                    }
                }
                r
            },
            Instruction::Jmp(p) => {
                if p < 0 || (p as usize) >= self.threads[idx].bytecode.capacity() {
                    return Step::Fault(owned("jump outside the bytecode"));
                }
                self.threads[idx].bytecode.seek(p);
                Step::Continue
            },
            Instruction::Cjmp(p) => {
                if self.threads[idx].stack.len() == 0 {
                    return Step::Fault(owned("operand stack underflow"));
                }
                let cond = self.threads[idx].stack_pop();
                if cond.value > 0 {
                    if p < 0 || (p as usize) >= self.threads[idx].bytecode.capacity() {
                        return Step::Fault(owned("jump outside the bytecode"));
                    }
                    self.threads[idx].bytecode.seek(p);
                }
                Step::Continue
            },
            Instruction::Pop => {
                if self.threads[idx].stack.len() == 0 {
                    return Step::Fault(owned("operand stack underflow"));
                }
                self.threads[idx].stack_pop();
                Step::Continue
            },
            Instruction::Native => self.exec_native(idx),
            Instruction::Throw => {
                if self.threads[idx].stack.len() == 0 {
                    return Step::Fault(owned("operand stack underflow"));
                }
                let v = self.threads[idx].stack_pop();
                self.raise_value(idx, v)
            },
            Instruction::Debug(line, location) => {
                self.threads[idx].debug_line_number = line;
                self.threads[idx].location = location;
                Step::Continue
            },
            Instruction::Breakpoint => Step::Breakpoint(self.threads[idx].debug_line_number),
            Instruction::Fork => self.exec_fork(idx),
            Instruction::Unknown(_) => Step::Continue,
        }
    }

    /// Executes the instruction at the position of thread `idx`. Besides
    /// `step_spec`, the contract gives the context that a native method and
    /// the runtime's `perform` get and how the machine takes over the heap
    /// and the program they leave, whether the collector ran, and the call
    /// that `PUT` makes on a heap object.
    pub fn fetch_and_decode(&mut self, idx: usize) -> (r: Step)
        requires
            old(self).wf(),
            idx < old(self)@.threads.len(),
            old(self)@.threads.len() < usize::MAX,
        ensures
            final(self).wf(),
            final(self).is_debug() == old(self).is_debug(),
            ({
                let t = old(self)@.threads[idx as int]@;
                let dd = decode(t.code.data, t.code.pointer as int);
                final(self).collected_last() ==> dd is Some && ((dd.unwrap().0 == crate::vm::instruction::Decoded::Return
                    && r.kind() == StepKind::Continue) || (dd.unwrap().0 == crate::vm::instruction::Decoded::Native
                    && crate::vm::semantics::native_target(old(self)@.program, crate::vm::semantics::at(t, dd.unwrap().1)) is Some))
            }),
            ({
                let t = old(self)@.threads[idx as int]@;
                let dd = decode(t.code.data, t.code.pointer as int);
                (dd is Some && dd.unwrap().0 == crate::vm::instruction::Decoded::Return && r.kind() == StepKind::Continue)
                    ==> final(self).collected_last() == (old(self)@.heap.objects.len() >= old(self)@.threshold)
            }),
            step_spec(old(self).runtime_of(), old(self)@, final(self)@, idx as int, r.kind()),
            ({
                let t = old(self)@.threads[idx as int]@;
                let dd = decode(t.code.data, t.code.pointer as int);
                dd is Some ==> (crate::vm::semantics::custom_operation(old(self)@.program, crate::vm::semantics::at(t, dd.unwrap().1), dd.unwrap().0) is Some ==> exists|
                        this_v: Value,
                        other_v: Option<Value>,
                        c: &mut VmTypeContext<R::Object, R::Native>,
                        v: Value,
                    |
                        #![trigger call_ensures(R::perform, (&old(self).runtime_of(), c, crate::vm::semantics::custom_operation(old(self)@.program, crate::vm::semantics::at(t, dd.unwrap().1), dd.unwrap().0).unwrap(), &this_v, crate::vm::semantics::operand_ref(other_v)), v)]
                        crate::vm::semantics::custom_operands(crate::vm::semantics::at(t, dd.unwrap().1), dd.unwrap().0, this_v, other_v)
                            && crate::vm::semantics::custom_performed(old(self).runtime_of(), old(self)@.heap, old(self)@.program, final(self)@.heap, final(self)@.program, crate::vm::semantics::custom_operation(old(self)@.program, crate::vm::semantics::at(t, dd.unwrap().1), dd.unwrap().0).unwrap(), this_v, other_v, c, *final(c), v))
            }),
            ({
                let t = old(self)@.threads[idx as int]@;
                let dd = decode(t.code.data, t.code.pointer as int);
                (dd is Some && dd.unwrap().0 == crate::vm::instruction::Decoded::Native && crate::vm::semantics::native_target(old(self)@.program, crate::vm::semantics::at(t, dd.unwrap().1)) is Some) ==> r.kind() == StepKind::Fault || exists|
                    argc: i32,
                    args: Vec<Value>,
                    c: &mut VmTypeContext<R::Object, R::Native>,
                    res: Result<Value, String>,
                |
                    #![trigger call_ensures(R::argument_count, (&old(self).runtime_of(), &crate::vm::semantics::native_target(old(self)@.program, crate::vm::semantics::at(t, dd.unwrap().1)).unwrap()), argc), call_ensures(R::invoke, (&old(self).runtime_of(), &crate::vm::semantics::native_target(old(self)@.program, crate::vm::semantics::at(t, dd.unwrap().1)).unwrap(), args, c), res)]
                    crate::vm::semantics::native_called(
                        old(self).runtime_of(),
                        old(self)@,
                        final(self)@,
                        idx as int,
                        crate::vm::semantics::at(t, dd.unwrap().1),
                        argc,
                        args,
                        c,
                        *final(c),
                        res,
                        r.kind(),
                        false,
                        final(self).collected_last(),
                    )
            }),
            ({
                let t = old(self)@.threads[idx as int]@;
                let pf = put_field(t);
                (decode(t.code.data, t.code.pointer as int) is Some && decode(
                    t.code.data,
                    t.code.pointer as int,
                ).unwrap().0 == crate::vm::instruction::Decoded::Put && pf is Some
                    && old(self)@.heap.objects.contains_key(pf.unwrap().0)) ==> exists|
                    m: &mut R::Object,
                    fs: &str,
                |
                    {
                        &&& fs@ == pf.unwrap().1
                        &&& *m == old(self)@.heap.objects[pf.unwrap().0]
                        &&& *final(m) == final(self)@.heap.objects[pf.unwrap().0]
                        &&& call_ensures(R::Object::set_value, (m, fs, pf.unwrap().2), ())
                    }
            }),
    {
        self.gc_ran = false;
        let ghost b = self@;
        proof {
            assert(self.threads@[idx as int].wf());
        }
        let instr = read_instruction(&mut self.threads[idx].bytecode);
        match instr {
            None => Step::Fault(owned("the bytecode ends inside an instruction")),
            Some(i) => {
                let ghost m = self@;
                let r = self.execute(idx, i);
                proof {
                    lemma_effect_transfer(old(self).runtime_of(), m, b, self@, idx as int, m.threads[idx as int]@, i@, r.kind());
                    lemma_native_called_transfer(old(self).runtime_of(), m, b, self@, idx as int, m.threads[idx as int]@, r.kind(), self.gc_ran);
                }
                r
            },
        }
    }

    /// One scheduled step of thread `idx`: the instruction at its position
    /// is executed, and a thread that does not go on stops running.
    pub fn step(&mut self, idx: usize) -> (r: Step)
        requires
            old(self).wf(),
            idx < old(self)@.threads.len(),
            old(self)@.threads.len() < usize::MAX,
        ensures
            final(self).wf(),
            final(self).is_debug() == old(self).is_debug(),
            ({
                let t = old(self)@.threads[idx as int]@;
                let dd = decode(t.code.data, t.code.pointer as int);
                final(self).collected_last() ==> dd is Some && ((dd.unwrap().0 == crate::vm::instruction::Decoded::Return
                    && r.kind() == StepKind::Continue) || (dd.unwrap().0 == crate::vm::instruction::Decoded::Native
                    && crate::vm::semantics::native_target(old(self)@.program, crate::vm::semantics::at(t, dd.unwrap().1)) is Some))
            }),
            ({
                let t = old(self)@.threads[idx as int]@;
                let dd = decode(t.code.data, t.code.pointer as int);
                (dd is Some && dd.unwrap().0 == crate::vm::instruction::Decoded::Return && r.kind() == StepKind::Continue)
                    ==> final(self).collected_last() == (old(self)@.heap.objects.len() >= old(self)@.threshold)
            }),
            exists|m: MachineView<R::Object, R::Native>|
                {
                    &&& step_spec(old(self).runtime_of(), old(self)@, m, idx as int, r.kind())
                    &&& ({
                        let t = old(self)@.threads[idx as int]@;
                        let dd = decode(t.code.data, t.code.pointer as int);
                        dd is Some ==> (crate::vm::semantics::custom_operation(old(self)@.program, crate::vm::semantics::at(t, dd.unwrap().1), dd.unwrap().0) is Some ==> exists|
                                this_v: Value,
                                other_v: Option<Value>,
                                c: &mut VmTypeContext<R::Object, R::Native>,
                                v: Value,
                            |
                                #![trigger call_ensures(R::perform, (&old(self).runtime_of(), c, crate::vm::semantics::custom_operation(old(self)@.program, crate::vm::semantics::at(t, dd.unwrap().1), dd.unwrap().0).unwrap(), &this_v, crate::vm::semantics::operand_ref(other_v)), v)]
                                crate::vm::semantics::custom_operands(crate::vm::semantics::at(t, dd.unwrap().1), dd.unwrap().0, this_v, other_v)
                                    && crate::vm::semantics::custom_performed(old(self).runtime_of(), old(self)@.heap, old(self)@.program, m.heap, m.program, crate::vm::semantics::custom_operation(old(self)@.program, crate::vm::semantics::at(t, dd.unwrap().1), dd.unwrap().0).unwrap(), this_v, other_v, c, *final(c), v))
                    })
                    &&& ({
                        let t = old(self)@.threads[idx as int]@;
                        let dd = decode(t.code.data, t.code.pointer as int);
                        (dd is Some && dd.unwrap().0 == crate::vm::instruction::Decoded::Native && crate::vm::semantics::native_target(old(self)@.program, crate::vm::semantics::at(t, dd.unwrap().1)) is Some) ==> r.kind() == StepKind::Fault || exists|
                            argc: i32,
                            args: Vec<Value>,
                            c: &mut VmTypeContext<R::Object, R::Native>,
                            res: Result<Value, String>,
                        |
                            #![trigger call_ensures(R::argument_count, (&old(self).runtime_of(), &crate::vm::semantics::native_target(old(self)@.program, crate::vm::semantics::at(t, dd.unwrap().1)).unwrap()), argc), call_ensures(R::invoke, (&old(self).runtime_of(), &crate::vm::semantics::native_target(old(self)@.program, crate::vm::semantics::at(t, dd.unwrap().1)).unwrap(), args, c), res)]
                            crate::vm::semantics::native_called(
                                old(self).runtime_of(),
                                old(self)@,
                                m,
                                idx as int,
                                crate::vm::semantics::at(t, dd.unwrap().1),
                                argc,
                                args,
                                c,
                                *final(c),
                                res,
                                r.kind(),
                                false,
                                final(self).collected_last(),
                            )
                    })
                    &&& final(self)@ == if r.kind() == StepKind::Continue || r.kind() is Breakpoint
                        || idx >= m.threads.len() {
                        m
                    } else {
                        MachineView { running: m.running.update(idx as int, false), ..m }
                    }
                },
            ({
                let t = old(self)@.threads[idx as int]@;
                let pf = put_field(t);
                (decode(t.code.data, t.code.pointer as int) is Some && decode(
                    t.code.data,
                    t.code.pointer as int,
                ).unwrap().0 == crate::vm::instruction::Decoded::Put && pf is Some
                    && old(self)@.heap.objects.contains_key(pf.unwrap().0)) ==> exists|
                    m: &mut R::Object,
                    fs: &str,
                |
                    {
                        &&& fs@ == pf.unwrap().1
                        &&& *m == old(self)@.heap.objects[pf.unwrap().0]
                        &&& *final(m) == final(self)@.heap.objects[pf.unwrap().0]
                        &&& call_ensures(R::Object::set_value, (m, fs, pf.unwrap().2), ())
                    }
            }),
    {
        let r = self.fetch_and_decode(idx);
        let ghost m = self@;
        if !r.continues() && idx < self.threads.len() {
            self.stop(idx);
        }
        r
    }
}


/// The string constant that a field value names, if it is one.
pub open spec fn constant_of(strings: Seq<Seq<char>>, v: Option<Value>) -> Option<Seq<char>> {
    match v {
        Some(x) => if 0 <= x.value < strings.len() {
            Some(strings[x.value as int])
        } else {
            None
        },
        None => None,
    }
}

/// The payload of a field value, if there is one.
pub open spec fn payload_of(v: Option<Value>) -> Option<i32> {
    match v {
        Some(x) => Some(x.value),
        None => None,
    }
}

/// Whether `m` is the message for the exception `e` that no catch block
/// handles: unknown unless `e` refers to a heap object, else built from the
/// values that its `message`, `line` and `location` fields give.
pub open spec fn unhandled_message_of<O: GvmObject, N>(
    heap: HeapView<O>,
    program: ProgramView<N>,
    e: Value,
    m: Seq<char>,
) -> bool {
    if !(e.type_.operations.allows(Operation::Get) && heap.objects.contains_key(e.value)) {
        m == "Unhandled unknown exception"@
    } else {
        let o = heap.objects[e.value];
        exists|mf: &str, mv: Option<Value>, lf: &str, lv: Option<Value>, cf: &str, cv: Option<Value>|
            {
                &&& mf@ == "message"@ && gets_value(o, mf, mv)
                &&& lf@ == "line"@ && gets_value(o, lf, lv)
                &&& cf@ == "location"@ && gets_value(o, cf, cv)
                &&& m == unhandled_text(
                    constant_of(program.strings, mv),
                    payload_of(lv),
                    constant_of(program.strings, cv),
                )
            }
    }
}

/// The name of an opcode in a trace (`???` for an unknown one).
pub open spec fn opcode_text(b: u8) -> Seq<char> {
    if b == NEW {
        "NEW"@
    } else if b == LDS {
        "LDS"@
    } else if b == INVOKE {
        "INVOKE"@
    } else if b == RETURN {
        "RETURN"@
    } else if b == PUT {
        "PUT"@
    } else if b == GET {
        "GET"@
    } else if b == HALT {
        "HALT"@
    } else if b == ADD {
        "ADD"@
    } else if b == SUB {
        "SUB"@
    } else if b == MULT {
        "MULT"@
    } else if b == DIV {
        "DIV"@
    } else if b == AND {
        "AND"@
    } else if b == OR {
        "OR"@
    } else if b == NOT {
        "NOT"@
    } else if b == EQL {
        "EQL"@
    } else if b == GT {
        "GT"@
    } else if b == LT {
        "LT"@
    } else if b == CJMP {
        "CJMP"@
    } else if b == JMP {
        "JMP"@
    } else if b == POP {
        "POP"@
    } else if b == NATIVE {
        "NATIVE"@
    } else if b == DUP {
        "DUP"@
    } else if b == MOD {
        "MOD"@
    } else if b == THROW {
        "THROW"@
    } else if b == DEBUG {
        "DEBUG"@
    } else if b == BREAKPOINT {
        "BREAKPOINT"@
    } else if b == LDC_D {
        "LDC_D"@
    } else if b == GETDYNAMIC {
        "GETDYNAMIC"@
    } else if b == FORK {
        "FORK"@
    } else {
        "???"@
    }
}

/// The name of an opcode in a trace.
pub fn opcode_name(b: u8) -> (r: &'static str)
    ensures
        r@ == opcode_text(b),
{
    if b == NEW {
        "NEW"
    } else if b == LDS {
        "LDS"
    } else if b == INVOKE {
        "INVOKE"
    } else if b == RETURN {
        "RETURN"
    } else if b == PUT {
        "PUT"
    } else if b == GET {
        "GET"
    } else if b == HALT {
        "HALT"
    } else if b == ADD {
        "ADD"
    } else if b == SUB {
        "SUB"
    } else if b == MULT {
        "MULT"
    } else if b == DIV {
        "DIV"
    } else if b == AND {
        "AND"
    } else if b == OR {
        "OR"
    } else if b == NOT {
        "NOT"
    } else if b == EQL {
        "EQL"
    } else if b == GT {
        "GT"
    } else if b == LT {
        "LT"
    } else if b == CJMP {
        "CJMP"
    } else if b == JMP {
        "JMP"
    } else if b == POP {
        "POP"
    } else if b == NATIVE {
        "NATIVE"
    } else if b == DUP {
        "DUP"
    } else if b == MOD {
        "MOD"
    } else if b == THROW {
        "THROW"
    } else if b == DEBUG {
        "DEBUG"
    } else if b == BREAKPOINT {
        "BREAKPOINT"
    } else if b == LDC_D {
        "LDC_D"
    } else if b == GETDYNAMIC {
        "GETDYNAMIC"
    } else if b == FORK {
        "FORK"
    } else {
        "???"
    }
}

/// A stack entry in a trace: `<payload>:<type>`, quoted.
pub open spec fn trace_entry(v: Value) -> Seq<char> {
    debug_text(int_text(v.value as int) + ":"@ + v.type_.name@)
}

/// The trace line of a thread about to execute the opcode `b`: position,
/// function, frame pointer, the opcode's name and the operand stack.
pub open spec fn trace_text(t: crate::vm::thread::ThreadView, b: u8) -> Seq<char> {
    "[pc="@ + int_text((t.code.pointer as i32) as int) + " f="@ + int_text(t.function_pointer as int)
        + " fp="@ + int_text(t.frame_pointer as int) + "] "@ + opcode_text(b) + " | stk=["@ + join_text(
        t.stack.map_values(|v: Value| trace_entry(v)),
        ", "@,
    ) + "]"@
}

/// The name a trace shows for each opcode byte; any other byte shows `???`.
pub proof fn lemma_opcode_names(b: u8)
    ensures
        opcode_text(1u8) == "NEW"@,
        opcode_text(2u8) == "LDS"@,
        opcode_text(8u8) == "INVOKE"@,
        opcode_text(9u8) == "RETURN"@,
        opcode_text(10u8) == "PUT"@,
        opcode_text(11u8) == "GET"@,
        opcode_text(12u8) == "HALT"@,
        opcode_text(14u8) == "ADD"@,
        opcode_text(15u8) == "SUB"@,
        opcode_text(16u8) == "MULT"@,
        opcode_text(17u8) == "DIV"@,
        opcode_text(18u8) == "AND"@,
        opcode_text(19u8) == "OR"@,
        opcode_text(20u8) == "NOT"@,
        opcode_text(21u8) == "EQL"@,
        opcode_text(22u8) == "GT"@,
        opcode_text(23u8) == "LT"@,
        opcode_text(24u8) == "CJMP"@,
        opcode_text(25u8) == "JMP"@,
        opcode_text(27u8) == "POP"@,
        opcode_text(28u8) == "NATIVE"@,
        opcode_text(29u8) == "DUP"@,
        opcode_text(30u8) == "MOD"@,
        opcode_text(31u8) == "THROW"@,
        opcode_text(32u8) == "DEBUG"@,
        opcode_text(33u8) == "BREAKPOINT"@,
        opcode_text(34u8) == "LDC_D"@,
        opcode_text(35u8) == "GETDYNAMIC"@,
        opcode_text(37u8) == "FORK"@,
        !(b == 1u8 || b == 2u8 || b == 8u8 || b == 9u8 || b == 10u8 || b == 11u8 || b == 12u8 || b == 14u8 || b == 15u8 || b == 16u8 || b == 17u8 || b == 18u8 || b == 19u8 || b == 20u8 || b == 21u8 || b == 22u8 || b == 23u8 || b == 24u8 || b == 25u8 || b == 27u8 || b == 28u8 || b == 29u8 || b == 30u8 || b == 31u8 || b == 32u8 || b == 33u8 || b == 34u8 || b == 35u8 || b == 37u8) ==> opcode_text(b) == "???"@,
{
}

/// A trace line starts with the position, then `f=` and the id of the
/// function the thread runs, then `fp=` and its frame pointer, then the name
/// of the opcode.
pub proof fn lemma_trace_fields(t: crate::vm::thread::ThreadView, b: u8)
    ensures
        ({
            let head = "[pc="@ + int_text((t.code.pointer as i32) as int) + " f="@ + int_text(
                t.function_pointer as int,
            ) + " fp="@ + int_text(t.frame_pointer as int) + "] "@ + opcode_text(b);
            trace_text(t, b).take(head.len() as int) == head
        }),
{
    let head = "[pc="@ + int_text((t.code.pointer as i32) as int) + " f="@ + int_text(t.function_pointer as int)
        + " fp="@ + int_text(t.frame_pointer as int) + "] "@ + opcode_text(b);
    let rest = " | stk=["@ + join_text(t.stack.map_values(|v: Value| trace_entry(v)), ", "@) + "]"@;
    assert(trace_text(t, b) =~= head + rest);
    assert((head + rest).take(head.len() as int) =~= head);
}

impl<R: Runtime> Gvm<R> {
    /// The trace line of thread `idx` before its next step; `None` when its
    /// position lies outside its bytecode.
    pub fn trace_line(&self, idx: usize) -> (r: Option<String>)
        requires
            self.wf(),
            idx < self@.threads.len(),
        ensures
            ({
                let t = self@.threads[idx as int]@;
                if t.code.pointer < t.code.data.len() {
                    r matches Some(l) && l@ == trace_text(t, t.code.data[t.code.pointer as int])
                } else {
                    r is None
                }
            }),
    {
        let t = &self.threads[idx];
        assert(self.threads@[idx as int].wf());
        if t.bytecode.readable() == 0 {
            return None;
        }
        let b = t.bytecode.peek_byte();
        let mut entries: Vec<String> = Vec::new();
        let mut k: usize = 0;
        while k < t.stack.len()
            invariant
                k <= t.stack@.len(),
                entries@.map_values(|s: String| s@) == t.stack@.take(k as int).map_values(|v: Value| trace_entry(v)),
            decreases t.stack@.len() - k,
        {
            let v = &t.stack[k];
            let a = concat(crate::text::int_to_string(v.value).as_str(), ":");
            let e = concat(a.as_str(), v.type_.name.as_str());
            let q = crate::text::debug_quoted(e.as_str());
            let ghost before = entries@.map_values(|s: String| s@);
            entries.push(q);
            assert(entries@.map_values(|s: String| s@) =~= before.push(trace_entry(t.stack@[k as int])));
            k = k + 1;
            assert(t.stack@.take(k as int).map_values(|v: Value| trace_entry(v)) =~= t.stack@.take(k - 1).map_values(|v: Value| trace_entry(v)).push(trace_entry(t.stack@[k - 1])));
        }
        assert(t.stack@.take(k as int) =~= t.stack@);
        let a = concat("[pc=", crate::text::int_to_string(t.bytecode.get_pointer_position()).as_str());
        let a = concat(a.as_str(), " f=");
        let a = concat(a.as_str(), crate::text::int_to_string(t.function_pointer).as_str());
        let a = concat(a.as_str(), " fp=");
        let a = concat(a.as_str(), crate::text::int_to_string(t.frame_pointer).as_str());
        let a = concat(a.as_str(), "] ");
        let a = concat(a.as_str(), opcode_name(b));
        let a = concat(a.as_str(), " | stk=[");
        let a = concat(a.as_str(), crate::text::join(entries.as_slice(), ", ").as_str());
        Some(concat(a.as_str(), "]"))
    }
}

} // verus!
