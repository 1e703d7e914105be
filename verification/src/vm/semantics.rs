//! What one step of the machine does to its threads, heap and program.
use vstd::prelude::*;

use crate::gc::{doubled, fields_kept, is_root, reachable, roots_of};
use crate::program::context::{heap_grows, program_grows};
use crate::program::function::{catch_target, handler_distances_fit, FunctionView};
use crate::program::heap::HeapView;
use crate::program::program::{describes, type_index, ProgramView, TypeView};
use crate::text::int_text;
use crate::vm::instruction::{decode, Decoded};
use crate::vm::stack_frame::StackFrame;
use crate::vm::thread::{GvmThread, ThreadView};
use crate::vm::object::{gets_value, has_field, GvmObject};
use crate::vm::runtime::Runtime;
use crate::vm::gvm::{unhandled_message_of, VmTypeContext};
use crate::vm::messages::{
    argument_count_text, get_unsupported_text, invoke_unsupported_text, native_unsupported_text,
    operation_text, unsupported_text,
};
use crate::vm::types::{
    is_builtin, new_value, plain_value, undefined_name, Operation, TypeKind, Value, ValueSource,
};

verus! {

/// The state of a machine.
pub struct MachineView<O, N> {
    pub threads: Seq<GvmThread>,
    pub running: Seq<bool>,
    pub heap: HeapView<O>,
    pub program: ProgramView<N>,
    /// The heap size at which the next collection runs.
    pub threshold: nat,
}

/// The outcome of a step, as its contract speaks of it.
pub enum StepKind {
    Continue,
    Halted,
    Breakpoint(i32),
    Unhandled(Seq<char>),
    Fault,
}

/// The thread `t` with its position moved to `p`.
pub open spec fn at(t: ThreadView, p: int) -> ThreadView {
    ThreadView { code: t.code.with_pointer(p), ..t }
}

/// The thread `t` with operand stack `s`.
pub open spec fn with_stack(t: ThreadView, s: Seq<Value>) -> ThreadView {
    ThreadView { stack: s, ..t }
}

/// The thread `u` is `t` with one more value on the operand stack.
pub open spec fn pushed_one(t: ThreadView, u: ThreadView) -> bool {
    u == with_stack(t, t.stack.push(u.stack.last()))
}

/// All threads but `idx` and the running flags are unchanged.
pub open spec fn threads_unchanged<O: GvmObject, N>(b: MachineView<O, N>, a: MachineView<O, N>, idx: int) -> bool {
    &&& a.threads.len() == b.threads.len()
    &&& a.running == b.running
    &&& forall|j: int| 0 <= j < b.threads.len() && j != idx ==> a.threads[j] == b.threads[j]
}

/// All threads but `idx`, the running flags and the collection threshold
/// are unchanged.
pub open spec fn others_unchanged<O: GvmObject, N>(b: MachineView<O, N>, a: MachineView<O, N>, idx: int) -> bool {
    &&& threads_unchanged(b, a, idx)
    &&& a.threshold == b.threshold
}

/// Thread `idx` becomes `t`; nothing else changes.
pub open spec fn moves_to<O: GvmObject, N>(b: MachineView<O, N>, a: MachineView<O, N>, idx: int, t: ThreadView) -> bool {
    &&& others_unchanged(b, a, idx)
    &&& a.threads[idx]@ == t
    &&& a.heap == b.heap
    &&& a.program == b.program
}

/// Thread `idx` becomes `t` with a value of the given payload and of the
/// built-in type of kind `kind` pushed; nothing else changes.
pub open spec fn pushes_plain<O: GvmObject, N>(
    b: MachineView<O, N>,
    a: MachineView<O, N>,
    idx: int,
    t: ThreadView,
    value: int,
    kind: TypeKind,
) -> bool {
    &&& others_unchanged(b, a, idx)
    &&& pushed_one(t, a.threads[idx]@)
    &&& plain_value(a.threads[idx]@.stack.last(), value as i32, kind)
    &&& a.heap == b.heap
    &&& a.program == b.program
}

/// Thread `idx` becomes `t` with a value of the given payload pushed, whose
/// type is the registered type `tv`; nothing else changes.
pub open spec fn pushes_constant<O: GvmObject, N>(
    b: MachineView<O, N>,
    a: MachineView<O, N>,
    idx: int,
    t: ThreadView,
    value: int,
    tv: TypeView,
) -> bool {
    let v = a.threads[idx]@.stack.last();
    &&& others_unchanged(b, a, idx)
    &&& pushed_one(t, a.threads[idx]@)
    &&& v.value == value
    &&& describes(v.type_, tv)
    &&& v.comment is None
    &&& v.source is Nowhere
    &&& a.heap == b.heap
    &&& a.program == b.program
}

/// The runtime ran: the program and the heap may only have grown.
pub open spec fn runtime_ran<O: GvmObject, N>(b: MachineView<O, N>, a: MachineView<O, N>) -> bool {
    &&& program_grows(b.program, a.program)
    &&& heap_grows(b.heap, a.heap)
}

/// Thread `idx` becomes `t` with a value from the runtime pushed.
pub open spec fn pushes_runtime_value<O: GvmObject, N>(
    b: MachineView<O, N>,
    a: MachineView<O, N>,
    idx: int,
    t: ThreadView,
) -> bool {
    &&& others_unchanged(b, a, idx)
    &&& runtime_ran(b, a)
    &&& pushed_one(t, a.threads[idx]@)
}

/// The kind of the registered type named `name`.
pub open spec fn kind_of<N>(p: ProgramView<N>, name: Seq<char>) -> Option<TypeKind> {
    match type_index(p.types, name) {
        Some(k) => Some(p.types[k].kind),
        None => None,
    }
}

/// The payload of a boolean result.
pub open spec fn bool_payload(b: bool) -> int {
    if b {
        1
    } else {
        0
    }
}

/// What a built-in type computes for `op` on a value with payload `this`
/// and an optional second operand: the payload of the plain result and the
/// kind of the built-in type it carries, or `None` where the type fails.
pub open spec fn builtin_result(kind: TypeKind, op: Operation, this: i32, other: Option<Value>) -> Option<(int, TypeKind)> {
    match kind {
        TypeKind::Undefined => if op == Operation::Eql {
            Some((
                bool_payload(other is Some && other.unwrap().type_.name@ == undefined_name()),
                TypeKind::Boolean,
            ))
        } else {
            None
        },
        TypeKind::Boolean => if op == Operation::Not {
            Some((bool_payload(!(this > 0)), TypeKind::Boolean))
        } else if other is None {
            None
        } else if op == Operation::And {
            Some((bool_payload(this > 0 && other.unwrap().value > 0), TypeKind::Boolean))
        } else if op == Operation::Or {
            Some((bool_payload(this > 0 || other.unwrap().value > 0), TypeKind::Boolean))
        } else if op == Operation::Eql {
            Some((bool_payload((this > 0) == (other.unwrap().value > 0)), TypeKind::Boolean))
        } else {
            None
        },
        TypeKind::Function => if op == Operation::Eql {
            if other is Some {
                Some((bool_payload(this == other.unwrap().value), TypeKind::Boolean))
            } else {
                None
            }
        } else {
            Some((0, TypeKind::Undefined))
        },
        TypeKind::Custom => None,
    }
}

/// The operand as the runtime gets it: a reference, if there is one.
pub open spec fn operand_ref(other: Option<Value>) -> Option<&'static Value> {
    match other {
        Some(v) => Some(&v),
        None => None,
    }
}

/// Whether `v` is a value that the runtime's `perform` returns for `op` on
/// `this` and `other`, called with a context over the heap and the program
/// of `b`.
pub open spec fn runtime_performed<O: GvmObject, N, R: Runtime<Object = O, Native = N>>(
    rt: R,
    b: MachineView<O, N>,
    op: Operation,
    this: Value,
    other: Option<Value>,
    v: Value,
) -> bool {
    exists|c: &mut VmTypeContext<O, N>|
        {
            &&& (*c).heap_state() == b.heap
            &&& (*c).program_state() == b.program
            &&& (*c).offset() == 0
            &&& call_ensures(R::perform, (&rt, c, op, &this, operand_ref(other)), v)
        }
}

/// The runtime's `perform` ran `op` on `this` and `other` with a context
/// `c` over `heap` and `program` and a native offset of 0, and returned
/// `v`; the context it left, `after`, holds `heap_after` and
/// `program_after`.
pub open spec fn custom_performed<O: GvmObject, N, R: Runtime<Object = O, Native = N>>(
    rt: R,
    heap: HeapView<O>,
    program: ProgramView<N>,
    heap_after: HeapView<O>,
    program_after: ProgramView<N>,
    op: Operation,
    this: Value,
    other: Option<Value>,
    c: &mut VmTypeContext<O, N>,
    after: VmTypeContext<O, N>,
    v: Value,
) -> bool {
    &&& (*c).heap_state() == heap
    &&& (*c).program_state() == program
    &&& (*c).offset() == 0
    &&& call_ensures(R::perform, (&rt, c, op, &this, operand_ref(other)), v)
    &&& heap_after == after.heap_state()
    &&& program_after == after.program_state()
}

/// The second operand of an operation of `arity` operands on stack `s`.
pub open spec fn second_operand(s: Seq<Value>, arity: int) -> Option<Value> {
    if arity == 2 {
        Some(s[s.len() - 1])
    } else {
        None
    }
}

/// The operation that instruction `d` in thread `t` (past the instruction)
/// of a machine with program `p` has the runtime perform, if any: an
/// operation, `NEW` or `GET` on a value (or of a registered type) that
/// supports it and whose type is not built in.
pub open spec fn custom_operation<N>(p: ProgramView<N>, t: ThreadView, d: Decoded) -> Option<Operation> {
    let s = t.stack;
    let n = s.len();
    match d {
        Decoded::Binary(op) => if n >= 2 && s[n - 2].type_.operations.allows(op) && s[n - 2].type_.kind
            == TypeKind::Custom {
            Some(op)
        } else {
            None
        },
        Decoded::Not => if n >= 1 && s[n - 1].type_.operations.allows(Operation::Not) && s[n - 1].type_.kind
            == TypeKind::Custom {
            Some(Operation::Not)
        } else {
            None
        },
        Decoded::Get => if n >= 2 && s[n - 2].type_.operations.allows(Operation::Get) && s[n - 2].type_.kind
            == TypeKind::Custom {
            Some(Operation::Get)
        } else {
            None
        },
        Decoded::New(name) => match type_index(p.types, name) {
            Some(k) => if p.types[k].operations.contains(Operation::New) && p.types[k].kind
                == TypeKind::Custom {
                Some(Operation::New)
            } else {
                None
            },
            None => None,
        },
        _ => None,
    }
}

/// The operands that instruction `d` in thread `t` hands to `perform`: the
/// values it pops (the first one as `this`), or for `NEW` the undefined
/// value and none.
pub open spec fn custom_operands(t: ThreadView, d: Decoded, this: Value, other: Option<Value>) -> bool {
    let s = t.stack;
    let n = s.len();
    match d {
        Decoded::Binary(_) => this == s[n - 2] && other == Some(s[n - 1]),
        Decoded::Not => this == s[n - 1] && other is None,
        Decoded::Get => this == s[n - 2] && other == Some(s[n - 1]),
        Decoded::New(_) => plain_value(this, 0, TypeKind::Undefined) && other is None,
        _ => false,
    }
}

/// The type of kind `kind` performs `op` and its result is pushed on `t`.
pub open spec fn performs<O: GvmObject, N, R: Runtime<Object = O, Native = N>>(rt: R, 
    b: MachineView<O, N>,
    a: MachineView<O, N>,
    idx: int,
    t: ThreadView,
    kind: TypeKind,
    op: Operation,
    this: Value,
    other: Option<Value>,
    r: StepKind,
) -> bool {
    if kind == TypeKind::Custom {
        &&& r == StepKind::Continue
        &&& pushes_runtime_value(b, a, idx, t)
        &&& runtime_performed(rt, b, op, this, other, a.threads[idx]@.stack.last())
    } else {
        match builtin_result(kind, op, this.value, other) {
            Some((v, tn)) => r == StepKind::Continue && pushes_plain(b, a, idx, t, v, tn),
            None => r == StepKind::Fault,
        }
    }
}

/// What unwinding to a catch block gives.
pub enum Unwind {
    /// The thread, positioned at the catch block.
    Caught(ThreadView),
    /// No function on the call stack catches the exception.
    Unhandled,
    /// A frame or function needed for unwinding is missing.
    Fault,
}

/// The index of the frame that unwinding resumes.
pub open spec fn resume_index(t: ThreadView) -> int {
    let len = t.call_stack.len() as int;
    if len > t.frame_pointer {
        t.frame_pointer - 1
    } else {
        len - 1
    }
}

/// Whether the thread can be unwound one call: the frame to resume and its
/// function exist and its position lies inside that function's bytecode.
pub open spec fn can_resume<N>(t: ThreadView, p: ProgramView<N>) -> bool {
    let len = t.call_stack.len();
    let fr = t.call_stack[resume_index(t)];
    &&& len <= i32::MAX
    &&& len >= 1
    &&& t.frame_pointer >= 1
    &&& p.functions.contains_key(fr.calling_function)
    &&& 0 <= fr.program_counter < p.functions[fr.calling_function].bytecode.data.len()
}

/// The thread after unwinding one call.
pub open spec fn resumed<N>(t: ThreadView, p: ProgramView<N>) -> ThreadView {
    let k = resume_index(t);
    let fr = t.call_stack[k];
    ThreadView {
        call_stack: t.call_stack.take(k),
        debug_line_number: fr.line_number,
        function_pointer: fr.calling_function,
        frame_pointer: fr.frame_pointer,
        location: fr.location,
        code: p.functions[fr.calling_function].bytecode.with_pointer(fr.program_counter as int),
        ..t
    }
}

/// Unwinding an exception raised in `t`: the innermost catch block of the
/// current function that covers the position, else the same search in the
/// caller, until only one frame is left.
pub open spec fn unwind<N>(t: ThreadView, p: ProgramView<N>) -> Unwind
    decreases t.call_stack.len(),
{
    if !p.functions.contains_key(t.function_pointer) {
        Unwind::Fault
    } else {
        let hs = p.functions[t.function_pointer].handlers;
        let pc = t.code.pointer as i32;
        if !handler_distances_fit(hs, pc) {
            Unwind::Fault
        } else {
            let c = catch_target(hs, pc);
            if c > -1 {
                if c < t.code.data.len() {
                    Unwind::Caught(at(t, c))
                } else {
                    Unwind::Fault
                }
            } else if t.call_stack.len() == 1 {
                Unwind::Unhandled
            } else if !can_resume(t, p) {
                Unwind::Fault
            } else {
                unwind(resumed(t, p), p)
            }
        }
    }
}

/// An exception is raised in thread `idx`, whose state is then `t`: the
/// runtime makes an exception value, which is pushed at the catch block
/// found by unwinding.
pub open spec fn raises<O: GvmObject, N, R: Runtime<Object = O, Native = N>>(rt: R, 
    b: MachineView<O, N>,
    a: MachineView<O, N>,
    idx: int,
    t: ThreadView,
    what: Raised,
    r: StepKind,
) -> bool {
    &&& others_unchanged(b, a, idx)
    &&& runtime_ran(b, a)
    &&& match unwind(t, a.program) {
        Unwind::Caught(u) => r == StepKind::Continue && pushed_one(u, a.threads[idx]@),
        Unwind::Unhandled => r is Unhandled,
        Unwind::Fault => r == StepKind::Fault,
    }
    &&& exists|e: Value|
        {
            &&& #[trigger] handed(rt, b.heap, b.program, what, t, e)
            &&& unwind(t, a.program) is Caught ==> a.threads[idx]@.stack.last() == e
            &&& r matches StepKind::Unhandled(m) ==> unhandled_message_of(a.heap, a.program, e, m)
        }
}

/// What is raised: an error message of the machine, or a value the program
/// throws.
pub enum Raised {
    Message(Seq<char>),
    Thrown(Value),
}

/// Whether `e` is an exception value that the runtime makes of `what`,
/// raised in thread `t` at its debug line and location, called with a
/// context over `heap` and `program` and a native offset of 0.
pub open spec fn handed<O: GvmObject, N, R: Runtime<Object = O, Native = N>>(
    rt: R,
    heap: HeapView<O>,
    program: ProgramView<N>,
    what: Raised,
    t: ThreadView,
    e: Value,
) -> bool {
    match what {
        Raised::Message(m) => exists|c: &mut VmTypeContext<O, N>, ms: &str|
            {
                &&& ms@ == m
                &&& (*c).heap_state() == heap
                &&& (*c).program_state() == program
                &&& (*c).offset() == 0
                &&& #[trigger] call_ensures(
                    R::convert_message,
                    (&rt, ms, c, t.debug_line_number, t.location),
                    e,
                )
            },
        Raised::Thrown(v) => exists|c: &mut VmTypeContext<O, N>|
            {
                &&& (*c).heap_state() == heap
                &&& (*c).program_state() == program
                &&& (*c).offset() == 0
                &&& #[trigger] call_ensures(R::convert_value, (&rt, &v, c, t.debug_line_number, t.location), e)
            },
    }
}

/// A collection with the given threshold: below it the heap and the
/// threshold are unchanged; else the heap keeps the objects of a set that
/// holds every root of the threads and every object that a field of one of
/// its objects refers to, and nothing that cannot be reached from the roots,
/// and the threshold is doubled until it is no longer below the heap size.
pub open spec fn collected<O: GvmObject>(
    before: HeapView<O>,
    after: HeapView<O>,
    threshold: nat,
    next_threshold: nat,
    threads: Seq<GvmThread>,
) -> bool {
    if before.objects.len() < threshold {
        after == before && next_threshold == threshold
    } else {
        &&& after.counter == before.counter
        &&& exists|alive: Set<i32>|
            {
                &&& after.objects == before.objects.restrict(alive)
                &&& forall|r: i32| is_root(r, threads, before) ==> #[trigger] alive.contains(r)
                &&& fields_kept(alive, before)
                &&& forall|x: i32|
                    #[trigger] alive.contains(x) ==> reachable(x, roots_of(threads, before), before)
            }
        &&& exists|j: nat|
            {
                &&& next_threshold == #[trigger] doubled(threshold, j)
                &&& j > 0 ==> doubled(threshold, (j - 1) as nat) < after.objects.len()
            }
    }
}

/// The stack index `LDS pos` loads from, if it lies on the stack.
pub open spec fn lds_index(t: ThreadView, pos: i32) -> Option<int> {
    let n = t.stack.len();
    if pos >= 0 {
        let i = t.frame_pointer + pos;
        if i32::MIN <= i <= i32::MAX && 0 <= i < n {
            Some(i)
        } else {
            None
        }
    } else if n <= i32::MAX {
        let i = n + pos - 1;
        if 0 <= i < n {
            Some(i)
        } else {
            None
        }
    } else {
        None
    }
}

/// A parameter value as `INVOKE` stores it: the argument with the comment
/// `Function parameter i`.
pub open spec fn is_parameter(v: Value, arg: Value, i: int) -> bool {
    &&& v.value == arg.value
    &&& v.type_ == arg.type_
    &&& v.source == arg.source
    &&& v.comment matches Some(c) && c@ == "Function parameter "@ + int_text(i)
}

/// A local variable slot as `INVOKE` makes it: undefined, with the comment
/// `Local variable i`.
pub open spec fn is_local_slot(v: Value, i: int) -> bool {
    &&& v.value == 0
    &&& is_builtin(v.type_, TypeKind::Undefined)
    &&& v.source is Nowhere
    &&& v.comment matches Some(c) && c@ == "Local variable "@ + int_text(i)
}

/// Whether a call of `f` fits the thread `t` (the callee already popped):
/// the arguments and the `this` value are on the stack, the frame pointer
/// fits, and the function has bytecode.
pub open spec fn call_fits(t: ThreadView, f: FunctionView) -> bool {
    let m = t.stack.len();
    let pc = f.parameters.len();
    &&& m >= pc + 1
    &&& m - pc <= i32::MAX
    &&& f.bytecode.data.len() > 0
}

/// The thread `u` is `t` (the callee already popped) after calling `f`,
/// whose id is `id`, from the function `caller`: a frame saving the caller
/// is pushed, the arguments stay with a comment, undefined locals follow,
/// and `f` runs from position 0.
pub open spec fn called(t: ThreadView, u: ThreadView, f: FunctionView, caller: i32, id: i32) -> bool {
    let m = t.stack.len();
    let pc = f.parameters.len() as int;
    let base = m - pc;
    let lc = f.locals.len() as int;
    &&& u.stack.len() == base + pc + lc
    &&& u.stack.take(base) == t.stack.take(base)
    &&& forall|i: int|
        0 <= i < pc ==> is_parameter(#[trigger] u.stack.skip(base)[i], t.stack.skip(base)[i], i)
    &&& forall|i: int| 0 <= i < lc ==> is_local_slot(#[trigger] u.stack.skip(base + pc)[i], i)
    &&& u.call_stack == t.call_stack.push(
        StackFrame {
            program_counter: t.code.pointer as i32,
            frame_pointer: t.frame_pointer,
            calling_function: caller,
            line_number: t.debug_line_number,
            location: t.location,
            scope: t.stack[base - 1],
        },
    )
    &&& u.frame_pointer == (base - 1) as i32
    &&& u.function_pointer == id
    &&& u.code == f.bytecode.with_pointer(0)
    &&& u.debug_line_number == t.debug_line_number
    &&& u.location == t.location
    &&& u.finished == t.finished
}

/// `INVOKE argc` on thread `t` (already past the instruction).
pub open spec fn invoke_spec<O: GvmObject, N, R: Runtime<Object = O, Native = N>>(rt: R, 
    b: MachineView<O, N>,
    a: MachineView<O, N>,
    idx: int,
    t: ThreadView,
    argc: i32,
    r: StepKind,
) -> bool {
    let s = t.stack;
    if s.len() == 0 {
        r == StepKind::Fault
    } else {
        let callee = s.last();
        let t2 = with_stack(t, s.drop_last());
        if !callee.type_.operations.allows(Operation::Invoke) {
            raises(rt, b, a, idx, t2, Raised::Message(invoke_unsupported_text(callee.type_.name@)), r)
        } else if !b.program.functions.contains_key(callee.value) {
            r == StepKind::Fault
        } else {
            let f = b.program.functions[callee.value];
            if f.parameters.len() > i32::MAX {
                r == StepKind::Fault
            } else if argc != f.parameters.len() as i32 {
                raises(
                    rt,
                    b,
                    a,
                    idx,
                    ThreadView { function_pointer: callee.value, ..t2 },
                    Raised::Message(argument_count_text(callee.value, f.parameters.len() as i32, argc)),
                    r,
                )
            } else if !call_fits(t2, f) {
                r == StepKind::Fault
            } else {
                &&& r == StepKind::Continue
                &&& others_unchanged(b, a, idx)
                &&& a.heap == b.heap
                &&& a.program == b.program
                &&& called(t2, a.threads[idx]@, f, t.function_pointer, callee.value)
            }
        }
    }
}

/// `RETURN` on thread `t` (already past the instruction): the locals, the
/// arguments and `this` are dropped, the caller resumes with the result
/// pushed, and the heap may be collected.
pub open spec fn return_spec<O: GvmObject, N>(
    b: MachineView<O, N>,
    a: MachineView<O, N>,
    idx: int,
    t: ThreadView,
    r: StepKind,
) -> bool {
    let s = t.stack;
    let n = s.len();
    let fs = b.program.functions;
    if n == 0 || !fs.contains_key(t.function_pointer) {
        r == StepKind::Fault
    } else {
        let f = fs[t.function_pointer];
        let k = f.locals.len() + f.parameters.len() + 1;
        if n < k + 1 || t.call_stack.len() == 0 {
            r == StepKind::Fault
        } else {
            let fr = t.call_stack.last();
            if !fs.contains_key(fr.calling_function) || !(0 <= fr.program_counter
                < fs[fr.calling_function].bytecode.data.len()) {
                r == StepKind::Fault
            } else {
                &&& r == StepKind::Continue
                &&& threads_unchanged(b, a, idx)
                &&& a.threads[idx]@ == (ThreadView {
                    stack: s.take(n - 1 - k).push(s.last()),
                    call_stack: t.call_stack.drop_last(),
                    debug_line_number: fr.line_number,
                    function_pointer: fr.calling_function,
                    frame_pointer: fr.frame_pointer,
                    location: fr.location,
                    code: fs[fr.calling_function].bytecode.with_pointer(fr.program_counter as int),
                    finished: t.finished,
                })
                &&& a.program == b.program
                &&& a.heap.valid()
                &&& collected(b.heap, a.heap, b.threshold, a.threshold, a.threads)
            }
        }
    }
}

/// The heap field that `PUT` on thread `t` stores into, with the value it
/// stores there: when the top value records field `f` of object `o` as its
/// source, the value below it, without comment or source.
pub open spec fn put_field(t: ThreadView) -> Option<(i32, Seq<char>, Value)> {
    let s = t.stack;
    let n = s.len();
    if n < 2 {
        None
    } else {
        match s.last().source {
            ValueSource::HeapField(o, f) => Some(
                (
                    o,
                    f@,
                    Value { value: s[n - 2].value, type_: s[n - 2].type_, comment: None, source: ValueSource::Nowhere },
                ),
            ),
            _ => None,
        }
    }
}

/// `PUT` on thread `t` (already past the instruction): the top value says
/// where to store the value below it, which stays on the stack.
pub open spec fn put_spec<O: GvmObject, N>(
    b: MachineView<O, N>,
    a: MachineView<O, N>,
    idx: int,
    t: ThreadView,
    r: StepKind,
) -> bool {
    let s = t.stack;
    let n = s.len();
    if n < 2 {
        r == StepKind::Fault
    } else {
        let target = s.last();
        let val = s[n - 2];
        let s1 = s.drop_last();
        let stored = Value {
            value: val.value,
            type_: val.type_,
            comment: None,
            source: ValueSource::Nowhere,
        };
        match target.source {
            ValueSource::Stack(i) => if i >= n - 1 {
                r == StepKind::Fault
            } else {
                r == StepKind::Continue && moves_to(b, a, idx, with_stack(t, s1.update(i as int, stored)))
            },
            ValueSource::HeapField(o, _) => {
                &&& r == StepKind::Continue
                &&& others_unchanged(b, a, idx)
                &&& a.threads[idx]@ == with_stack(t, s1)
                &&& a.program == b.program
                &&& a.heap.valid()
                &&& a.heap.counter == b.heap.counter
                &&& a.heap.objects.dom() == b.heap.objects.dom()
                &&& forall|k: i32|
                    k != o && #[trigger] b.heap.objects.contains_key(k) ==> a.heap.objects[k]
                        == b.heap.objects[k]
            },
            ValueSource::Nowhere => r == StepKind::Continue && moves_to(b, a, idx, with_stack(t, s1)),
        }
    }
}

/// The field name `GET` looks up: the string constant when the name value is
/// a `String`, else the decimal text of its payload.
pub open spec fn field_name<N>(p: ProgramView<N>, name: Value) -> Option<Seq<char>> {
    if name.type_.name@ == "String"@ {
        if 0 <= name.value < p.strings.len() {
            Some(p.strings[name.value as int])
        } else {
            None
        }
    } else {
        Some(int_text(name.value as int))
    }
}

/// Whether `v` records the field `field` of object `obj` as its source
/// (nothing is said when there is no field name).
pub open spec fn sourced_from(v: Value, obj: i32, field: Option<Seq<char>>) -> bool {
    match field {
        Some(f) => v.source matches ValueSource::HeapField(o, g) && o == obj && g@ == f,
        None => true,
    }
}

/// `GET` on thread `t` (already past the instruction).
pub open spec fn get_spec<O: GvmObject, N, R: Runtime<Object = O, Native = N>>(rt: R, 
    b: MachineView<O, N>,
    a: MachineView<O, N>,
    idx: int,
    t: ThreadView,
    r: StepKind,
) -> bool {
    let s = t.stack;
    let n = s.len();
    if n < 2 {
        r == StepKind::Fault
    } else {
        let name = s.last();
        let target = s[n - 2];
        let t2 = with_stack(t, s.take(n - 2));
        let field = field_name(b.program, name);
        if !target.type_.operations.allows(Operation::Get) {
            raises(
                rt,
                b,
                a,
                idx,
                t2,
                Raised::Message(get_unsupported_text(target, t.code.pointer as i32, t.function_pointer)),
                r,
            )
        } else {
            let kind = target.type_.kind;
            let v = a.threads[idx]@.stack.last();
            if kind == TypeKind::Custom {
                &&& r == StepKind::Continue
                &&& pushes_runtime_value(b, a, idx, t2)
                &&& sourced_from(v, target.value, field)
                &&& exists|w: Value|
                    {
                        &&& runtime_performed(rt, b, Operation::Get, target, Some(name), w)
                        &&& v.value == w.value
                        &&& v.type_ == w.type_
                        &&& v.comment == w.comment
                        &&& field is None ==> v == w
                    }
            } else if kind == TypeKind::Function {
                &&& r == StepKind::Continue
                &&& moves_to(b, a, idx, a.threads[idx]@)
                &&& pushed_one(t2, a.threads[idx]@)
                &&& v.value == 0
                &&& is_builtin(v.type_, TypeKind::Undefined)
                &&& v.comment is None
                &&& sourced_from(v, target.value, field)
                &&& field is None ==> v.source is Nowhere
            } else {
                r == StepKind::Fault
            }
        }
    }
}

/// `GETDYNAMIC` on thread `t` (already past the instruction): the variable
/// named by the string constant on top is looked up in the scopes of the
/// call stack.
pub open spec fn get_dynamic_spec<O: GvmObject, N>(
    b: MachineView<O, N>,
    a: MachineView<O, N>,
    idx: int,
    t: ThreadView,
    r: StepKind,
) -> bool {
    let s = t.stack;
    if s.len() == 0 {
        r == StepKind::Fault
    } else {
        let var = s.last();
        if !(0 <= var.value < b.program.strings.len()) {
            r == StepKind::Fault
        } else {
            let name = b.program.strings[var.value as int];
            let u = a.threads[idx]@;
            let v = u.stack.last();
            &&& r == StepKind::Continue
            &&& moves_to(b, a, idx, u)
            &&& pushed_one(with_stack(t, s.drop_last()), u)
            &&& t.call_stack.len() == 0 ==> plain_value(v, 0, TypeKind::Undefined)
            &&& t.call_stack.len() > 0 ==> exists|k: int, fs: &str, w: Option<Value>|
                {
                    &&& fs@ == name
                    &&& #[trigger] looked_up(b.heap, t.call_stack, fs, k, w)
                    &&& v.source matches ValueSource::HeapField(o, f) && o == t.call_stack[k].scope.value
                        && f@ == name
                    &&& match w {
                        Some(x) => v.value == x.value && v.type_ == x.type_ && v.comment == x.comment,
                        None => v.value == 0 && is_builtin(v.type_, TypeKind::Undefined) && v.comment is None,
                    }
                }
        }
    }
}

/// Whether the scope object of frame `j` lacks the variable `fs`, as
/// `has_value` answers (or does not exist).
pub open spec fn scope_lacks<O: GvmObject>(heap: HeapView<O>, frames: Seq<StackFrame>, fs: &str, j: int) -> bool {
    !heap.objects.contains_key(frames[j].scope.value) || has_field(
        heap.objects[frames[j].scope.value],
        fs,
        false,
    )
}

/// Whether looking up the variable `fs` in the scopes of `frames` ends at
/// frame `k` with the value `w`: the first scope object that has the
/// variable gives its value; when none has it, the last frame's scope
/// object is asked for it (no value when that object does not exist).
pub open spec fn looked_up<O: GvmObject>(
    heap: HeapView<O>,
    frames: Seq<StackFrame>,
    fs: &str,
    k: int,
    w: Option<Value>,
) -> bool {
    let o = frames[k].scope.value;
    &&& 0 <= k < frames.len()
    &&& forall|j: int| 0 <= j < k ==> #[trigger] scope_lacks(heap, frames, fs, j)
    &&& {
        ||| {
            &&& heap.objects.contains_key(o)
            &&& has_field(heap.objects[o], fs, true)
            &&& gets_value(heap.objects[o], fs, w)
        }
        ||| {
            &&& k == frames.len() - 1
            &&& scope_lacks(heap, frames, fs, k)
            &&& if heap.objects.contains_key(o) {
                gets_value(heap.objects[o], fs, w)
            } else {
                w is None
            }
        }
    }
}

/// A binary operation or `NOT` on thread `t` (already past the
/// instruction); `arity` is 2 or 1.
pub open spec fn operation_spec<O: GvmObject, N, R: Runtime<Object = O, Native = N>>(rt: R, 
    b: MachineView<O, N>,
    a: MachineView<O, N>,
    idx: int,
    t: ThreadView,
    op: Operation,
    arity: int,
    r: StepKind,
) -> bool {
    let s = t.stack;
    let n = s.len();
    if n < arity {
        r == StepKind::Fault
    } else {
        let first = s[n - arity];
        let other = if arity == 2 {
            Some(s[n - 1])
        } else {
            None
        };
        let t2 = with_stack(t, s.take(n - arity));
        if !first.type_.operations.allows(op) {
            raises(rt, b, a, idx, t2, Raised::Message(unsupported_text(first.type_.name@, operation_text(op))), r)
        } else {
            performs(rt, b, a, idx, t2, first.type_.kind, op, first, other, r)
        }
    }
}

/// `NEW type` on thread `t` (already past the instruction).
pub open spec fn new_spec<O: GvmObject, N, R: Runtime<Object = O, Native = N>>(rt: R, 
    b: MachineView<O, N>,
    a: MachineView<O, N>,
    idx: int,
    t: ThreadView,
    name: Seq<char>,
    r: StepKind,
) -> bool {
    match type_index(b.program.types, name) {
        None => r == StepKind::Fault,
        Some(k) => if !b.program.types[k].operations.contains(Operation::New) {
            raises(rt, b, a, idx, t, Raised::Message(unsupported_text(name, "NEW"@)), r)
        } else {
            exists|u: Value|
                plain_value(u, 0, TypeKind::Undefined) && #[trigger] performs(
                    rt,
                    b,
                    a,
                    idx,
                    t,
                    b.program.types[k].kind,
                    Operation::New,
                    u,
                    None,
                    r,
                )
        },
    }
}

/// `NATIVE` on thread `t` (already past the instruction): the top value
/// names a native method, which gets as many arguments as the runtime says
/// it takes (none for a negative count), the topmost first. What it returns
/// is pushed and the heap may be collected, or the error it gives is raised;
/// the step fails when the stack holds fewer values than the method asks
/// for.
pub open spec fn native_spec<O: GvmObject, N, R: Runtime<Object = O, Native = N>>(
    rt: R,
    b: MachineView<O, N>,
    a: MachineView<O, N>,
    idx: int,
    t: ThreadView,
    r: StepKind,
) -> bool {
    let s = t.stack;
    if s.len() == 0 {
        r == StepKind::Fault
    } else {
        let arg = s.last();
        let t2 = with_stack(t, s.drop_last());
        if !arg.type_.operations.allows(Operation::Invoke) {
            raises(rt, b, a, idx, t2, Raised::Message(native_unsupported_text(arg.type_.name@)), r)
        } else if !(0 <= arg.value < b.program.natives.len()) {
            r == StepKind::Fault
        } else {
            let native = b.program.natives[arg.value as int];
            exists|argc: i32|
                {
                    &&& #[trigger] call_ensures(R::argument_count, (&rt, &native), argc)
                    &&& if argc > t2.stack.len() {
                        r == StepKind::Fault
                    } else {
                        native_returned(rt, b, a, idx, t2, native, arg_count_taken(argc), r)
                    }
                }
        }
    }
}

/// How many arguments a native method gets for the count it reports.
pub open spec fn arg_count_taken(argc: i32) -> int {
    if argc > 0 {
        argc as int
    } else {
        0
    }
}

/// The top `k` values of `s`, the topmost first.
pub open spec fn popped(s: Seq<Value>, k: int) -> Seq<Value> {
    Seq::new(k as nat, |i: int| s[s.len() - 1 - i])
}

/// The native method `native` was invoked with the top `k` values of `t`
/// (the topmost first) and a context as `native_context` gives it: what it
/// returned is pushed (and the heap may be collected), or the error it gave
/// is raised once the call has run.
pub open spec fn native_returned<O: GvmObject, N, R: Runtime<Object = O, Native = N>>(
    rt: R,
    b: MachineView<O, N>,
    a: MachineView<O, N>,
    idx: int,
    t: ThreadView,
    native: N,
    k: int,
    r: StepKind,
) -> bool {
    let t3 = with_stack(t, t.stack.take(t.stack.len() - k));
    exists|args: Vec<Value>, c: &mut VmTypeContext<O, N>, res: Result<Value, String>|
        {
            &&& args@ == popped(t.stack, k)
            &&& native_context(*c, b)
            &&& call_ensures(R::invoke, (&rt, &native, args, c), res)
            &&& match res {
                Ok(v) => {
                    &&& r == StepKind::Continue
                    &&& threads_unchanged(b, a, idx)
                    &&& program_grows(b.program, a.program)
                    &&& pushed_one(t3, a.threads[idx]@)
                    &&& a.threads[idx]@.stack.last() == v
                    &&& a.heap.valid()
                    &&& exists|h: HeapView<O>|
                        heap_grows(b.heap, h) && #[trigger] collected(
                            h,
                            a.heap,
                            b.threshold,
                            a.threshold,
                            a.threads
                        )
                },
                Err(msg) => runtime_ran(b, a) && exists|m: MachineView<O, N>|
                    {
                        &&& runtime_ran(b, m)
                        &&& others_unchanged(b, m, idx)
                        &&& #[trigger] raises(rt, m, a, idx, t3, Raised::Message(msg@), r)
                    },
            }
        }
}

/// The native method that `NATIVE` calls in thread `t` (past the
/// instruction) of a machine with program `p`: the one the top value names,
/// if that value's type supports invocation and the index is in range.
pub open spec fn native_target<N>(p: ProgramView<N>, t: ThreadView) -> Option<N> {
    let s = t.stack;
    if s.len() > 0 && s.last().type_.operations.allows(Operation::Invoke) && 0 <= s.last().value
        < p.natives.len() {
        Some(p.natives[s.last().value as int])
    } else {
        None
    }
}

/// `NATIVE` in thread `t` (past the instruction) of machine `b` called
/// the native method that `native_target` gives: it reported `argc`
/// arguments, got the top ones as `args` and a context `c` as
/// `native_context` gives it, and returned `res`, leaving the context as
/// `after`. On `Ok` the program is the one `after` holds with the native
/// methods merged back, the heap is a collection of the one `after` holds,
/// the result is on top of the stack, and the collector ran (`gc_after`)
/// exactly when that heap held at least the threshold; on `Err` the error
/// is raised from the heap and the merged program that the call left, and
/// whether the collector ran stays `gc_before`.
pub open spec fn native_called<O: GvmObject, N, R: Runtime<Object = O, Native = N>>(
    rt: R,
    b: MachineView<O, N>,
    a: MachineView<O, N>,
    idx: int,
    t: ThreadView,
    argc: i32,
    args: Vec<Value>,
    c: &mut VmTypeContext<O, N>,
    after: VmTypeContext<O, N>,
    res: Result<Value, String>,
    r: StepKind,
    gc_before: bool,
    gc_after: bool,
) -> bool {
    let native = native_target(b.program, t).unwrap();
    let s = t.stack.drop_last();
    let k = arg_count_taken(argc);
    let t3 = with_stack(t, s.take(s.len() - k));
    let merged = merged_natives(b.program, after.program_state());
    &&& call_ensures(R::argument_count, (&rt, &native), argc)
    &&& args@ == popped(s, k)
    &&& native_context(*c, b)
    &&& call_ensures(R::invoke, (&rt, &native, args, c), res)
    &&& match res {
        Ok(v) => {
            &&& r == StepKind::Continue
            &&& a.program == merged
            &&& collected(after.heap_state(), a.heap, b.threshold, a.threshold, a.threads)
            &&& a.threads[idx]@.stack.last() == v
            &&& gc_after == (after.heap_state().objects.len() >= b.threshold)
        },
        Err(msg) => {
            &&& raises(
                rt,
                MachineView { heap: after.heap_state(), program: merged, ..b },
                a,
                idx,
                t3,
                Raised::Message(msg@),
                r,
            )
            &&& gc_after == gc_before
        },
    }
}

/// The context a native method is invoked with in machine `b`: over the
/// heap of `b` and its program without the native methods (those the call
/// registers are appended after it), with the number of native methods as
/// the offset of the ones it registers.
pub open spec fn native_context<O: GvmObject, N>(c: VmTypeContext<O, N>, b: MachineView<O, N>) -> bool {
    &&& c.heap_state() == b.heap
    &&& c.program_state() == ProgramView { natives: Seq::empty(), ..b.program }
    &&& c.offset() == b.program.natives.len() as i32
}

/// The program after a native call: the program the call left in its
/// context, with the native methods of `before` put back ahead of the ones
/// it registered.
pub open spec fn merged_natives<N>(before: ProgramView<N>, after: ProgramView<N>) -> ProgramView<N> {
    ProgramView { natives: before.natives + after.natives, ..after }
}

/// Whether `FORK` can copy thread `t`: there is a frame, its scope object
/// exists, a fresh reference is left and the position fits.
pub open spec fn can_fork_view<O>(t: ThreadView, heap: HeapView<O>) -> bool {
    &&& t.call_stack.len() > 0
    &&& heap.objects.contains_key(t.call_stack.last().scope.value)
    &&& heap.counter < i32::MAX
    &&& t.code.pointer < t.code.data.len()
    &&& t.code.pointer <= i32::MAX
}

/// A boolean with a comment, as `FORK` pushes it.
pub open spec fn fork_flag(v: Value, payload: int) -> bool {
    &&& v.value == payload
    &&& is_builtin(v.type_, TypeKind::Boolean)
    &&& v.source is Nowhere
    &&& v.comment matches Some(c) && c@ == "Fork return value"@
}

/// `FORK` on thread `t` (already past the instruction): a new running
/// thread copies `t` with its scope object copied; the parent gets 0 and
/// the child 1 pushed.
pub open spec fn fork_spec<O: GvmObject, N>(
    b: MachineView<O, N>,
    a: MachineView<O, N>,
    idx: int,
    t: ThreadView,
    r: StepKind,
) -> bool {
    if !can_fork_view(t, b.heap) {
        r == StepKind::Fault
    } else {
        let n = b.threads.len();
        let id = (b.heap.counter + 1) as i32;
        let len = t.call_stack.len() as int;
        let top = t.call_stack[len - 1];
        let parent = a.threads[idx]@;
        let child = a.threads[n as int]@;
        &&& r == StepKind::Continue
        &&& a.threads.len() == n + 1
        &&& a.running == b.running.push(true)
        &&& a.threshold == b.threshold
        &&& forall|j: int| 0 <= j < n && j != idx ==> a.threads[j] == b.threads[j]
        &&& pushed_one(t, parent)
        &&& fork_flag(parent.stack.last(), 0)
        &&& child == (ThreadView {
            call_stack: t.call_stack.take(len - 1).push(
                StackFrame { scope: new_value(id, top.scope.type_), ..top },
            ),
            stack: t.stack.push(child.stack.last()),
            finished: false,
            ..t
        })
        &&& fork_flag(child.stack.last(), 1)
        &&& a.heap.valid()
        &&& a.heap.counter == id
        &&& a.heap.objects.dom() == b.heap.objects.dom().insert(id)
        &&& forall|k: i32|
            k != id && #[trigger] b.heap.objects.contains_key(k) ==> a.heap.objects[k] == b.heap.objects[k]
        &&& call_ensures(O::clone_object, (&b.heap.objects[top.scope.value],), a.heap.objects[id])
        &&& a.program == b.program
    }
}

/// What one step of thread `idx` does: the instruction at its position is
/// decoded and executed; the step fails when the instruction does not lie
/// inside the bytecode.
pub open spec fn step_spec<O: GvmObject, N, R: Runtime<Object = O, Native = N>>(rt: R, b: MachineView<O, N>, a: MachineView<O, N>, idx: int, r: StepKind) -> bool {
    let t = b.threads[idx]@;
    match decode(t.code.data, t.code.pointer as int) {
        None => r == StepKind::Fault,
        Some((d, next)) => instruction_effect(rt, b, a, idx, at(t, next), d, r),
    }
}

/// What executing instruction `d` does to thread `idx`, whose state past
/// the instruction is `t` (the other threads, the heap and the program are
/// those of `b`).
pub open spec fn instruction_effect<O: GvmObject, N, R: Runtime<Object = O, Native = N>>(rt: R, 
    b: MachineView<O, N>,
    a: MachineView<O, N>,
    idx: int,
    t: ThreadView,
    d: Decoded,
    r: StepKind,
) -> bool {
    let s = t.stack;
    match d {
        Decoded::New(name) => new_spec(rt, b, a, idx, t, name, r),
        Decoded::Lds(pos) => match lds_index(t, pos) {
            Some(i) => r == StepKind::Continue && moves_to(
                b,
                a,
                idx,
                with_stack(t, s.push(Value { source: ValueSource::Stack(i as usize), ..s[i] })),
            ),
            None => r == StepKind::Fault,
        },
        Decoded::Dup => if s.len() == 0 {
            r == StepKind::Fault
        } else {
            r == StepKind::Continue && moves_to(b, a, idx, with_stack(t, s.push(s.last())))
        },
        Decoded::LdcD(arg, name) => match type_index(b.program.types, name) {
            Some(k) => r == StepKind::Continue && pushes_constant(b, a, idx, t, arg as int, b.program.types[k]),
            None => r == StepKind::Fault,
        },
        Decoded::Invoke(argc) => invoke_spec(rt, b, a, idx, t, argc, r),
        Decoded::Return => return_spec(b, a, idx, t, r),
        Decoded::Put => put_spec(b, a, idx, t, r),
        Decoded::Get => get_spec(rt, b, a, idx, t, r),
        Decoded::GetDynamic => get_dynamic_spec(b, a, idx, t, r),
        Decoded::Halt => r == StepKind::Halted && moves_to(b, a, idx, ThreadView { finished: true, ..t }),
        Decoded::Binary(op) => operation_spec(rt, b, a, idx, t, op, 2, r),
        Decoded::Not => operation_spec(rt, b, a, idx, t, Operation::Not, 1, r),
        Decoded::Jmp(p) => if 0 <= p < t.code.data.len() {
            r == StepKind::Continue && moves_to(b, a, idx, at(t, p as int))
        } else {
            r == StepKind::Fault
        },
        Decoded::Cjmp(p) => if s.len() == 0 {
            r == StepKind::Fault
        } else if s.last().value > 0 {
            if 0 <= p < t.code.data.len() {
                r == StepKind::Continue && moves_to(b, a, idx, with_stack(at(t, p as int), s.drop_last()))
            } else {
                r == StepKind::Fault
            }
        } else {
            r == StepKind::Continue && moves_to(b, a, idx, with_stack(t, s.drop_last()))
        },
        Decoded::Pop => if s.len() == 0 {
            r == StepKind::Fault
        } else {
            r == StepKind::Continue && moves_to(b, a, idx, with_stack(t, s.drop_last()))
        },
        Decoded::Native => native_spec(rt, b, a, idx, t, r),
        Decoded::Throw => if s.len() == 0 {
            r == StepKind::Fault
        } else {
            raises(rt, b, a, idx, with_stack(t, s.drop_last()), Raised::Thrown(s.last()), r)
        },
        Decoded::Debug(line, location) => r == StepKind::Continue && moves_to(
            b,
            a,
            idx,
            ThreadView { debug_line_number: line, location, ..t },
        ),
        Decoded::Breakpoint => r == StepKind::Breakpoint(t.debug_line_number) && moves_to(b, a, idx, t),
        Decoded::Fork => fork_spec(b, a, idx, t, r),
        Decoded::Unknown(_) => r == StepKind::Continue && moves_to(b, a, idx, t),
    }
}

/// A step of one thread that does not fault leaves every other thread as
/// it was; only a `FORK` adds a thread, at the end.
pub proof fn lemma_step_keeps_other_threads<O: GvmObject, N, R: Runtime<Object = O, Native = N>>(rt: R, 
    b: MachineView<O, N>,
    a: MachineView<O, N>,
    idx: int,
    r: StepKind,
)
    requires
        0 <= idx < b.threads.len(),
        step_spec(rt, b, a, idx, r),
        r != StepKind::Fault,
    ensures
        b.threads.len() <= a.threads.len() <= b.threads.len() + 1,
        forall|j: int| 0 <= j < b.threads.len() && j != idx ==> #[trigger] a.threads[j] == b.threads[j],
{
}

/// A step that does not fault only adds to the program: its functions,
/// string constants and native methods stay, and its types and name do not
/// change.
pub proof fn lemma_step_program_grows<O: GvmObject, N, R: Runtime<Object = O, Native = N>>(rt: R, b: MachineView<O, N>, a: MachineView<O, N>, idx: int, r: StepKind)
    requires
        0 <= idx < b.threads.len(),
        step_spec(rt, b, a, idx, r),
        r != StepKind::Fault,
    ensures
        program_grows(b.program, a.program),
{
}

/// A step that does not fault never hands out a heap reference again: the
/// last reference handed out does not decrease.
pub proof fn lemma_step_references_grow<O: GvmObject, N, R: Runtime<Object = O, Native = N>>(rt: R, b: MachineView<O, N>, a: MachineView<O, N>, idx: int, r: StepKind)
    requires
        0 <= idx < b.threads.len(),
        step_spec(rt, b, a, idx, r),
        r != StepKind::Fault,
    ensures
        b.heap.counter <= a.heap.counter,
{
}


/// The built-in boolean type computes the truth tables of its operations on
/// payloads (a payload above 0 is true) and gives booleans 0 or 1: `NOT`
/// is true exactly for a false operand, `AND` exactly when both operands
/// are true, `OR` when at least one is, and `EQL` when both have the same
/// truth value; functions are equal exactly when their payloads are, and an
/// undefined value equals exactly the values of the type named `Undefined`.
pub proof fn lemma_builtin_truth_tables(a: i32, o: Value)
    ensures
        builtin_result(TypeKind::Boolean, Operation::Not, a, None) matches Some((r, k)) && k
            == TypeKind::Boolean && (r == 1 <==> a <= 0) && (r == 0 || r == 1),
        builtin_result(TypeKind::Boolean, Operation::And, a, Some(o)) matches Some((r, k)) && k
            == TypeKind::Boolean && (r == 1 <==> (a > 0 && o.value > 0)) && (r == 0 || r == 1),
        builtin_result(TypeKind::Boolean, Operation::Or, a, Some(o)) matches Some((r, k)) && k
            == TypeKind::Boolean && (r == 0 <==> (a <= 0 && o.value <= 0)) && (r == 0 || r == 1),
        builtin_result(TypeKind::Boolean, Operation::Eql, a, Some(o)) matches Some((r, k)) && k
            == TypeKind::Boolean && (r == 1 <==> ((a > 0) == (o.value > 0))) && (r == 0 || r == 1),
        builtin_result(TypeKind::Function, Operation::Eql, a, Some(o)) matches Some((r, k)) && k
            == TypeKind::Boolean && (r == 1 <==> a == o.value) && (r == 0 || r == 1),
        builtin_result(TypeKind::Undefined, Operation::Eql, a, Some(o)) matches Some((r, k)) && k
            == TypeKind::Boolean && (r == 1 <==> o.type_.name@ == undefined_name()) && (r == 0 || r == 1),
{
}

} // verus!
