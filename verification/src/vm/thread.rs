//! A thread of the machine: registers, operand stack, call stack and the
//! bytecode being executed.
use vstd::prelude::*;

use crate::program::heap::GvmHeap;
use crate::program::program::GvmProgram;
use crate::streams::{zeros, RandomAccessByteStream, StreamView};
use crate::vm::object::GvmObject;
use crate::vm::stack_frame::StackFrame;
use crate::program::function::GvmFunction;
use crate::text::{concat, uint_to_string};
use crate::vm::semantics::{call_fits, called, is_local_slot, is_parameter};
use crate::vm::types::{new_value, Value, ValueType};

verus! {

/// A thread.
#[derive(Debug)]
pub struct GvmThread {
    pub frame_pointer: i32,
    pub function_pointer: i32,
    pub debug_line_number: i32,
    pub location: i32,
    pub call_stack: Vec<StackFrame>,
    pub stack: Vec<Value>,
    pub bytecode: RandomAccessByteStream,
    pub finished: bool,
}

/// The registers, stacks and bytecode of a thread.
pub struct ThreadView {
    pub frame_pointer: i32,
    pub function_pointer: i32,
    pub debug_line_number: i32,
    pub location: i32,
    pub call_stack: Seq<StackFrame>,
    pub stack: Seq<Value>,
    pub code: StreamView,
    pub finished: bool,
}

impl View for GvmThread {
    type V = ThreadView;

    open spec fn view(&self) -> ThreadView {
        ThreadView {
            frame_pointer: self.frame_pointer,
            function_pointer: self.function_pointer,
            debug_line_number: self.debug_line_number,
            location: self.location,
            call_stack: self.call_stack@,
            stack: self.stack@,
            code: self.bytecode@,
            finished: self.finished,
        }
    }
}

/// Whether two threads agree on everything but the operand stack.
pub open spec fn same_but_stack(a: &GvmThread, b: &GvmThread) -> bool {
    &&& a.frame_pointer == b.frame_pointer
    &&& a.function_pointer == b.function_pointer
    &&& a.debug_line_number == b.debug_line_number
    &&& a.location == b.location
    &&& a.call_stack@ == b.call_stack@
    &&& a.bytecode@ == b.bytecode@
    &&& a.bytecode.wf() == b.bytecode.wf()
    &&& a.finished == b.finished
}

/// The index of the frame that `peel` resumes: the call stack is first cut
/// down to `frame_pointer` frames and then its top frame is taken.
pub open spec fn peel_index(t: &GvmThread) -> int {
    let len = t.call_stack@.len() as int;
    if len > t.frame_pointer {
        t.frame_pointer - 1
    } else {
        len - 1
    }
}

/// A copy of a list of frames.
pub fn clone_frames(frames: &Vec<StackFrame>) -> (r: Vec<StackFrame>)
    ensures
        r@ == frames@,
{
    let mut r: Vec<StackFrame> = Vec::new();
    let mut k: usize = 0;
    while k < frames.len()
        invariant
            k <= frames.len(),
            r@ == frames@.take(k as int),
        decreases frames.len() - k,
    {
        r.push(frames[k].clone());
        k = k + 1;
        assert(r@ =~= frames@.take(k as int));
    }
    assert(frames@.take(frames.len() as int) =~= frames@);
    r
}

/// A copy of a list of values.
pub fn clone_values(values: &Vec<Value>) -> (r: Vec<Value>)
    ensures
        r@ == values@,
{
    let mut r: Vec<Value> = Vec::new();
    let mut k: usize = 0;
    while k < values.len()
        invariant
            k <= values.len(),
            r@ == values@.take(k as int),
        decreases values.len() - k,
    {
        r.push(values[k].clone());
        k = k + 1;
        assert(r@ =~= values@.take(k as int));
    }
    assert(values@.take(values.len() as int) =~= values@);
    r
}

impl GvmThread {
    /// The thread is consistent: its bytecode stream is.
    pub open spec fn wf(&self) -> bool {
        self.bytecode.wf()
    }

    /// The state of a new thread.
    pub open spec fn new_view() -> ThreadView {
        ThreadView {
            frame_pointer: 0,
            function_pointer: 0,
            debug_line_number: -1i32,
            location: 0,
            call_stack: Seq::empty(),
            stack: Seq::empty(),
            code: StreamView { data: zeros(8000), blocksize: 8000, size: 0, pointer: 0 },
            finished: false,
        }
    }

    /// A thread with empty stacks, an empty default bytecode stream, debug
    /// line -1 and all other registers 0.
    pub fn new() -> (t: Self)
        ensures
            t.wf(),
            t@ == GvmThread::new_view(),
            t.frame_pointer == 0,
            t.function_pointer == 0,
            t.debug_line_number == -1,
            t.location == 0,
            t.call_stack@ == Seq::<StackFrame>::empty(),
            t.stack@ == Seq::<Value>::empty(),
            t.bytecode@.size == 0,
            t.bytecode@.pointer == 0,
            t.bytecode@.blocksize == 8000,
            !t.finished,
    {
        GvmThread {
            frame_pointer: 0,
            function_pointer: 0,
            debug_line_number: -1,
            location: 0,
            call_stack: Vec::new(),
            stack: Vec::new(),
            bytecode: RandomAccessByteStream::new(),
            finished: false,
        }
    }

    /// Marks the thread as finished.
    pub fn mark_finished(&mut self)
        ensures
            final(self).finished,
            same_but_stack(&*final(self), &GvmThread { finished: true, ..*old(self) }),
            final(self).stack@ == old(self).stack@,
    {
        self.finished = true;
    }

    /// Pushes a value on the operand stack.
    pub fn stack_push(&mut self, v: Value)
        ensures
            final(self).stack@ == old(self).stack@.push(v),
            same_but_stack(&*final(self), &*old(self)),
    {
        self.stack.push(v);
    }

    /// Pops the top of the operand stack.
    pub fn stack_pop(&mut self) -> (r: Value)
        requires
            old(self).stack@.len() > 0,
        ensures
            r == old(self).stack@.last(),
            final(self).stack@ == old(self).stack@.drop_last(),
            same_but_stack(&*final(self), &*old(self)),
    {
        self.stack.pop().unwrap()
    }

    /// A copy of the top of the operand stack.
    pub fn stack_peek(&self) -> (r: Value)
        requires
            self.stack@.len() > 0,
        ensures
            r == self.stack@.last(),
    {
        self.stack[self.stack.len() - 1].clone()
    }

    /// A copy of the operand stack entry at `index` (0 is the bottom).
    pub fn stack_get(&self, index: usize) -> (r: Value)
        requires
            index < self.stack@.len(),
        ensures
            r == self.stack@[index as int],
    {
        self.stack[index].clone()
    }

    /// Replaces the operand stack entry at `index`.
    pub fn stack_set(&mut self, index: usize, value: Value)
        requires
            index < old(self).stack@.len(),
        ensures
            final(self).stack@ == old(self).stack@.update(index as int, value),
            same_but_stack(&*final(self), &*old(self)),
    {
        self.stack.set(index, value);
    }

    /// The number of values on the operand stack.
    pub fn stack_size(&self) -> (r: usize)
        ensures
            r == self.stack@.len(),
    {
        self.stack.len()
    }

    /// Takes the top `k` values off the operand stack; the result holds them
    /// from the top down.
    pub fn pop_values(&mut self, k: usize) -> (r: Vec<Value>)
        requires
            k <= old(self).stack@.len(),
        ensures
            final(self).stack@ == old(self).stack@.take(old(self).stack@.len() - k),
            same_but_stack(&*final(self), &*old(self)),
            r@.len() == k,
            forall|i: int| 0 <= i < k ==> #[trigger] r@[i] == old(self).stack@[old(self).stack@.len() - 1 - i],
    {
        let ghost n = self.stack@.len();
        let mut r: Vec<Value> = Vec::new();
        let mut i: usize = 0;
        while i < k
            invariant
                i <= k,
                k <= n,
                n == old(self).stack@.len(),
                self.stack@ == old(self).stack@.take(n - i),
                same_but_stack(&*self, &*old(self)),
                r@.len() == i,
                forall|j: int| 0 <= j < i ==> #[trigger] r@[j] == old(self).stack@[n - 1 - j],
            decreases k - i,
        {
            let v = self.stack.pop().unwrap();
            r.push(v);
            i = i + 1;
            assert(self.stack@ =~= old(self).stack@.take(n - i));
        }
        r
    }

    /// Enters function `f` (whose id is `callee`) called from `caller`: the
    /// arguments on top of the operand stack become the parameters, the
    /// value below them the `this` scope of a new frame, undefined locals
    /// are pushed and `f` runs from its start.
    pub fn enter(&mut self, f: &GvmFunction, caller: i32, callee: i32)
        requires
            old(self).wf(),
            f.wf(),
            call_fits(old(self)@, f@),
            f@.parameters.len() <= i32::MAX,
        ensures
            final(self).wf(),
            called(old(self)@, final(self)@, f@, caller, callee),
    {
        let m = self.stack.len();
        let pc = f.parameters().len();
        let lc = f.locals().len();
        let base = m - pc;
        let mut args: Vec<Value> = Vec::new();
        let mut i: usize = 0;
        while i < pc
            invariant
                i <= pc,
                base + pc == m,
                m == self.stack@.len(),
                self.stack@ == old(self).stack@,
                args@ == self.stack@.subrange(base as int, base + i),
            decreases pc - i,
        {
            args.push(self.stack[base + i].clone());
            i = i + 1;
            assert(args@ =~= self.stack@.subrange(base as int, base + i));
        }
        self.stack.truncate(base);
        let scope = self.stack[base - 1].clone();
        let frame = StackFrame::new(
            self.bytecode.get_pointer_position(),
            self.frame_pointer,
            caller,
            self.debug_line_number,
            self.location,
            scope,
        );
        self.call_stack.push(frame);
        self.frame_pointer = (base - 1) as i32;
        self.function_pointer = callee;
        let ghost s0 = old(self).stack@;
        let ghost t1 = self@;
        let mut i: usize = 0;
        while i < pc
            invariant
                i <= pc,
                pc <= i32::MAX,
                base + pc == m,
                m == s0.len(),
                args@ == s0.subrange(base as int, m as int),
                self.stack@.len() == base + i,
                self.wf(),
                self@ == (ThreadView { stack: self@.stack, ..t1 }),
                pc == f@.parameters.len(),
                lc == f@.locals.len(),
                self.stack@.take(base as int) == s0.take(base as int),
                forall|j: int| 0 <= j < i ==> is_parameter(#[trigger] self.stack@.skip(base as int)[j], s0.skip(base as int)[j], j),
            decreases pc - i,
        {
            let a = &args[i];
            let p = Value {
                value: a.value,
                type_: a.type_.clone(),
                comment: Some(concat("Function parameter ", uint_to_string(i).as_str())),
                source: a.source.clone(),
            };
            let ghost before = self.stack@;
            self.stack.push(p);
            proof {
                assert(self.stack@.take(base as int) =~= before.take(base as int));
                assert forall|j: int| 0 <= j < i + 1 implies is_parameter(#[trigger] self.stack@.skip(base as int)[j], s0.skip(base as int)[j], j) by {
                    assert(self.stack@.skip(base as int)[j] == self.stack@[base + j]);
                    assert(s0.skip(base as int)[j] == s0[base + j]);
                    if j < i {
                        assert(before.skip(base as int)[j] == before[base + j]);
                    } else {
                        assert(args@[j] == s0[base + j]);
                    }
                }
            }
            i = i + 1;
        }
        let mut l: usize = 0;
        while l < lc
            invariant
                l <= lc,
                pc <= i32::MAX,
                base + pc == m,
                m == s0.len(),
                self.stack@.len() == base + pc + l,
                self.wf(),
                self@ == (ThreadView { stack: self@.stack, ..t1 }),
                pc == f@.parameters.len(),
                lc == f@.locals.len(),
                self.stack@.take(base as int) == s0.take(base as int),
                forall|j: int| 0 <= j < pc ==> is_parameter(#[trigger] self.stack@.skip(base as int)[j], s0.skip(base as int)[j], j),
                forall|j: int| 0 <= j < l ==> is_local_slot(#[trigger] self.stack@.skip(base + pc)[j], j),
            decreases lc - l,
        {
            let v = Value::with_comment(
                0,
                ValueType::undefined(),
                concat("Local variable ", uint_to_string(l).as_str()),
            );
            let ghost before = self.stack@;
            self.stack.push(v);
            proof {
                assert(self.stack@.take(base as int) =~= before.take(base as int));
                assert forall|j: int| 0 <= j < pc implies is_parameter(#[trigger] self.stack@.skip(base as int)[j], s0.skip(base as int)[j], j) by {
                    assert(self.stack@.skip(base as int)[j] == self.stack@[base + j]);
                    assert(before.skip(base as int)[j] == before[base + j]);
                }
                assert forall|j: int| 0 <= j < l + 1 implies is_local_slot(#[trigger] self.stack@.skip(base + pc)[j], j) by {
                    assert(self.stack@.skip(base + pc)[j] == self.stack@[base + pc + j]);
                    if j < l {
                        assert(before.skip(base + pc)[j] == before[base + pc + j]);
                    }
                }
            }
            l = l + 1;
        }
        let mut code = f.bytecode().clone();
        code.seek(0);
        self.bytecode = code;
    }

    /// Whether `peel` can unwind this thread in `program` without failing:
    /// there is a frame to resume, its function exists, and its resume
    /// position lies inside that function's bytecode.
    pub open spec fn can_peel<N>(&self, program: &GvmProgram<N>) -> bool {
        let len = self.call_stack@.len();
        &&& len <= i32::MAX
        &&& len != 1 ==> {
            &&& len >= 1
            &&& self.frame_pointer >= 1
            &&& program@.functions.contains_key(self.call_stack@[peel_index(self)].calling_function)
            &&& program.function_wf(self.call_stack@[peel_index(self)].calling_function)
            &&& 0 <= self.call_stack@[peel_index(self)].program_counter < program@.functions[
                self.call_stack@[peel_index(self)].calling_function].bytecode.data.len()
        }
    }

    /// Unwinds to the caller of the current function: returns false when only
    /// one frame is left; otherwise drops the frames above `frame_pointer`,
    /// pops the next one and resumes its function where it left off.
    pub fn peel<N>(&mut self, program: &GvmProgram<N>) -> (r: bool)
        requires
            old(self).can_peel(program),
        ensures
            r == (old(self).call_stack@.len() != 1),
            !r ==> *final(self) == *old(self),
            r ==> {
                let k = peel_index(&*old(self));
                let frame = old(self).call_stack@[k];
                &&& final(self).call_stack@ == old(self).call_stack@.take(k)
                &&& final(self).debug_line_number == frame.line_number
                &&& final(self).function_pointer == frame.calling_function
                &&& final(self).frame_pointer == frame.frame_pointer
                &&& final(self).location == frame.location
                &&& final(self).bytecode@ == program@.functions[frame.calling_function].bytecode.with_pointer(
                    frame.program_counter as int,
                )
                &&& final(self).wf()
                &&& final(self).stack@ == old(self).stack@
                &&& final(self).finished == old(self).finished
            },
    {
        if self.call_stack.len() == 1 {
            return false;
        }
        let ghost k = peel_index(&*old(self));
        while self.call_stack.len() as i32 > self.frame_pointer
            invariant
                self.call_stack@ == old(self).call_stack@.take(self.call_stack@.len() as int),
                self.call_stack@.len() <= old(self).call_stack@.len(),
                self.call_stack@.len() > k,
                old(self).call_stack@.len() <= i32::MAX,
                self.frame_pointer == old(self).frame_pointer,
                self.stack@ == old(self).stack@,
                self.finished == old(self).finished,
                self.frame_pointer >= 1,
                k == if old(self).call_stack@.len() > old(self).frame_pointer {
                    old(self).frame_pointer - 1
                } else {
                    old(self).call_stack@.len() - 1
                },
                self.frame_pointer > self.call_stack@.len() ==> self.call_stack@.len()
                    == old(self).call_stack@.len(),
            decreases self.call_stack@.len(),
        {
            self.call_stack.pop();
            assert(self.call_stack@ =~= old(self).call_stack@.take(self.call_stack@.len() as int));
        }
        assert(self.call_stack@.len() == k + 1);
        let frame = self.call_stack.pop().unwrap();
        assert(self.call_stack@ =~= old(self).call_stack@.take(k));
        self.debug_line_number = frame.line_number;
        self.function_pointer = frame.calling_function;
        self.frame_pointer = frame.frame_pointer;
        self.location = frame.location;
        let pc = frame.program_counter;
        let function = program.get_function(self.function_pointer).unwrap();
        let mut bytecode = function.bytecode().clone();
        bytecode.seek(pc);
        self.bytecode = bytecode;
        true
    }

    /// Whether `fork` can copy this thread with `heap` without failing: there
    /// is a frame, its scope object exists, a fresh reference is left, and the
    /// bytecode position can be restored.
    pub open spec fn can_fork<O>(&self, heap: &GvmHeap<O>) -> bool {
        &&& self.wf()
        &&& self.call_stack@.len() > 0
        &&& heap@.objects.contains_key(self.call_stack@.last().scope.value)
        &&& heap@.counter < i32::MAX
        &&& self.bytecode@.pointer < self.bytecode@.data.len()
        &&& self.bytecode@.pointer <= i32::MAX
    }

    /// A copy of this thread for `FORK`: the same registers, operand stack and
    /// bytecode position, and the same call stack except that the top frame's
    /// scope object is copied into a new heap object.
    pub fn fork<O: GvmObject>(&self, heap: &mut GvmHeap<O>) -> (t: GvmThread)
        requires
            self.can_fork(&*old(heap)),
        ensures
            ({
                let id = (old(heap)@.counter + 1) as i32;
                let len = self.call_stack@.len() as int;
                let top = self.call_stack@[len - 1];
                &&& final(heap)@.counter == id
                &&& final(heap)@.objects.dom() == old(heap)@.objects.dom().insert(id)
                &&& forall|k: i32|
                    k != id && #[trigger] old(heap)@.objects.contains_key(k) ==> final(heap)@.objects[k]
                        == old(heap)@.objects[k]
                &&& call_ensures(
                    O::clone_object,
                    (&old(heap)@.objects[top.scope.value],),
                    final(heap)@.objects[id],
                )
                &&& old(heap)@.valid() ==> final(heap)@.valid()
                &&& t.call_stack@.len() == len
                &&& t.call_stack@.take(len - 1) == self.call_stack@.take(len - 1)
                &&& t.call_stack@[len - 1] == (StackFrame {
                    scope: new_value(id, top.scope.type_),
                    ..top
                })
                &&& t.stack@ == self.stack@
                &&& t.frame_pointer == self.frame_pointer
                &&& t.function_pointer == self.function_pointer
                &&& t.debug_line_number == self.debug_line_number
                &&& t.location == self.location
                &&& t.bytecode@ == self.bytecode@
                &&& t.wf()
                &&& !t.finished
            }),
    {
        let mut new_call_stack = clone_frames(&self.call_stack);
        let toclone = new_call_stack.pop().unwrap();
        let v = &toclone.scope;
        let cloned_scope = heap.get_object(v.value).unwrap().clone_object();
        let ref_ = heap.add_object(cloned_scope);
        let new_scope = Value::new(ref_, v.type_.clone());
        new_call_stack.push(
            StackFrame::new(
                toclone.program_counter,
                toclone.frame_pointer,
                toclone.calling_function,
                toclone.line_number,
                toclone.location,
                new_scope,
            ),
        );
        let new_stack = clone_values(&self.stack);
        let mut thread = GvmThread {
            frame_pointer: self.frame_pointer,
            function_pointer: self.function_pointer,
            debug_line_number: self.debug_line_number,
            location: self.location,
            call_stack: new_call_stack,
            stack: new_stack,
            bytecode: self.bytecode.clone(),
            finished: false,
        };
        thread.bytecode.seek(self.bytecode.get_pointer_position());
        assert(thread.call_stack@.take(self.call_stack@.len() - 1) =~= self.call_stack@.take(
            self.call_stack@.len() - 1,
        ));
        thread
    }
}

impl Default for GvmThread {
    /// The same as `GvmThread::new()`.
    fn default() -> (t: Self)
        ensures
            t.wf(),
            t.call_stack@ == Seq::<StackFrame>::empty(),
            t.stack@ == Seq::<Value>::empty(),
    {
        Self::new()
    }
}

} // verus!
