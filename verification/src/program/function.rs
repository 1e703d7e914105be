//! A compiled function: bytecode, parameter and local names, catch blocks.
use vstd::prelude::*;

use crate::streams::{RandomAccessByteStream, StreamView};

verus! {

/// A catch block: bytecode in `[try_start, try_end]` is protected and control
/// goes to `catch_start` when an exception is raised there.
pub(crate) struct ExceptionHandler {
    pub(crate) try_start: i32,
    pub(crate) try_end: i32,
    pub(crate) catch_start: i32,
}

/// The names of a list of strings.
pub open spec fn names(v: Seq<String>) -> Seq<Seq<char>> {
    v.map_values(|s: String| s@)
}

/// A catch block as `(try_start, try_end, catch_start)`.
pub type HandlerView = (i32, i32, i32);

/// The abstract state of a function.
pub struct FunctionView {
    pub bytecode: StreamView,
    pub parameters: Seq<Seq<char>>,
    pub locals: Seq<Seq<char>>,
    pub handlers: Seq<HandlerView>,
    pub index: i32,
    pub debug_name: Option<Seq<char>>,
}

/// The distance from a catch block's start to `pc`.
pub open spec fn handler_distance(h: HandlerView, pc: i32) -> int {
    pc - h.0
}

/// Whether a catch block covers `pc`: `pc` lies after its start (by less
/// than `i32::MAX`) and not after its end.
pub open spec fn handler_covers(h: HandlerView, pc: i32) -> bool {
    &&& 0 < handler_distance(h, pc) < i32::MAX
    &&& h.1 >= pc
}

/// Whether `pc - try_start` fits in an `i32` for every catch block.
pub open spec fn handler_distances_fit(hs: Seq<HandlerView>, pc: i32) -> bool {
    forall|j: int| 0 <= j < hs.len() ==> i32::MIN <= #[trigger] handler_distance(hs[j], pc) <= i32::MAX
}

/// Whether block `k` is the innermost block covering `pc`: it covers `pc`,
/// no covering block starts closer to `pc`, and it comes first among those
/// that start as close.
pub open spec fn is_innermost_handler(hs: Seq<HandlerView>, pc: i32, k: int) -> bool {
    &&& 0 <= k < hs.len()
    &&& handler_covers(hs[k], pc)
    &&& forall|j: int|
        0 <= j < hs.len() && handler_covers(hs[j], pc) ==> handler_distance(hs[k], pc)
            <= #[trigger] handler_distance(hs[j], pc)
    &&& forall|j: int|
        0 <= j < k && handler_covers(hs[j], pc) ==> handler_distance(hs[k], pc)
            < #[trigger] handler_distance(hs[j], pc)
}

/// The catch target for an exception raised at `pc`: the target of the
/// innermost covering block, or -1 when no block covers `pc`.
pub open spec fn catch_target(hs: Seq<HandlerView>, pc: i32) -> int {
    if exists|k: int| is_innermost_handler(hs, pc, k) {
        hs[choose|k: int| is_innermost_handler(hs, pc, k)].2 as int
    } else {
        -1
    }
}

/// A compiled function.
pub struct GvmFunction {
    bytecode: RandomAccessByteStream,
    parameters: Vec<String>,
    locals: Vec<String>,
    exception_handlers: Vec<ExceptionHandler>,
    index: i32,
    debug_name: Option<String>,
}

impl View for GvmFunction {
    type V = FunctionView;

    closed spec fn view(&self) -> FunctionView {
        FunctionView {
            bytecode: self.bytecode@,
            parameters: names(self.parameters@),
            locals: names(self.locals@),
            handlers: self.exception_handlers@.map_values(
                |e: ExceptionHandler| (e.try_start, e.try_end, e.catch_start),
            ),
            index: self.index,
            debug_name: match self.debug_name {
                Some(s) => Some(s@),
                None => None,
            },
        }
    }
}

proof fn lemma_innermost_unique(hs: Seq<HandlerView>, pc: i32, a: int, b: int)
    requires
        is_innermost_handler(hs, pc, a),
        is_innermost_handler(hs, pc, b),
    ensures
        a == b,
{
    if a < b {
        assert(handler_distance(hs[a], pc) <= handler_distance(hs[b], pc));
        assert(handler_distance(hs[b], pc) < handler_distance(hs[a], pc));
    } else if b < a {
        assert(handler_distance(hs[b], pc) <= handler_distance(hs[a], pc));
        assert(handler_distance(hs[a], pc) < handler_distance(hs[b], pc));
    }
}

impl GvmFunction {
    /// The function is consistent: its bytecode stream is, and no local
    /// name is registered twice.
    pub closed spec fn wf(&self) -> bool {
        &&& self.bytecode.wf()
        &&& names(self.locals@).no_duplicates()
    }

    /// A consistent function registers each local name once.
    pub proof fn lemma_wf_locals(&self)
        requires
            self.wf(),
        ensures
            self@.locals.no_duplicates(),
    {
    }

    /// A function with the given bytecode and parameter names, no locals,
    /// no catch blocks, index 0 and no debug name.
    pub fn new(bytecode: RandomAccessByteStream, parameters: Vec<String>) -> (f: Self)
        ensures
            f@ == (FunctionView {
                bytecode: bytecode@,
                parameters: names(parameters@),
                locals: Seq::empty(),
                handlers: Seq::empty(),
                index: 0,
                debug_name: None,
            }),
            bytecode.wf() ==> f.wf(),
    {
        let f = GvmFunction {
            bytecode,
            parameters,
            locals: Vec::new(),
            exception_handlers: Vec::new(),
            index: 0,
            debug_name: None,
        };
        assert(names(f.locals@) =~= Seq::empty());
        assert(f@.handlers =~= Seq::empty());
        f
    }

    /// The name given for debugging, if any.
    pub fn debug_name(&self) -> (r: Option<&str>)
        ensures
            match r {
                Some(s) => self@.debug_name == Some(s@),
                None => self@.debug_name is None,
            },
    {
        match &self.debug_name {
            Some(s) => Some(s.as_str()),
            None => None,
        }
    }

    /// Sets the name given for debugging.
    pub fn set_debug_name(&mut self, name: String)
        ensures
            final(self)@ == (FunctionView { debug_name: Some(name@), ..old(self)@ }),
            old(self).wf() ==> final(self).wf(),
    {
        self.debug_name = Some(name);
    }

    /// The bytecode.
    pub fn bytecode(&self) -> (r: &RandomAccessByteStream)
        ensures
            r@ == self@.bytecode,
            self.wf() ==> r.wf(),
    {
        &self.bytecode
    }

    /// The bytecode, for changing it in place.
    pub fn bytecode_mut(&mut self) -> (r: &mut RandomAccessByteStream)
        ensures
            r@ == old(self)@.bytecode,
            old(self).wf() ==> r.wf(),
            final(self)@ == (FunctionView { bytecode: final(r)@, ..old(self)@ }),
            old(self).wf() && final(r).wf() ==> final(self).wf(),
    {
        &mut self.bytecode
    }

    /// Replaces the bytecode.
    pub fn set_bytecode(&mut self, bytecode: RandomAccessByteStream)
        ensures
            final(self)@ == (FunctionView { bytecode: bytecode@, ..old(self)@ }),
            old(self).wf() && bytecode.wf() ==> final(self).wf(),
    {
        self.bytecode = bytecode;
    }

    /// Whether `program_counter - try_start` fits in an `i32` for every catch
    /// block, so that the catch target can be computed.
    pub fn handler_distances_fit(&self, program_counter: i32) -> (r: bool)
        ensures
            r == handler_distances_fit(self@.handlers, program_counter),
    {
        let ghost hs = self@.handlers;
        let mut k: usize = 0;
        while k < self.exception_handlers.len()
            invariant
                k <= self.exception_handlers.len(),
                hs == self@.handlers,
                hs.len() == self.exception_handlers.len(),
                forall|j: int| 0 <= j < k ==> i32::MIN <= #[trigger] handler_distance(hs[j], program_counter) <= i32::MAX,
            decreases self.exception_handlers.len() - k,
        {
            let e = &self.exception_handlers[k];
            assert(hs[k as int] == (e.try_start, e.try_end, e.catch_start));
            let d = program_counter as i64 - e.try_start as i64;
            if d < i32::MIN as i64 || d > i32::MAX as i64 {
                assert(!(i32::MIN <= handler_distance(hs[k as int], program_counter) <= i32::MAX));
                return false;
            }
            k = k + 1;
        }
        true
    }

    /// The catch target for an exception raised at `program_counter`: the
    /// target of the innermost catch block around it, or -1 when there is
    /// none.
    pub fn get_exception_handler(&self, program_counter: i32) -> (r: i32)
        requires
            handler_distances_fit(self@.handlers, program_counter),
        ensures
            r == catch_target(self@.handlers, program_counter),
    {
        let ghost hs = self@.handlers;
        let mut catch_block: i32 = -1;
        let mut distance: i32 = i32::MAX;
        let ghost mut best: int = -1;
        let mut k: usize = 0;
        while k < self.exception_handlers.len()
            invariant
                k <= self.exception_handlers.len(),
                hs == self@.handlers,
                hs.len() == self.exception_handlers.len(),
                handler_distances_fit(hs, program_counter),
                best == -1 ==> catch_block == -1 && distance == i32::MAX && forall|j: int|
                    0 <= j < k ==> !handler_covers(#[trigger] hs[j], program_counter),
                best != -1 ==> 0 <= best < k && catch_block == hs[best].2 && distance
                    == handler_distance(hs[best], program_counter) && handler_covers(
                    hs[best],
                    program_counter,
                ) && (forall|j: int|
                    0 <= j < k && handler_covers(hs[j], program_counter) ==> distance
                        <= #[trigger] handler_distance(hs[j], program_counter)) && (forall|j: int|
                    0 <= j < best && handler_covers(hs[j], program_counter) ==> distance
                        < #[trigger] handler_distance(hs[j], program_counter)),
            decreases self.exception_handlers.len() - k,
        {
            let e = &self.exception_handlers[k];
            assert(hs[k as int] == (e.try_start, e.try_end, e.catch_start));
            assert(i32::MIN <= handler_distance(hs[k as int], program_counter) <= i32::MAX);
            let ld = program_counter - e.try_start;
            if ld > 0 && ld < distance && e.try_end >= program_counter {
                distance = ld;
                catch_block = e.catch_start;
                proof {
                    best = k as int;
                }
            }
            k = k + 1;
        }
        proof {
            if best != -1 {
                assert(is_innermost_handler(hs, program_counter, best));
                let c = choose|c: int| is_innermost_handler(hs, program_counter, c);
                lemma_innermost_unique(hs, program_counter, best, c);
            } else {
                if exists|c: int| is_innermost_handler(hs, program_counter, c) {
                    let c = choose|c: int| is_innermost_handler(hs, program_counter, c);
                    assert(!handler_covers(hs[c], program_counter));
                }
            }
        }
        catch_block
    }

    /// Adds a local variable name unless it is already registered.
    pub fn register_local_variable(&mut self, name: String)
        ensures
            final(self)@ == (FunctionView {
                locals: if old(self)@.locals.contains(name@) {
                    old(self)@.locals
                } else {
                    old(self)@.locals.push(name@)
                },
                ..old(self)@
            }),
            old(self).wf() ==> final(self).wf(),
    {
        let ghost l0 = names(self.locals@);
        let mut found = false;
        let mut k: usize = 0;
        while k < self.locals.len()
            invariant
                k <= self.locals.len(),
                l0 == names(self.locals@),
                found == exists|j: int| 0 <= j < k && l0[j] == name@,
            decreases self.locals.len() - k,
        {
            assert(l0[k as int] == self.locals@[k as int]@);
            if self.locals[k] == name {
                found = true;
            }
            k = k + 1;
        }
        proof {
            if l0.contains(name@) {
                let j = choose|j: int| 0 <= j < l0.len() && l0[j] == name@;
                assert(0 <= j < k && l0[j] == name@);
            }
        }
        if !found {
            self.locals.push(name);
            assert(names(self.locals@) =~= l0.push(name@));
        }
    }

    /// The names of the local variables, in registration order.
    pub fn locals(&self) -> (r: &[String])
        ensures
            names(r@) == self@.locals,
    {
        self.locals.as_slice()
    }

    /// Adds a catch block covering `[start, end]` with target `start_of_catch`.
    pub fn register_catch_block(&mut self, start: i32, end: i32, start_of_catch: i32)
        ensures
            final(self)@ == (FunctionView {
                handlers: old(self)@.handlers.push((start, end, start_of_catch)),
                ..old(self)@
            }),
            old(self).wf() ==> final(self).wf(),
    {
        self.exception_handlers.push(
            ExceptionHandler { try_start: start, try_end: end, catch_start: start_of_catch },
        );
        assert(self@.handlers =~= old(self)@.handlers.push((start, end, start_of_catch)));
    }

    /// The parameter names.
    pub fn parameters(&self) -> (r: &[String])
        ensures
            names(r@) == self@.parameters,
    {
        self.parameters.as_slice()
    }

    /// Sets the function's index.
    pub fn set_index(&mut self, index: i32)
        ensures
            final(self)@ == (FunctionView { index, ..old(self)@ }),
            old(self).wf() ==> final(self).wf(),
    {
        self.index = index;
    }

    /// The function's index.
    pub fn index(&self) -> (r: i32)
        ensures
            r == self@.index,
    {
        self.index
    }

    /// The catch blocks as `[try_start, try_end, catch_start]`, in
    /// registration order.
    pub fn get_exception_handlers(&self) -> (r: Vec<[i32; 3]>)
        ensures
            r@.len() == self@.handlers.len(),
            forall|k: int|
                0 <= k < r@.len() ==> #[trigger] r@[k]@ == seq![
                    self@.handlers[k].0,
                    self@.handlers[k].1,
                    self@.handlers[k].2,
                ],
    {
        let mut r: Vec<[i32; 3]> = Vec::new();
        let mut k: usize = 0;
        while k < self.exception_handlers.len()
            invariant
                k <= self.exception_handlers.len(),
                r@.len() == k,
                self@.handlers.len() == self.exception_handlers.len(),
                forall|j: int|
                    0 <= j < k ==> #[trigger] r@[j]@ == seq![
                        self@.handlers[j].0,
                        self@.handlers[j].1,
                        self@.handlers[j].2,
                    ],
            decreases self.exception_handlers.len() - k,
        {
            let e = &self.exception_handlers[k];
            let a: [i32; 3] = [e.try_start, e.try_end, e.catch_start];
            assert(a@ =~= seq![
                self@.handlers[k as int].0,
                self@.handlers[k as int].1,
                self@.handlers[k as int].2,
            ]);
            r.push(a);
            k = k + 1;
        }
        r
    }
}

} // verus!
