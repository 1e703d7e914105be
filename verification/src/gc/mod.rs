//! Mark-and-sweep garbage collection of the heap.
use vstd::prelude::*;
use std::collections::HashSet;

use crate::program::heap::GvmHeap;
use crate::program::heap::HeapView;
use crate::vm::object::GvmObject;
use crate::vm::thread::GvmThread;
use crate::vm::types::{Operation, Value};

verus! {

broadcast use {vstd::std_specs::hash::group_hash_axioms, vstd::set::group_set_axioms};

/// Whether `v` refers to a heap object: the type it carries supports `Get`
/// and the heap holds an object under its payload.
pub open spec fn refers_to_object<O>(v: Value, heap: HeapView<O>) -> bool {
    &&& v.type_.operations.allows(Operation::Get)
    &&& heap.objects.contains_key(v.value)
}

/// Whether `r` is a root of collection: a heap object referred to by the
/// scope of a frame or by an operand stack entry of some thread.
pub open spec fn is_root<O>(
    r: i32,
    threads: Seq<GvmThread>,
    heap: HeapView<O>,
) -> bool {
    exists|t: int| 0 <= t < threads.len() && #[trigger] is_root_of_thread(r, threads[t], heap)
}

/// A collector of unreachable heap objects.
pub trait GarbageCollector<O: GvmObject> {
    /// Removes heap objects that no thread can reach; returns whether a
    /// collection ran.
    fn collect(&mut self, heap: &mut GvmHeap<O>, threads: &[GvmThread]) -> (ran: bool)
        requires
            old(heap)@.valid(),
        ensures
            final(heap)@.valid(),
    ;
}

/// A collector that runs when the heap holds at least a threshold of
/// objects, keeps what the threads reach and then doubles the threshold
/// until it is at least the number of surviving objects.
pub struct MarkAndSweepGarbageCollector {
    current_heap_size_threshold: usize,
}

impl MarkAndSweepGarbageCollector {
    #[verifier::type_invariant]
    spec fn threshold_positive(self) -> bool {
        self.current_heap_size_threshold >= 1
    }

    /// A collector with threshold 200.
    pub fn new() -> (c: Self)
        ensures
            c.threshold() == 200,
    {
        MarkAndSweepGarbageCollector { current_heap_size_threshold: 200 }
    }

    /// The heap size at which the next collection runs.
    pub closed spec fn threshold(&self) -> nat {
        self.current_heap_size_threshold as nat
    }

    fn is_object_ref<O: GvmObject>(v: &Value, heap: &GvmHeap<O>) -> (r: bool)
        ensures
            r == refers_to_object(*v, heap@),
    {
        v.type_.operations.permits(Operation::Get) && heap.get_object(v.value).is_some()
    }

    /// Marks every object reachable from `start` (an object of the heap) by
    /// following the fields whose values refer to heap objects; `rec` records
    /// the field values read from each marked object.
    fn search<O: GvmObject>(
        &self,
        start: i32,
        alive: &mut HashSet<i32>,
        rec: &mut Ghost<Map<i32, Vec<Value>>>,
        roots: Ghost<Set<i32>>,
        heap: &GvmHeap<O>,
    )
        requires
            heap@.objects.contains_key(start),
            roots@.contains(start),
            forall|x: i32| #[trigger] old(alive)@.contains(x) ==> reachable(x, roots@, heap@),
            heap@.valid(),
            old(alive)@.subset_of(heap@.objects.dom()),
            records_fields(old(alive)@, old(rec)@, heap@, Seq::empty()),
        ensures
            final(alive)@.subset_of(heap@.objects.dom()),
            old(alive)@.subset_of(final(alive)@),
            final(alive)@.contains(start),
            records_fields(final(alive)@, final(rec)@, heap@, Seq::empty()),
            forall|x: i32| #[trigger] final(alive)@.contains(x) ==> reachable(x, roots@, heap@),
    {
        let ghost dom = heap@.objects.dom();
        let ghost h = heap@;
        let mut work: Vec<i32> = Vec::new();
        work.push(start);
        proof {
            lemma_records_more(alive@, rec@, h, Seq::empty(), work@);
            assert(reachable_within(start, 0, roots@, h));
        }
        while work.len() > 0
            invariant
                dom == heap@.objects.dom(),
                h == heap@,
                dom.finite(),
                alive@.subset_of(dom),
                old(alive)@.subset_of(alive@),
                forall|j: int| 0 <= j < work@.len() ==> dom.contains(#[trigger] work@[j]),
                alive@.contains(start) || (work@.len() == 1 && work@[0] == start),
                records_fields(alive@, rec@, h, work@),
                forall|x: i32| #[trigger] alive@.contains(x) ==> reachable(x, roots@, h),
                forall|j: int| 0 <= j < work@.len() ==> reachable(#[trigger] work@[j], roots@, h),
            decreases dom.len() - alive@.len(), work@.len(),
        {
            let ghost w0 = work@;
            let r = work.pop().unwrap();
            proof {
                vstd::set_lib::lemma_len_subset(alive@, dom);
                assert(w0 == work@.push(r));
            }
            if !alive.contains(&r) {
                alive.insert(r);
                assert(alive@.contains(start));
                proof {
                    vstd::set_lib::lemma_len_subset(alive@, dom);
                }
                match heap.get_object(r) {
                    Some(obj) => {
                        let values = obj.get_values();
                        proof {
                            rec@ = rec@.insert(r, values);
                        }
                        let mut k: usize = 0;
                        while k < values.len()
                            invariant
                                k <= values.len(),
                                dom == heap@.objects.dom(),
                                h == heap@,
                                forall|j: int| 0 <= j < work@.len() ==> dom.contains(#[trigger] work@[j]),
                                alive@.contains(start),
                                alive@.contains(r),
                                *obj == h.objects[r],
                                rec@.contains_key(r),
                                rec@[r] == values,
                                call_ensures(O::get_values, (obj,), values),
                                forall|i: int|
                                    0 <= i < k && refers_to_object(#[trigger] values@[i], h)
                                        ==> alive@.contains(values@[i].value) || work@.contains(values@[i].value),
                                records_except(alive@, rec@, h, w0, r),
                                forall|x: i32| #[trigger] alive@.contains(x) ==> reachable(x, roots@, h),
                                forall|j: int| 0 <= j < work@.len() ==> reachable(#[trigger] work@[j], roots@, h),
                                forall|y: i32| #[trigger] w0.contains(y) && y != r ==> work@.contains(y),
                            decreases values.len() - k,
                        {
                            let v = &values[k];
                            let ghost before = work@;
                            if Self::is_object_ref(v, heap) {
                                proof {
                                    let n = choose|n: nat| #[trigger] reachable_within(r, n, roots@, h);
                                    assert(values@[k as int].value == v.value);
                                    assert(reachable_within(v.value, n + 1, roots@, h));
                                }
                                work.push(v.value);
                                proof {
                                    assert(work@[work@.len() - 1] == v.value);
                                    assert forall|y: i32| before.contains(y) implies work@.contains(y) by {
                                        let j = choose|j: int| 0 <= j < before.len() && before[j] == y;
                                        assert(work@[j] == y);
                                    }
                                }
                            }
                            k = k + 1;
                        }
                        proof {
                            assert forall|x: i32| #[trigger] alive@.contains(x) implies kept_entry(
                                x, alive@, rec@, h, work@) by {
                                if x != r {
                                    assert forall|i: int|
                                        0 <= i < rec@[x]@.len() && refers_to_object(#[trigger] rec@[x]@[i], h)
                                            implies alive@.contains(rec@[x]@[i].value) || work@.contains(rec@[x]@[i].value) by {
                                        let y = rec@[x]@[i].value;
                                        if !alive@.contains(y) {
                                            assert(w0.contains(y));
                                            assert(y != r);
                                        }
                                    }
                                }
                            }
                        }
                    },
                    None => {},
                }
            } else {
                proof {
                    assert forall|x: i32| #[trigger] alive@.contains(x) implies kept_entry(
                        x, alive@, rec@, h, work@) by {
                        assert(kept_entry(x, alive@, rec@, h, w0));
                        assert forall|i: int|
                            0 <= i < rec@[x]@.len() && refers_to_object(#[trigger] rec@[x]@[i], h)
                                implies alive@.contains(rec@[x]@[i].value) || work@.contains(rec@[x]@[i].value) by {
                            let y = rec@[x]@[i].value;
                            if !alive@.contains(y) {
                                assert(w0.contains(y));
                                let j = choose|j: int| 0 <= j < w0.len() && w0[j] == y;
                                assert(j != w0.len() - 1);
                                assert(work@[j] == y);
                            }
                        }
                    }
                }
            }
        }
    }
}

/// Whether the marked object `x` has its field values recorded in `rec`, as
/// `get_values` gave them, and each one that refers to a heap object is
/// marked or still `pending`.
pub open spec fn kept_entry<O: GvmObject>(
    x: i32,
    alive: Set<i32>,
    rec: Map<i32, Vec<Value>>,
    heap: HeapView<O>,
    pending: Seq<i32>,
) -> bool {
    &&& rec.contains_key(x)
    &&& call_ensures(O::get_values, (&heap.objects[x],), rec[x])
    &&& forall|i: int|
        0 <= i < rec[x]@.len() && refers_to_object(#[trigger] rec[x]@[i], heap) ==> alive.contains(
            rec[x]@[i].value,
        ) || pending.contains(rec[x]@[i].value)
}

/// `kept_entry` for every marked object.
pub open spec fn records_fields<O: GvmObject>(
    alive: Set<i32>,
    rec: Map<i32, Vec<Value>>,
    heap: HeapView<O>,
    pending: Seq<i32>,
) -> bool {
    forall|x: i32| #[trigger] alive.contains(x) ==> kept_entry(x, alive, rec, heap, pending)
}

/// `kept_entry` for every marked object but `r`.
pub open spec fn records_except<O: GvmObject>(
    alive: Set<i32>,
    rec: Map<i32, Vec<Value>>,
    heap: HeapView<O>,
    pending: Seq<i32>,
    r: i32,
) -> bool {
    forall|x: i32| #[trigger] alive.contains(x) && x != r ==> kept_entry(x, alive, rec, heap, pending)
}

proof fn lemma_records_more<O: GvmObject>(
    alive: Set<i32>,
    rec: Map<i32, Vec<Value>>,
    heap: HeapView<O>,
    a: Seq<i32>,
    b: Seq<i32>,
)
    requires
        records_fields(alive, rec, heap, a),
        forall|y: i32| a.contains(y) ==> #[trigger] b.contains(y),
    ensures
        records_fields(alive, rec, heap, b),
{
    assert forall|x: i32| #[trigger] alive.contains(x) implies kept_entry(x, alive, rec, heap, b) by {
        assert(kept_entry(x, alive, rec, heap, a));
    }
}

/// Whether every field value of an object in `alive` that refers to a heap
/// object refers to one in `alive`, for the values `get_values` gave.
pub open spec fn fields_kept<O: GvmObject>(alive: Set<i32>, heap: HeapView<O>) -> bool {
    forall|x: i32|
        #[trigger] alive.contains(x) ==> exists|vs: Vec<Value>|
            {
                &&& call_ensures(O::get_values, (&heap.objects[x],), vs)
                &&& forall|i: int|
                    0 <= i < vs@.len() && refers_to_object(#[trigger] vs@[i], heap) ==> alive.contains(
                        vs@[i].value,
                    )
            }
}

impl Default for MarkAndSweepGarbageCollector {
    /// The same as `MarkAndSweepGarbageCollector::new()`.
    fn default() -> (c: Self)
        ensures
            c.threshold() == 200,
    {
        Self::new()
    }
}

impl<O: GvmObject> GarbageCollector<O> for MarkAndSweepGarbageCollector {
    fn collect(&mut self, heap: &mut GvmHeap<O>, threads: &[GvmThread]) -> (ran: bool)
        ensures
            ran == (old(heap)@.objects.len() >= old(self).threshold()),
            !ran ==> final(heap)@ == old(heap)@ && final(self).threshold() == old(self).threshold(),
            ran ==> exists|alive: Set<i32>|
                {
                    &&& final(heap)@.objects == old(heap)@.objects.restrict(alive)
                    &&& forall|r: i32|
                        is_root(r, threads@, old(heap)@) ==> #[trigger] alive.contains(r)
                    &&& fields_kept(alive, old(heap)@)
                    &&& forall|x: i32|
                        #[trigger] alive.contains(x) ==> reachable(
                            x,
                            roots_of(threads@, old(heap)@),
                            old(heap)@
                        )
                },
            ran ==> exists|j: nat|
                {
                    &&& final(self).threshold() == #[trigger] doubled(old(self).threshold(), j)
                    &&& j > 0 ==> doubled(old(self).threshold(), (j - 1) as nat) < final(heap)@.objects.len()
                },
            ran ==> final(heap)@.counter == old(heap)@.counter,
            ran ==> final(self).threshold() >= final(heap)@.objects.len(),
            ran ==> final(self).threshold() >= old(self).threshold(),
            ran && final(self).threshold() > old(self).threshold() ==> final(self).threshold()
                < 2 * final(heap)@.objects.len(),
    {
        proof {
            use_type_invariant(&*self);
        }
        if heap.size() < self.current_heap_size_threshold {
            return false;
        }
        let ghost h0 = heap@;
        let mut alive: HashSet<i32> = HashSet::new();
        let mut rec: Ghost<Map<i32, Vec<Value>>> = Ghost(Map::empty());
        let mut t: usize = 0;
        while t < threads.len()
            invariant
                t <= threads.len(),
                heap@ == h0,
                h0.valid(),
                alive@.subset_of(h0.objects.dom()),
                records_fields(alive@, rec@, h0, Seq::empty()),
                forall|x: i32|
                    #[trigger] alive@.contains(x) ==> reachable(x, roots_of(threads@, h0), h0),
                forall|r: i32|
                    #[trigger] alive@.contains(r) || !exists|tt: int|
                        0 <= tt < t && is_root_of_thread(r, threads@[tt], heap@),
            decreases threads.len() - t,
        {
            let thread = &threads[t];
            let mut f: usize = 0;
            while f < thread.call_stack.len()
                invariant
                    f <= thread.call_stack.len(),
                    heap@ == h0,
                    h0.valid(),
                    alive@.subset_of(h0.objects.dom()),
                    records_fields(alive@, rec@, h0, Seq::empty()),
                    forall|x: i32|
                        #[trigger] alive@.contains(x) ==> reachable(x, roots_of(threads@, h0), h0),
                    t < threads.len(),
                    *thread == threads@[t as int],
                    forall|r: i32|
                        #[trigger] alive@.contains(r) || !exists|tt: int|
                            0 <= tt < t && is_root_of_thread(r, threads@[tt], heap@),
                    forall|j: int|
                        0 <= j < f && refers_to_object(thread.call_stack@[j].scope, heap@)
                            ==> alive@.contains(#[trigger] thread.call_stack@[j].scope.value),
                decreases thread.call_stack.len() - f,
            {
                let v = &thread.call_stack[f].scope;
                if Self::is_object_ref(v, heap) {
                    proof {
                        assert(thread.call_stack@[f as int].scope.value == v.value);
                        assert(is_root_of_thread(v.value, threads@[t as int], h0));
                        assert(is_root(v.value, threads@, h0));
                    }
                    self.search(v.value, &mut alive, &mut rec, Ghost(roots_of(threads@, h0)), heap);
                }
                f = f + 1;
            }
            let mut s: usize = 0;
            while s < thread.stack.len()
                invariant
                    s <= thread.stack.len(),
                    heap@ == h0,
                    h0.valid(),
                    alive@.subset_of(h0.objects.dom()),
                    records_fields(alive@, rec@, h0, Seq::empty()),
                    forall|x: i32|
                        #[trigger] alive@.contains(x) ==> reachable(x, roots_of(threads@, h0), h0),
                    t < threads.len(),
                    *thread == threads@[t as int],
                    forall|r: i32|
                        #[trigger] alive@.contains(r) || !exists|tt: int|
                            0 <= tt < t && is_root_of_thread(r, threads@[tt], heap@),
                    forall|j: int|
                        0 <= j < thread.call_stack@.len() && refers_to_object(
                            thread.call_stack@[j].scope,
                            heap@
                        ) ==> alive@.contains(#[trigger] thread.call_stack@[j].scope.value),
                    forall|j: int|
                        0 <= j < s && refers_to_object(thread.stack@[j], heap@)
                            ==> alive@.contains(#[trigger] thread.stack@[j].value),
                decreases thread.stack.len() - s,
            {
                let v = &thread.stack[s];
                if !alive.contains(&v.value) && Self::is_object_ref(v, heap) {
                    proof {
                        assert(thread.stack@[s as int].value == v.value);
                        assert(is_root_of_thread(v.value, threads@[t as int], h0));
                        assert(is_root(v.value, threads@, h0));
                    }
                    self.search(v.value, &mut alive, &mut rec, Ghost(roots_of(threads@, h0)), heap);
                }
                s = s + 1;
            }
            proof {
                assert forall|r: i32|
                    #[trigger] alive@.contains(r) || !exists|tt: int|
                        0 <= tt < t + 1 && is_root_of_thread(r, threads@[tt], heap@) by {
                    if exists|tt: int| 0 <= tt < t + 1 && is_root_of_thread(r, threads@[tt], heap@) {
                        let tt = choose|tt: int|
                            0 <= tt < t + 1 && is_root_of_thread(r, threads@[tt], heap@);
                        if tt == t {
                            assert(threads@[tt] == *thread);
                        }
                    }
                }
            }
            t = t + 1;
        }
        let ghost kept = alive@;
        proof {
            assert forall|x: i32| #[trigger] kept.contains(x) implies exists|vs: Vec<Value>|
                {
                    &&& call_ensures(O::get_values, (&h0.objects[x],), vs)
                    &&& forall|i: int|
                        0 <= i < vs@.len() && refers_to_object(#[trigger] vs@[i], h0)
                            ==> kept.contains(vs@[i].value)
                } by {
                assert(kept_entry(x, kept, rec@, h0, Seq::empty()));
                let vs = rec@[x];
                assert forall|i: int|
                    0 <= i < vs@.len() && refers_to_object(#[trigger] vs@[i], h0)
                        implies kept.contains(vs@[i].value) by {
                    assert(!Seq::<i32>::empty().contains(vs@[i].value));
                }
            }
        }
        heap.retain_keys(&alive);
        proof {
            assert forall|r: i32| is_root(r, threads@, old(heap)@) implies #[trigger] kept.contains(r) by {
                let tt = choose|tt: int|
                    0 <= tt < threads@.len() && #[trigger] is_root_of_thread(r, threads@[tt], old(heap)@);
            }
            assert(fields_kept(kept, old(heap)@));
            assert(forall|x: i32| #[trigger] kept.contains(x) ==> reachable(x, roots_of(threads@, old(heap)@), old(heap)@));
            assert(heap@.objects == old(heap)@.objects.restrict(kept));
        }
        let size = heap.size();
        let ghost mut j: nat = 0;
        while size > self.current_heap_size_threshold
            invariant
                size == heap@.objects.len(),
                self.current_heap_size_threshold == doubled(old(self).threshold(), j),
                j > 0 ==> doubled(old(self).threshold(), (j - 1) as nat) < size,
                self.current_heap_size_threshold >= 1,
                self.current_heap_size_threshold >= old(self).current_heap_size_threshold,
                self.current_heap_size_threshold > old(self).current_heap_size_threshold
                    ==> self.current_heap_size_threshold < 2 * heap@.objects.len(),
            decreases usize::MAX - self.current_heap_size_threshold,
        {
            let t = self.current_heap_size_threshold;
            self.current_heap_size_threshold = if t <= usize::MAX / 2 {
                t * 2
            } else {
                usize::MAX
            };
            assert(self.current_heap_size_threshold > t);
            proof {
                j = j + 1;
                assert(doubled(old(self).threshold(), j) == self.current_heap_size_threshold);
            }
        }
        true
    }
}

/// Whether `r` can be reached from `roots` in at most `n` steps, each from
/// a reached object to a heap object that one of the field values
/// `get_values` gives for it refers to.
pub open spec fn reachable_within<O: GvmObject>(
    r: i32,
    n: nat,
    roots: Set<i32>,
    heap: HeapView<O>,
) -> bool
    decreases n,
{
    ||| roots.contains(r)
    ||| n > 0 && exists|q: i32, vs: Vec<Value>, i: int|
        {
            &&& reachable_within(q, (n - 1) as nat, roots, heap)
            &&& #[trigger] call_ensures(O::get_values, (&heap.objects[q],), vs)
            &&& 0 <= i < vs@.len()
            &&& #[trigger] vs@[i].value == r
            &&& refers_to_object(vs@[i], heap)
        }
}

/// Whether `r` can be reached from `roots`.
pub open spec fn reachable<O: GvmObject>(r: i32, roots: Set<i32>, heap: HeapView<O>) -> bool {
    exists|n: nat| #[trigger] reachable_within(r, n, roots, heap)
}

/// The roots of collection, as a set.
pub open spec fn roots_of<O>(threads: Seq<GvmThread>, heap: HeapView<O>) -> Set<i32> {
    Set::new(|r: i32| is_root(r, threads, heap))
}

/// The threshold `t` doubled `j` times, staying at `usize::MAX` once
/// doubling would pass it.
pub open spec fn doubled(t: nat, j: nat) -> nat
    decreases j,
{
    if j == 0 {
        t
    } else {
        let p = doubled(t, (j - 1) as nat);
        if p <= usize::MAX / 2 {
            2 * p
        } else {
            usize::MAX as nat
        }
    }
}

/// Whether `r` is a root of collection in one thread.
pub open spec fn is_root_of_thread<O>(r: i32, thread: GvmThread, heap: HeapView<O>) -> bool {
    (exists|f: int|
        0 <= f < thread.call_stack@.len() && #[trigger] thread.call_stack@[f].scope.value == r
            && refers_to_object(thread.call_stack@[f].scope, heap)) || (exists|s: int|
        0 <= s < thread.stack@.len() && #[trigger] thread.stack@[s].value == r && refers_to_object(
            thread.stack@[s],
            heap
        ))
}

} // verus!
