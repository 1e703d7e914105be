//! The object heap: objects keyed by increasing integer references.
use vstd::prelude::*;
use std::collections::{HashMap, HashSet};

use crate::vm::object::GvmObject;

verus! {

broadcast use {vstd::std_specs::hash::group_hash_axioms, vstd::std_specs::iter::group_iter_axioms};

/// The abstract state of a heap.
pub struct HeapView<O> {
    /// The objects by reference.
    pub objects: Map<i32, O>,
    /// The last reference handed out (-1 before the first).
    pub counter: i32,
}

/// A mutable entry of a map. Trusted: calls `HashMap::get_mut`, taken to
/// give the entry under `k` when there is one, through which the map's
/// value under `k` changes and nothing else.
#[verifier::external_body]
pub(crate) fn map_get_mut<'a, V>(m: &'a mut HashMap<i32, V>, k: i32) -> (r: Option<&'a mut V>)
    ensures
        match r {
            Some(v) => old(m)@.contains_key(k) && *v == old(m)@[k] && final(m)@ == old(m)@.insert(
                k,
                *final(v),
            ),
            None => !old(m)@.contains_key(k) && final(m)@ == old(m)@,
        },
{
    m.get_mut(&k)
}

/// The heap of a running program.
pub struct GvmHeap<O> {
    heap: HashMap<i32, O>,
    object_id_counter: i32,
}

impl<O> View for GvmHeap<O> {
    type V = HeapView<O>;

    closed spec fn view(&self) -> HeapView<O> {
        HeapView { objects: self.heap@, counter: self.object_id_counter }
    }
}

impl<O> HeapView<O> {
    /// Every reference in use was handed out already.
    pub open spec fn valid(self) -> bool {
        &&& self.objects.dom().finite()
        &&& forall|k: i32| #[trigger] self.objects.contains_key(k) ==> k <= self.counter
    }
}

/// A call that changes which references a heap holds: `add_object`,
/// `clear` or `retain_keys`.
pub enum HeapOp {
    Add,
    Clear,
    Retain,
}

/// Whether `q` follows from `p` by `op` as the calls' contracts give it,
/// as far as references go.
pub open spec fn heap_step<O>(p: HeapView<O>, q: HeapView<O>, op: HeapOp) -> bool {
    match op {
        HeapOp::Add => q.counter == p.counter + 1 && q.objects.dom() == p.objects.dom().insert(q.counter),
        HeapOp::Clear => q.counter == p.counter && q.objects.dom().is_empty(),
        HeapOp::Retain => q.counter == p.counter && q.objects.dom().subset_of(p.objects.dom()),
    }
}

/// The number of `add_object` calls in `ops`.
pub open spec fn adds(ops: Seq<HeapOp>) -> int
    decreases ops.len(),
{
    if ops.len() == 0 {
        0
    } else {
        adds(ops.drop_last()) + if ops.last() is Add {
            1int
        } else {
            0int
        }
    }
}

/// Over a sequence of calls on a new heap (states `hs`, calls `ops`): the
/// `n`-th call of `add_object` (counting from 0) returns `n`, whatever
/// `clear` and `retain_keys` calls come between, so no reference is handed
/// out twice.
pub proof fn lemma_reference_history<O>(hs: Seq<HeapView<O>>, ops: Seq<HeapOp>, k: int)
    requires
        hs.len() == ops.len() + 1,
        0 <= k <= ops.len(),
        hs[0].counter == -1,
        forall|i: int| 0 <= i < ops.len() ==> #[trigger] heap_step(hs[i], hs[i + 1], ops[i]),
    ensures
        hs[k].counter == adds(ops.take(k)) - 1,
        k < ops.len() && ops[k] is Add ==> hs[k + 1].counter == adds(ops.take(k)),
    decreases k,
{
    if k > 0 {
        lemma_reference_history(hs, ops, k - 1);
        let j = k - 1;
        assert(heap_step(hs[j], hs[j + 1], ops[j]));
        assert(ops.take(k).drop_last() =~= ops.take(j));
    }
    if k < ops.len() {
        assert(heap_step(hs[k], hs[k + 1], ops[k]));
    }
}

/// References are never handed out twice: in a valid heap no object is
/// stored under the reference `add_object` hands out next, nor under any
/// later one.
pub proof fn lemma_next_reference_fresh<O>(h: HeapView<O>, k: i32)
    requires
        h.valid(),
        k > h.counter,
    ensures
        !h.objects.contains_key(k),
{
}

impl<O: GvmObject> GvmHeap<O> {
    /// An empty heap.
    pub fn new() -> (h: Self)
        ensures
            h@.objects == Map::<i32, O>::empty(),
            h@.counter == -1,
            h@.valid(),
    {
        GvmHeap { heap: HashMap::new(), object_id_counter: -1 }
    }

    /// Stores an object under the next reference and returns it.
    pub fn add_object(&mut self, object: O) -> (id: i32)
        requires
            old(self)@.counter < i32::MAX,
        ensures
            id == old(self)@.counter + 1,
            !old(self)@.valid() || !old(self)@.objects.contains_key(id),
            final(self)@.objects == old(self)@.objects.insert(id, object),
            final(self)@.counter == id,
            old(self)@.valid() ==> final(self)@.valid(),
            heap_step(old(self)@, final(self)@, HeapOp::Add),
    {
        let id = self.object_id_counter + 1;
        self.object_id_counter = id;
        self.heap.insert(id, object);
        id
    }

    /// The object under `key`, if any.
    pub fn get_object(&self, key: i32) -> (r: Option<&O>)
        ensures
            match r {
                Some(o) => self@.objects.contains_key(key) && *o == self@.objects[key],
                None => !self@.objects.contains_key(key),
            },
    {
        self.heap.get(&key)
    }

    /// The object under `key`, for changing it in place.
    pub fn get_object_mut(&mut self, key: i32) -> (r: Option<&mut O>)
        ensures
            match r {
                Some(o) => old(self)@.objects.contains_key(key) && *o == old(self)@.objects[key]
                    && final(self)@.objects == old(self)@.objects.insert(key, *final(o)),
                None => !old(self)@.objects.contains_key(key) && final(self)@.objects == old(
                    self,
                )@.objects,
            },
            final(self)@.counter == old(self)@.counter,
    {
        map_get_mut(&mut self.heap, key)
    }

    /// Removes every object; references already handed out are not reused.
    pub fn clear(&mut self)
        ensures
            final(self)@.objects == Map::<i32, O>::empty(),
            final(self)@.counter == old(self)@.counter,
            final(self)@.valid(),
            heap_step(old(self)@, final(self)@, HeapOp::Clear),
    {
        self.heap.clear();
    }

    /// The last reference handed out (-1 before the first).
    pub fn last_reference(&self) -> (r: i32)
        ensures
            r == self@.counter,
    {
        self.object_id_counter
    }

    /// The number of objects.
    pub fn size(&self) -> (r: usize)
        ensures
            r == self@.objects.len(),
    {
        self.heap.len()
    }

    /// Keeps the objects whose references are in `keys`; every other object
    /// is told it is about to be destroyed and then removed.
    pub fn retain_keys(&mut self, keys: &HashSet<i32>)
        requires
            old(self)@.valid(),
        ensures
            final(self)@.objects == old(self)@.objects.restrict(keys@),
            final(self)@.counter == old(self)@.counter,
            final(self)@.valid(),
            heap_step(old(self)@, final(self)@, HeapOp::Retain),
    {
        let ghost m0 = self.heap@;
        let ghost all = vstd::std_specs::iter::IteratorSpec::remaining(
            &vstd::std_specs::hash::spec_keys_iter(&self.heap),
        );
        proof {
            vstd::std_specs::hash::axiom_spec_keys_iter(&self.heap);
        }
        let ghost ks: Seq<i32> = all.map_values(|x: &i32| *x);
        proof {
            assert(ks.to_set() =~= m0.dom()) by {
                assert(all.unref() =~= ks);
            }
        }
        let mut to_remove: Vec<i32> = Vec::new();
        for k in it: self.heap.keys()
            invariant
                m0 == self.heap@,
                it.seq() == all,
                ks == all.map_values(|x: &i32| *x),
                ks.to_set() == m0.dom(),
                forall|j: int|
                    0 <= j < to_remove@.len() ==> m0.contains_key(#[trigger] to_remove@[j])
                        && !keys@.contains(to_remove@[j]),
                forall|j: int|
                    0 <= j < it.index() ==> (!keys@.contains(#[trigger] ks[j])
                        ==> to_remove@.contains(ks[j])),
        {
            assert(*k == ks[it.index() as int]);
            assert(ks.to_set().contains(ks[it.index() as int]));
            let ghost before = to_remove@;
            if !keys.contains(k) {
                to_remove.push(*k);
                assert(to_remove@[to_remove@.len() - 1] == *k);
                assert(to_remove@.contains(*k));
            }
            assert forall|x: i32| before.contains(x) implies to_remove@.contains(x) by {
                let j = choose|j: int| 0 <= j < before.len() && before[j] == x;
                assert(to_remove@[j] == x);
            }
        }
        let mut r: usize = 0;
        while r < to_remove.len()
            invariant
                r <= to_remove.len(),
                forall|j: int|
                    0 <= j < to_remove@.len() ==> m0.contains_key(#[trigger] to_remove@[j])
                        && !keys@.contains(to_remove@[j]),
                self.heap@ == m0.remove_keys(to_remove@.take(r as int).to_set()),
                self.object_id_counter == old(self).object_id_counter,
            decreases to_remove.len() - r,
        {
            let key = to_remove[r];
            match self.heap.get(&key) {
                Some(obj) => obj.pre_destroy(),
                None => {},
            }
            self.heap.remove(&key);
            assert(to_remove@.take(r + 1).to_set() =~= to_remove@.take(r as int).to_set().insert(key)) by {
                assert(to_remove@.take(r + 1) =~= to_remove@.take(r as int).push(key));
                to_remove@.take(r as int).lemma_push_to_set_commute(key);
            }
            r = r + 1;
            assert(self.heap@ =~= m0.remove_keys(to_remove@.take(r as int).to_set()));
        }
        assert(to_remove@.take(to_remove@.len() as int) =~= to_remove@);
        assert(self.heap@ =~= m0.restrict(keys@)) by {
            assert forall|k: i32| #[trigger] m0.contains_key(k) && !keys@.contains(k) implies to_remove@.contains(k) by {
                assert(ks.to_set().contains(k));
                let i = choose|i: int| 0 <= i < ks.len() && ks[i] == k;
            }
        }
    }
}

impl<O: GvmObject> Default for GvmHeap<O> {
    /// The same as `GvmHeap::new()`.
    fn default() -> (h: Self)
        ensures
            h@.objects == Map::<i32, O>::empty(),
            h@.counter == -1,
    {
        Self::new()
    }
}

} // verus!
