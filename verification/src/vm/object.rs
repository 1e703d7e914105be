//! Heap objects, implemented by the language that runs on the machine.
use vstd::prelude::*;

use crate::vm::types::Value;

verus! {

/// An object on the heap: a set of named fields holding values.
pub trait GvmObject: Sized {
    /// Stores `v` in the field `id`.
    fn set_value(&mut self, id: &str, v: Value);

    /// The value of the field `id`, if it has one.
    fn get_value(&self, id: &str) -> Option<Value>;

    /// Whether the field `id` has a value.
    fn has_value(&self, id: &str) -> bool;

    /// The values of all fields.
    fn get_values(&self) -> Vec<Value>;

    /// The names of all fields.
    fn get_keys(&self) -> Vec<String>;

    /// Called just before the object is removed from the heap.
    fn pre_destroy(&self);

    /// A copy of the object.
    fn clone_object(&self) -> Self;
}

/// Whether `r` is a value that `o.get_value(id)` returns.
pub open spec fn gets_value<O: GvmObject>(o: O, id: &str, r: Option<Value>) -> bool {
    call_ensures(O::get_value, (&o, id), r)
}

/// Whether `r` is an answer that `o.has_value(id)` gives.
pub open spec fn has_field<O: GvmObject>(o: O, id: &str, r: bool) -> bool {
    call_ensures(O::has_value, (&o, id), r)
}

/// Whether `r` is a list of names that `o.get_keys()` returns.
pub open spec fn gets_keys<O: GvmObject>(o: O, r: Vec<String>) -> bool {
    call_ensures(O::get_keys, (&o,), r)
}

} // verus!
