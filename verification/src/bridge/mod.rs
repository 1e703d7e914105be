//! The bridge between the machine and native code.
use vstd::prelude::*;

pub mod native_module;
pub mod registry;

use crate::vm::gvm::VmTypeContext;
use crate::vm::object::GvmObject;
use crate::vm::types::Value;

verus! {

/// A native method that a program calls with `NATIVE`. It gets the
/// arguments and the context of the machine; whatever it does there keeps
/// the context consistent and only adds to the program and the heap.
pub trait NativeMethodWrapper<O: GvmObject, N> {
    /// Calls the method.
    fn invoke(&self, arguments: Vec<Value>, context: &mut VmTypeContext<O, N>) -> (r: Result<Value, String>)
        requires
            old(context).wf(),
        ensures
            final(context).preserves(&*old(context)),
    ;

    /// The number of arguments the method takes.
    fn argument_count(&self) -> i32;
}

/// Converts between machine values and the values of a host language.
pub trait ValueConverter<O: GvmObject, N> {
    /// The host language's values.
    type Host;

    /// The host value for a machine value.
    fn convert_from_gvm(&self, context: &VmTypeContext<O, N>, value: &Value) -> Self::Host;

    /// The host value for a machine value, as a value of the host type
    /// named `target`.
    fn convert_from_gvm_to(&self, context: &VmTypeContext<O, N>, value: &Value, target: &str) -> Self::Host;

    /// The machine value for a host value.
    fn convert_to_gvm(&self, context: &mut VmTypeContext<O, N>, value: Self::Host) -> Value;
}

} // verus!
