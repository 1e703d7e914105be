//! What the language running on the machine provides: the operations of
//! its own types, the conversion of errors into exception values, and its
//! native methods.
use vstd::prelude::*;

use crate::vm::gvm::VmTypeContext;
use crate::vm::object::GvmObject;
use crate::vm::types::{Operation, Value};

verus! {

/// The language-specific part of the machine.
///
/// Its methods get the heap and the program only through a
/// `VmTypeContext`, whose fields are private and whose every method keeps
/// it consistent and only adds to the program and the heap; that is what
/// the `ensures` of each method states.
pub trait Runtime: Sized {
    /// The heap objects of the language.
    type Object: GvmObject;

    /// The native methods of the language.
    type Native;

    /// Performs `op` on a value of a type that is not built in.
    fn perform(
        &self,
        context: &mut VmTypeContext<Self::Object, Self::Native>,
        op: Operation,
        this_value: &Value,
        other_value: Option<&Value>,
    ) -> (r: Value)
        requires
            old(context).wf(),
        ensures
            final(context).preserves(&*old(context)),
    ;

    /// The exception value for an error raised by the machine.
    fn convert_message(
        &self,
        message: &str,
        context: &mut VmTypeContext<Self::Object, Self::Native>,
        line: i32,
        location: i32,
    ) -> (r: Value)
        requires
            old(context).wf(),
        ensures
            final(context).preserves(&*old(context)),
    ;

    /// The exception value for a value thrown by the program.
    fn convert_value(
        &self,
        value: &Value,
        context: &mut VmTypeContext<Self::Object, Self::Native>,
        line: i32,
        location: i32,
    ) -> (r: Value)
        requires
            old(context).wf(),
        ensures
            final(context).preserves(&*old(context)),
    ;

    /// Calls a native method.
    fn invoke(
        &self,
        native: &Self::Native,
        arguments: Vec<Value>,
        context: &mut VmTypeContext<Self::Object, Self::Native>,
    ) -> (r: Result<Value, String>)
        requires
            old(context).wf(),
        ensures
            final(context).preserves(&*old(context)),
    ;

    /// The number of arguments a native method takes.
    fn argument_count(&self, native: &Self::Native) -> i32;
}

} // verus!
