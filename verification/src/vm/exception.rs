//! Turning errors and thrown values into exception values.
use vstd::prelude::*;

use crate::vm::gvm::VmTypeContext;
use crate::vm::object::GvmObject;
use crate::vm::types::Value;

verus! {

/// Makes the exception values of a language. Whatever it does in the
/// context keeps it consistent and only adds to the program and the heap.
pub trait GvmExceptionHandler<O: GvmObject, N> {
    /// The exception value for an error the machine raises with `message`
    /// at debug line `line` of location `location`.
    fn convert_message(&self, message: &str, context: &mut VmTypeContext<O, N>, line: i32, location: i32) -> (r: Value)
        requires
            old(context).wf(),
        ensures
            final(context).preserves(&*old(context)),
    ;

    /// The exception value for a value the program throws.
    fn convert_value(&self, value: &Value, context: &mut VmTypeContext<O, N>, line: i32, location: i32) -> (r: Value)
        requires
            old(context).wf(),
        ensures
            final(context).preserves(&*old(context)),
    ;
}

} // verus!
