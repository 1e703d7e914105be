//! A call-stack entry.
use vstd::prelude::*;

use crate::vm::types::Value;

verus! {

/// What is saved on a call: where to resume, the caller's frame pointer and
/// function, its debug position, and the `this` scope of the call.
#[derive(Debug)]
pub struct StackFrame {
    pub program_counter: i32,
    pub frame_pointer: i32,
    pub calling_function: i32,
    pub line_number: i32,
    pub location: i32,
    pub scope: Value,
}

impl Clone for StackFrame {
    fn clone(&self) -> (r: Self)
        ensures
            r == *self,
    {
        StackFrame {
            program_counter: self.program_counter,
            frame_pointer: self.frame_pointer,
            calling_function: self.calling_function,
            line_number: self.line_number,
            location: self.location,
            scope: self.scope.clone(),
        }
    }
}

impl StackFrame {
    /// A frame with the given fields.
    pub fn new(
        program_counter: i32,
        frame_pointer: i32,
        calling_function: i32,
        line_number: i32,
        location: i32,
        scope: Value,
    ) -> (r: Self)
        ensures
            r == (StackFrame {
                program_counter,
                frame_pointer,
                calling_function,
                line_number,
                location,
                scope,
            }),
    {
        StackFrame { program_counter, frame_pointer, calling_function, line_number, location, scope }
    }
}

} // verus!
