//! The texts of the errors the machine raises.
use vstd::prelude::*;

use crate::text::{concat, int_text, int_to_string};
use crate::vm::types::{Operation, Value};

verus! {

/// `Type <type> does not support <what>.`
pub open spec fn unsupported_text(tname: Seq<char>, what: Seq<char>) -> Seq<char> {
    "Type "@ + tname + " does not support "@ + what + "."@
}

/// `Invoking a type that does not support invocation: <type>`
pub open spec fn invoke_unsupported_text(tname: Seq<char>) -> Seq<char> {
    "Invoking a type that does not support invocation: "@ + tname
}

/// `Argument count for function <f> is <expected>, but <given> provided.`
pub open spec fn argument_count_text(function: i32, expected: i32, given: i32) -> Seq<char> {
    "Argument count for function "@ + int_text(function as int) + " is "@ + int_text(
        expected as int,
    ) + ", but "@ + int_text(given as int) + " provided."@
}

/// `Type: <type> does not support invocation.`
pub open spec fn native_unsupported_text(tname: Seq<char>) -> Seq<char> {
    "Type: "@ + tname + " does not support invocation."@
}

/// A value as text: `<payload>:<type>`, followed by ` //<comment>` when it
/// has a comment.
pub open spec fn value_text(v: Value) -> Seq<char> {
    match v.comment {
        Some(c) => int_text(v.value as int) + ":"@ + v.type_.name@ + " //"@ + c@,
        None => int_text(v.value as int) + ":"@ + v.type_.name@,
    }
}

/// `Type does not support get operation: <value> pc: <pc> f:<function>`
pub open spec fn get_unsupported_text(v: Value, pc: i32, function: i32) -> Seq<char> {
    "Type does not support get operation: "@ + value_text(v) + " pc: "@ + int_text(pc as int)
        + " f:"@ + int_text(function as int)
}

/// The name of an operation in error messages.
pub open spec fn operation_text(op: Operation) -> Seq<char> {
    match op {
        Operation::Add => "addition"@,
        Operation::Sub => "substraction"@,
        Operation::Mult => "multiplication"@,
        Operation::Div => "division"@,
        Operation::Mod => "modulo"@,
        Operation::And => "AND"@,
        Operation::Or => "OR"@,
        Operation::Not => "NOT"@,
        Operation::Eql => "EQL"@,
        Operation::Lt => "LT"@,
        Operation::Gt => "GT"@,
        Operation::Get => "GET"@,
        Operation::Invoke => "INVOKE"@,
        Operation::New => "NEW"@,
    }
}

/// The name of an operation in error messages.
pub fn operation_name(op: Operation) -> (r: &'static str)
    ensures
        r@ == operation_text(op),
{
    match op {
        Operation::Add => "addition",
        Operation::Sub => "substraction",
        Operation::Mult => "multiplication",
        Operation::Div => "division",
        Operation::Mod => "modulo",
        Operation::And => "AND",
        Operation::Or => "OR",
        Operation::Not => "NOT",
        Operation::Eql => "EQL",
        Operation::Lt => "LT",
        Operation::Gt => "GT",
        Operation::Get => "GET",
        Operation::Invoke => "INVOKE",
        Operation::New => "NEW",
    }
}

/// The message for a type that does not support an operation.
pub fn unsupported_message(tname: &str, what: &str) -> (r: String)
    ensures
        r@ == unsupported_text(tname@, what@),
{
    let a = concat("Type ", tname);
    let b = concat(a.as_str(), " does not support ");
    let c = concat(b.as_str(), what);
    concat(c.as_str(), ".")
}

/// The message for invoking a value whose type cannot be invoked.
pub fn invoke_unsupported_message(tname: &str) -> (r: String)
    ensures
        r@ == invoke_unsupported_text(tname@),
{
    concat("Invoking a type that does not support invocation: ", tname)
}

/// The message for a call with the wrong number of arguments.
pub fn argument_count_message(function: i32, expected: i32, given: i32) -> (r: String)
    ensures
        r@ == argument_count_text(function, expected, given),
{
    let a = concat("Argument count for function ", int_to_string(function).as_str());
    let b = concat(a.as_str(), " is ");
    let c = concat(b.as_str(), int_to_string(expected).as_str());
    let d = concat(c.as_str(), ", but ");
    let e = concat(d.as_str(), int_to_string(given).as_str());
    concat(e.as_str(), " provided.")
}

/// The message for a native call on a value whose type cannot be invoked.
pub fn native_unsupported_message(tname: &str) -> (r: String)
    ensures
        r@ == native_unsupported_text(tname@),
{
    let a = concat("Type: ", tname);
    concat(a.as_str(), " does not support invocation.")
}

/// The message for reading a field of a value whose type has no fields.
pub fn get_unsupported_message(v: &Value, pc: i32, function: i32) -> (r: String)
    ensures
        r@ == get_unsupported_text(*v, pc, function),
{
    let a = concat("Type does not support get operation: ", v.to_text().as_str());
    let b = concat(a.as_str(), " pc: ");
    let c = concat(b.as_str(), int_to_string(pc).as_str());
    let d = concat(c.as_str(), " f:");
    concat(d.as_str(), int_to_string(function).as_str())
}

impl Value {
    /// The value as text: `<payload>:<type>`, followed by ` //<comment>` when
    /// it has a comment.
    pub fn to_text(&self) -> (r: String)
        ensures
            r@ == value_text(*self),
    {
        let a = concat(int_to_string(self.value).as_str(), ":");
        let b = concat(a.as_str(), self.type_.name.as_str());
        match &self.comment {
            Some(c) => {
                let d = concat(b.as_str(), " //");
                concat(d.as_str(), c.as_str())
            },
            None => b,
        }
    }
}

/// The message for an exception that reaches the bottom of a thread, from
/// the text of its `message` field, its `line` and the text of its
/// `location`: unknown without a message or a line, else the message with
/// the location and line, or with the line alone.
pub open spec fn unhandled_text(message: Option<Seq<char>>, line: Option<i32>, location: Option<Seq<char>>) -> Seq<char> {
    match (message, line) {
        (Some(m), Some(l)) => match location {
            Some(loc) => "Unhandled exception '"@ + m + "' at "@ + loc + ":"@ + int_text(l as int),
            None => "Unhandled exception '"@ + m + "' at line "@ + int_text(l as int),
        },
        _ => "Unhandled unknown exception"@,
    }
}

/// The message for an exception that reaches the bottom of a thread.
pub fn unhandled_exception_message(message: Option<&str>, line: Option<i32>, location: Option<&str>) -> (r: String)
    ensures
        r@ == unhandled_text(
            match message {
                Some(m) => Some(m@),
                None => None,
            },
            line,
            match location {
                Some(l) => Some(l@),
                None => None,
            },
        ),
{
    match (message, line) {
        (Some(m), Some(l)) => {
            let head = concat("Unhandled exception '", m);
            match location {
                Some(loc) => {
                    let a = concat(head.as_str(), "' at ");
                    let b = concat(a.as_str(), loc);
                    let c = concat(b.as_str(), ":");
                    concat(c.as_str(), int_to_string(l).as_str())
                },
                None => {
                    let a = concat(head.as_str(), "' at line ");
                    concat(a.as_str(), int_to_string(l).as_str())
                },
            }
        },
        _ => crate::text::owned("Unhandled unknown exception"),
    }
}

} // verus!
