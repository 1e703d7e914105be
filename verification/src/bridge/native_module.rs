//! Native modules: classes written in Rust that scripts can construct and
//! call.
use vstd::prelude::*;

use crate::text::{concat, debug_quoted, debug_text, int_text, int_to_string, owned, uint_to_string};

verus! {

/// An error a native method reports.
#[derive(Debug, Clone)]
pub struct NativeError {
    pub message: String,
}

impl NativeError {
    /// An error with the given message.
    pub fn new(message: String) -> (r: Self)
        ensures
            r.message == message,
    {
        NativeError { message }
    }
}

/// A method a native module or instance offers: its name and argument
/// count.
#[derive(Debug, Clone)]
pub struct MethodDescriptor {
    pub name: String,
    pub arg_count: i32,
}

impl MethodDescriptor {
    /// A method with the given name and argument count.
    pub fn new(name: String, arg_count: i32) -> (r: Self)
        ensures
            r.name == name,
            r.arg_count == arg_count,
    {
        MethodDescriptor { name, arg_count }
    }
}

/// A value passed to or returned by native code; instances are of the
/// module's own instance type `I`.
pub enum NativeValue<I> {
    Undefined,
    Number(i32),
    Boolean(bool),
    String(String),
    Instance(I),
    Bytes(Vec<u8>),
}

/// The description of a value that holds no instance.
pub open spec fn plain_description<I>(v: NativeValue<I>) -> Seq<char> {
    match v {
        NativeValue::Undefined => "Undefined"@,
        NativeValue::Number(n) => "Number("@ + int_text(n as int) + ")"@,
        NativeValue::Boolean(b) => "Boolean("@ + (if b {
            "true"@
        } else {
            "false"@
        }) + ")"@,
        NativeValue::String(s) => "String("@ + debug_text(s@) + ")"@,
        NativeValue::Bytes(b) => "Bytes(len="@ + int_text(b@.len() as int) + ")"@,
        NativeValue::Instance(_) => "Instance"@,
    }
}

impl<I: NativeInstance> NativeValue<I> {
    /// A short description: the variant and its payload (for an instance,
    /// its type name).
    pub fn describe(&self) -> (r: String)
        ensures
            !(self is Instance) ==> r@ == plain_description(*self),
    {
        match self {
            NativeValue::Undefined => owned("Undefined"),
            NativeValue::Number(n) => {
                let a = concat("Number(", int_to_string(*n).as_str());
                concat(a.as_str(), ")")
            },
            NativeValue::Boolean(b) => {
                let a = concat("Boolean(", if *b {
                    "true"
                } else {
                    "false"
                });
                concat(a.as_str(), ")")
            },
            NativeValue::String(s) => {
                let a = concat("String(", debug_quoted(s.as_str()).as_str());
                concat(a.as_str(), ")")
            },
            NativeValue::Instance(i) => {
                let a = concat("Instance(", i.instance_type());
                concat(a.as_str(), ")")
            },
            NativeValue::Bytes(b) => {
                let a = concat("Bytes(len=", uint_to_string(b.len()).as_str());
                concat(a.as_str(), ")")
            },
        }
    }
}

/// A class implemented in Rust: it can be constructed and has static
/// methods.
pub trait NativeModule {
    /// The instances its constructor makes.
    type Instance: NativeInstance;

    /// The class name scripts use.
    fn class_name(&self) -> &str;

    /// Makes an instance.
    fn constructor(&self, args: Vec<NativeValue<Self::Instance>>) -> Result<
        NativeValue<Self::Instance>,
        NativeError,
    >;

    /// Calls a static method.
    fn call_static(&self, method: &str, args: Vec<NativeValue<Self::Instance>>) -> Result<
        NativeValue<Self::Instance>,
        NativeError,
    >;

    /// The static methods.
    fn static_methods(&self) -> Vec<MethodDescriptor>;
}

/// An object made by a native module.
pub trait NativeInstance: Sized {
    /// The name of its type.
    fn instance_type(&self) -> &str;

    /// Its methods.
    fn instance_methods(&self) -> Vec<MethodDescriptor>;

    /// Calls one of its methods.
    fn call_method(&self, method: &str, args: Vec<NativeValue<Self>>) -> Result<NativeValue<Self>, NativeError>;

    /// Releases what it holds.
    fn destroy(&self);

    /// A copy of it.
    fn clone_instance(&self) -> Self;
}

} // verus!
