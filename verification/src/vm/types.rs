//! Values, the operations on them, and the built-in types.
use vstd::prelude::*;

use crate::text::{owned, str_eq};

verus! {

/// An operation that a type may support.
#[derive(Debug, Clone, Copy, PartialEq, Eq, Structural)]
pub enum Operation {
    Add,
    Sub,
    Mult,
    Div,
    Mod,
    And,
    Or,
    Not,
    Eql,
    Lt,
    Gt,
    Get,
    Invoke,
    New,
}

/// Where a value on the stack was loaded from, so that `PUT` can store into
/// the same place.
#[derive(Debug)]
pub enum ValueSource {
    Nowhere,
    Stack(usize),
    HeapField(i32, String),
}

impl Clone for ValueSource {
    fn clone(&self) -> (r: Self)
        ensures
            r == *self,
    {
        match self {
            ValueSource::Nowhere => ValueSource::Nowhere,
            ValueSource::Stack(i) => ValueSource::Stack(*i),
            ValueSource::HeapField(o, f) => ValueSource::HeapField(*o, f.clone()),
        }
    }
}

/// A copy of an optional string.
pub fn clone_opt_string(s: &Option<String>) -> (r: Option<String>)
    ensures
        r == *s,
{
    match s {
        Some(x) => Some(x.clone()),
        None => None,
    }
}

/// A set of operations, one flag each.
#[derive(Debug, Clone, Copy, PartialEq, Eq, Structural)]
pub struct OperationSet {
    pub add: bool,
    pub sub: bool,
    pub mult: bool,
    pub div: bool,
    pub modulo: bool,
    pub and: bool,
    pub or: bool,
    pub not: bool,
    pub eql: bool,
    pub lt: bool,
    pub gt: bool,
    pub get: bool,
    pub invoke: bool,
    pub new: bool,
}

impl OperationSet {
    /// Whether `op` is in the set.
    pub open spec fn allows(self, op: Operation) -> bool {
        match op {
            Operation::Add => self.add,
            Operation::Sub => self.sub,
            Operation::Mult => self.mult,
            Operation::Div => self.div,
            Operation::Mod => self.modulo,
            Operation::And => self.and,
            Operation::Or => self.or,
            Operation::Not => self.not,
            Operation::Eql => self.eql,
            Operation::Lt => self.lt,
            Operation::Gt => self.gt,
            Operation::Get => self.get,
            Operation::Invoke => self.invoke,
            Operation::New => self.new,
        }
    }

    /// Whether `op` is in the set.
    pub fn permits(&self, op: Operation) -> (r: bool)
        ensures
            r == self.allows(op),
    {
        match op {
            Operation::Add => self.add,
            Operation::Sub => self.sub,
            Operation::Mult => self.mult,
            Operation::Div => self.div,
            Operation::Mod => self.modulo,
            Operation::And => self.and,
            Operation::Or => self.or,
            Operation::Not => self.not,
            Operation::Eql => self.eql,
            Operation::Lt => self.lt,
            Operation::Gt => self.gt,
            Operation::Get => self.get,
            Operation::Invoke => self.invoke,
            Operation::New => self.new,
        }
    }

    /// The empty set.
    pub fn none() -> (r: Self)
        ensures
            forall|op: Operation| !r.allows(op),
    {
        OperationSet {
            add: false,
            sub: false,
            mult: false,
            div: false,
            modulo: false,
            and: false,
            or: false,
            not: false,
            eql: false,
            lt: false,
            gt: false,
            get: false,
            invoke: false,
            new: false,
        }
    }

    /// The set with `op` added.
    pub fn with(self, op: Operation) -> (r: Self)
        ensures
            forall|o: Operation| r.allows(o) <==> (self.allows(o) || o == op),
    {
        let r = OperationSet {
            add: self.add || matches!(op, Operation::Add),
            sub: self.sub || matches!(op, Operation::Sub),
            mult: self.mult || matches!(op, Operation::Mult),
            div: self.div || matches!(op, Operation::Div),
            modulo: self.modulo || matches!(op, Operation::Mod),
            and: self.and || matches!(op, Operation::And),
            or: self.or || matches!(op, Operation::Or),
            not: self.not || matches!(op, Operation::Not),
            eql: self.eql || matches!(op, Operation::Eql),
            lt: self.lt || matches!(op, Operation::Lt),
            gt: self.gt || matches!(op, Operation::Gt),
            get: self.get || matches!(op, Operation::Get),
            invoke: self.invoke || matches!(op, Operation::Invoke),
            new: self.new || matches!(op, Operation::New),
        };
        assert forall|o: Operation| r.allows(o) <==> (self.allows(o) || o == op) by {
            match o {
                Operation::Add => {},
                Operation::Sub => {},
                Operation::Mult => {},
                Operation::Div => {},
                Operation::Mod => {},
                Operation::And => {},
                Operation::Or => {},
                Operation::Not => {},
                Operation::Eql => {},
                Operation::Lt => {},
                Operation::Gt => {},
                Operation::Get => {},
                Operation::Invoke => {},
                Operation::New => {},
            }
        }
        r
    }

    /// The set of the operations in `ops`.
    pub fn from_list(ops: &[Operation]) -> (r: Self)
        ensures
            forall|op: Operation| r.allows(op) <==> ops@.contains(op),
    {
        let mut r = Self::none();
        let mut k: usize = 0;
        while k < ops.len()
            invariant
                k <= ops.len(),
                forall|op: Operation| r.allows(op) <==> ops@.take(k as int).contains(op),
            decreases ops.len() - k,
        {
            let ghost before = r;
            r = r.with(ops[k]);
            proof {
                assert forall|op: Operation| r.allows(op) <==> ops@.take(k + 1).contains(op) by {
                    if ops@.take(k as int).contains(op) {
                        let j = choose|j: int| 0 <= j < k && #[trigger] ops@.take(k as int)[j] == op;
                        assert(ops@.take(k + 1)[j] == op);
                    }
                    if ops@.take(k + 1).contains(op) {
                        let j = choose|j: int| 0 <= j < k + 1 && #[trigger] ops@.take(k + 1)[j] == op;
                        if j < k {
                            assert(ops@.take(k as int)[j] == op);
                        }
                    }
                    if op == ops@[k as int] {
                        assert(ops@.take(k + 1)[k as int] == op);
                    }
                }
            }
            k = k + 1;
        }
        assert(ops@.take(k as int) =~= ops@);
        r
    }
}

/// The type a value carries: its name, who performs its operations, and
/// which operations it supports. A value keeps its type whatever types are
/// registered later.
#[derive(Debug)]
pub struct ValueType {
    pub name: String,
    pub kind: TypeKind,
    pub operations: OperationSet,
}

impl Clone for ValueType {
    fn clone(&self) -> (r: Self)
        ensures
            r == *self,
    {
        ValueType { name: self.name.clone(), kind: self.kind, operations: self.operations }
    }
}

impl ValueType {
    /// The type that values of the registered type `info` carry.
    pub fn of(info: &TypeInfo) -> (r: Self)
        ensures
            r.name == info.name,
            r.kind == info.kind,
            forall|op: Operation| r.operations.allows(op) <==> info.operations@.contains(op),
    {
        ValueType {
            name: info.name.clone(),
            kind: info.kind,
            operations: OperationSet::from_list(info.operations.as_slice()),
        }
    }

    /// The built-in undefined type.
    pub fn undefined() -> (r: Self)
        ensures
            is_builtin(r, TypeKind::Undefined),
    {
        ValueType {
            name: UndefinedType::name_string(),
            kind: TypeKind::Undefined,
            operations: OperationSet::none().with(Operation::Eql),
        }
    }

    /// The built-in boolean type.
    pub fn boolean() -> (r: Self)
        ensures
            is_builtin(r, TypeKind::Boolean),
    {
        ValueType {
            name: BooleanType::name_string(),
            kind: TypeKind::Boolean,
            operations: OperationSet::none().with(Operation::Not).with(Operation::And).with(
                Operation::Or,
            ).with(Operation::Eql),
        }
    }

    /// The built-in function type.
    pub fn function() -> (r: Self)
        ensures
            is_builtin(r, TypeKind::Function),
    {
        ValueType {
            name: FunctionType::name_string(),
            kind: TypeKind::Function,
            operations: OperationSet::none().with(Operation::Invoke).with(Operation::Eql),
        }
    }
}

/// The name of a built-in type.
pub open spec fn builtin_name(kind: TypeKind) -> Seq<char> {
    match kind {
        TypeKind::Undefined => undefined_name(),
        TypeKind::Boolean => boolean_name(),
        TypeKind::Function => function_name(),
        TypeKind::Custom => Seq::empty(),
    }
}

/// The operations a built-in type supports.
pub open spec fn builtin_supports(kind: TypeKind, op: Operation) -> bool {
    match kind {
        TypeKind::Undefined => undefined_supports(op),
        TypeKind::Boolean => boolean_supports(op),
        TypeKind::Function => function_supports(op),
        TypeKind::Custom => false,
    }
}

/// Whether `t` is the built-in type of kind `kind`.
pub open spec fn is_builtin(t: ValueType, kind: TypeKind) -> bool {
    &&& t.kind == kind
    &&& t.name@ == builtin_name(kind)
    &&& forall|op: Operation| #[trigger] t.operations.allows(op) <==> builtin_supports(kind, op)
}

/// A runtime value: a 32-bit payload and the type it carries. What the
/// payload means (a number, a heap reference, a string index, a function
/// index) is up to the type.
#[derive(Debug)]
pub struct Value {
    pub value: i32,
    pub type_: ValueType,
    pub comment: Option<String>,
    pub source: ValueSource,
}

impl Clone for Value {
    fn clone(&self) -> (r: Self)
        ensures
            r == *self,
    {
        Value {
            value: self.value,
            type_: self.type_.clone(),
            comment: clone_opt_string(&self.comment),
            source: self.source.clone(),
        }
    }
}

/// The name of the built-in undefined type.
pub open spec fn undefined_name() -> Seq<char> {
    "Undefined"@
}

/// The name of the built-in boolean type.
pub open spec fn boolean_name() -> Seq<char> {
    "Boolean"@
}

/// The name of the built-in function type.
pub open spec fn function_name() -> Seq<char> {
    "Function"@
}

/// Whether a value has the given payload, carries the built-in type of kind
/// `kind`, and has no comment or source.
pub open spec fn plain_value(v: Value, value: i32, kind: TypeKind) -> bool {
    &&& v.value == value
    &&& is_builtin(v.type_, kind)
    &&& v.comment is None
    &&& v.source is Nowhere
}

/// The value with the given payload and type, no comment and no source.
pub open spec fn new_value(value: i32, type_: ValueType) -> Value {
    Value { value, type_, comment: None, source: ValueSource::Nowhere }
}

impl Value {
    /// A value with no comment and no source.
    pub fn new(value: i32, type_: ValueType) -> (r: Self)
        ensures
            r == new_value(value, type_),
    {
        Value { value, type_, comment: None, source: ValueSource::Nowhere }
    }

    /// A value with a comment and no source.
    pub fn with_comment(value: i32, type_: ValueType, comment: String) -> (r: Self)
        ensures
            r.value == value,
            r.type_ == type_,
            r.comment == Some(comment),
            r.source is Nowhere,
    {
        Value { value, type_, comment: Some(comment), source: ValueSource::Nowhere }
    }

    /// The undefined value: payload 0 of the built-in undefined type.
    pub fn undefined() -> (r: Self)
        ensures
            plain_value(r, 0, TypeKind::Undefined),
    {
        Value::new(0, ValueType::undefined())
    }

    /// A boolean value: payload 1 for true, 0 for false.
    pub fn boolean(b: bool) -> (r: Self)
        ensures
            plain_value(r, if b { 1 } else { 0 }, TypeKind::Boolean),
    {
        Value::new(if b { 1 } else { 0 }, ValueType::boolean())
    }
}

/// Who performs the operations of a type: one of the built-in types of
/// this library, or the runtime of the language.
#[derive(Debug, Clone, Copy, PartialEq, Eq, Structural)]
pub enum TypeKind {
    Undefined,
    Boolean,
    Function,
    Custom,
}

/// What the virtual machine knows of a registered type: its name, the
/// operations it supports, and who performs them.
pub struct TypeInfo {
    pub name: String,
    pub operations: Vec<Operation>,
    pub kind: TypeKind,
}

impl TypeInfo {
    /// Whether the type supports `op`.
    pub fn supports_operation(&self, op: Operation) -> (r: bool)
        ensures
            r == self.operations@.contains(op),
    {
        let mut k: usize = 0;
        while k < self.operations.len()
            invariant
                k <= self.operations.len(),
                forall|j: int| 0 <= j < k ==> self.operations@[j] != op,
            decreases self.operations.len() - k,
        {
            if self.operations[k] == op {
                return true;
            }
            k = k + 1;
        }
        false
    }
}

/// Whether an operation takes a second operand.
pub open spec fn is_binary(op: Operation) -> bool {
    match op {
        Operation::Add | Operation::Sub | Operation::Mult | Operation::Div | Operation::Mod
        | Operation::And | Operation::Or | Operation::Eql | Operation::Lt | Operation::Gt
        | Operation::Get => true,
        _ => false,
    }
}

/// The type of the undefined value.
#[derive(Debug, Clone)]
pub struct UndefinedType;

/// The operations the undefined type supports.
pub open spec fn undefined_supports(op: Operation) -> bool {
    op == Operation::Eql
}

/// The operations the boolean type supports.
pub open spec fn boolean_supports(op: Operation) -> bool {
    op == Operation::Not || op == Operation::And || op == Operation::Or || op == Operation::Eql
}

/// The operations the function type supports.
pub open spec fn function_supports(op: Operation) -> bool {
    op == Operation::Invoke || op == Operation::Eql
}

impl UndefinedType {
    /// The type's name, `Undefined`.
    pub fn name_string() -> (r: String)
        ensures
            r@ == undefined_name(),
    {
        owned("Undefined")
    }

    /// The type's name, `Undefined`.
    pub fn name(&self) -> (r: &'static str)
        ensures
            r@ == undefined_name(),
    {
        "Undefined"
    }

    /// Only equality is supported.
    pub fn supports_operation(&self, op: Operation) -> (r: bool)
        ensures
            r == undefined_supports(op),
    {
        op == Operation::Eql
    }

    /// Equality: true exactly when the other operand is also undefined.
    pub fn perform(&self, op: Operation, this_value: &Value, other_value: Option<&Value>) -> (r: Value)
        requires
            undefined_supports(op),
        ensures
            plain_value(
                r,
                match other_value {
                    Some(o) => if o.type_.name@ == undefined_name() {
                        1i32
                    } else {
                        0i32
                    },
                    None => 0i32,
                },
                TypeKind::Boolean,
            ),
    {
        let result = match other_value {
            Some(other) => str_eq(other.type_.name.as_str(), "Undefined"),
            None => false,
        };
        Value::boolean(result)
    }

    /// Whether a type with the given name is this type.
    pub fn is_instance(&self, other_name: &str) -> (r: bool)
        ensures
            r == (other_name@ == undefined_name()),
    {
        str_eq(other_name, "Undefined")
    }

    /// The registration entry of this type.
    pub fn info() -> (r: TypeInfo)
        ensures
            r.name@ == undefined_name(),
            r.kind == TypeKind::Undefined,
            forall|op: Operation| r.operations@.contains(op) <==> undefined_supports(op),
    {
        let mut ops: Vec<Operation> = Vec::new();
        ops.push(Operation::Eql);
        assert forall|op: Operation| ops@.contains(op) <==> undefined_supports(op) by {
            if undefined_supports(op) {
                assert(ops@[0] == op);
            }
        }
        TypeInfo { name: Self::name_string(), operations: ops, kind: TypeKind::Undefined }
    }
}

/// The boolean type: payloads greater than 0 are true.
#[derive(Debug, Clone)]
pub struct BooleanType;

impl BooleanType {
    /// The type's name, `Boolean`.
    pub fn name_string() -> (r: String)
        ensures
            r@ == boolean_name(),
    {
        owned("Boolean")
    }

    /// The type's name, `Boolean`.
    pub fn name(&self) -> (r: &'static str)
        ensures
            r@ == boolean_name(),
    {
        "Boolean"
    }

    /// Negation, conjunction, disjunction and equality are supported.
    pub fn supports_operation(&self, op: Operation) -> (r: bool)
        ensures
            r == boolean_supports(op),
    {
        op == Operation::Not || op == Operation::And || op == Operation::Or || op == Operation::Eql
    }

    /// The boolean operations; a payload greater than 0 is true, and the
    /// result is 1 for true and 0 for false.
    pub fn perform(&self, op: Operation, this_value: &Value, other_value: Option<&Value>) -> (r: Value)
        requires
            boolean_supports(op),
            op != Operation::Not ==> other_value is Some,
        ensures
            plain_value(
                r,
                match op {
                    Operation::Not => if this_value.value > 0 {
                        0i32
                    } else {
                        1i32
                    },
                    Operation::And => if this_value.value > 0 && other_value.unwrap().value > 0 {
                        1i32
                    } else {
                        0i32
                    },
                    Operation::Or => if this_value.value > 0 || other_value.unwrap().value > 0 {
                        1i32
                    } else {
                        0i32
                    },
                    _ => if (this_value.value > 0) == (other_value.unwrap().value > 0) {
                        1i32
                    } else {
                        0i32
                    },
                },
                TypeKind::Boolean,
            ),
    {
        match op {
            Operation::Not => Value::boolean(!(this_value.value > 0)),
            Operation::And => {
                let other = other_value.unwrap();
                Value::boolean(this_value.value > 0 && other.value > 0)
            },
            Operation::Or => {
                let other = other_value.unwrap();
                Value::boolean(this_value.value > 0 || other.value > 0)
            },
            _ => {
                let other = other_value.unwrap();
                Value::boolean((this_value.value > 0) == (other.value > 0))
            },
        }
    }

    /// Whether a type with the given name is this type.
    pub fn is_instance(&self, other_name: &str) -> (r: bool)
        ensures
            r == (other_name@ == boolean_name()),
    {
        str_eq(other_name, "Boolean")
    }

    /// The registration entry of this type.
    pub fn info() -> (r: TypeInfo)
        ensures
            r.name@ == boolean_name(),
            r.kind == TypeKind::Boolean,
            forall|op: Operation| r.operations@.contains(op) <==> boolean_supports(op),
    {
        let mut ops: Vec<Operation> = Vec::new();
        ops.push(Operation::Not);
        ops.push(Operation::And);
        ops.push(Operation::Or);
        ops.push(Operation::Eql);
        assert forall|op: Operation| ops@.contains(op) <==> boolean_supports(op) by {
            if boolean_supports(op) {
                if op == Operation::Not {
                    assert(ops@[0] == op);
                } else if op == Operation::And {
                    assert(ops@[1] == op);
                } else if op == Operation::Or {
                    assert(ops@[2] == op);
                } else {
                    assert(ops@[3] == op);
                }
            }
        }
        TypeInfo { name: Self::name_string(), operations: ops, kind: TypeKind::Boolean }
    }
}

/// The type of function references: the payload is a function id.
#[derive(Debug, Clone)]
pub struct FunctionType;

impl FunctionType {
    /// The type's name, `Function`.
    pub fn name_string() -> (r: String)
        ensures
            r@ == function_name(),
    {
        owned("Function")
    }

    /// The type's name, `Function`.
    pub fn name(&self) -> (r: &'static str)
        ensures
            r@ == function_name(),
    {
        "Function"
    }

    /// Invocation and equality are supported.
    pub fn supports_operation(&self, op: Operation) -> (r: bool)
        ensures
            r == function_supports(op),
    {
        op == Operation::Invoke || op == Operation::Eql
    }

    /// Equality compares the function ids; every other operation yields the
    /// undefined value.
    pub fn perform(&self, op: Operation, this_value: &Value, other_value: Option<&Value>) -> (r: Value)
        requires
            op == Operation::Eql ==> other_value is Some,
        ensures
            op == Operation::Eql ==> plain_value(
                r,
                if this_value.value == other_value.unwrap().value {
                    1i32
                } else {
                    0i32
                },
                TypeKind::Boolean,
            ),
            op != Operation::Eql ==> plain_value(r, 0, TypeKind::Undefined),
    {
        match op {
            Operation::Eql => {
                let other = other_value.unwrap();
                Value::boolean(this_value.value == other.value)
            },
            _ => Value::undefined(),
        }
    }

    /// Whether a type with the given name is this type.
    pub fn is_instance(&self, other_name: &str) -> (r: bool)
        ensures
            r == (other_name@ == function_name()),
    {
        str_eq(other_name, "Function")
    }

    /// The registration entry of this type.
    pub fn info() -> (r: TypeInfo)
        ensures
            r.name@ == function_name(),
            r.kind == TypeKind::Function,
            forall|op: Operation| r.operations@.contains(op) <==> function_supports(op),
    {
        let mut ops: Vec<Operation> = Vec::new();
        ops.push(Operation::Invoke);
        ops.push(Operation::Eql);
        assert forall|op: Operation| ops@.contains(op) <==> function_supports(op) by {
            if function_supports(op) {
                if op == Operation::Invoke {
                    assert(ops@[0] == op);
                } else {
                    assert(ops@[1] == op);
                }
            }
        }
        TypeInfo { name: Self::name_string(), operations: ops, kind: TypeKind::Function }
    }
}

} // verus!
