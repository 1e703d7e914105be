use gs_core::program::function::GvmFunction;
use gs_core::program::heap::GvmHeap;
use gs_core::program::program::GvmProgram;
use gs_core::streams::RandomAccessByteStream;
use gs_core::vm::gvm::{
    Gvm, Step, VmTypeContext, ADD, BREAKPOINT, CJMP, DUP, EQL, FORK, GET, GETDYNAMIC, HALT, INVOKE, JMP,
    LDC_D, LDS, NATIVE, NEW, NOT, OR, POP, PUT, RETURN, THROW,
};
use gs_core::program::serializer::GvmProgramSerializer;
use gs_core::vm::messages::{
    argument_count_message, get_unsupported_message, invoke_unsupported_message,
    native_unsupported_message, operation_name, unhandled_exception_message, unsupported_message,
};
use gs_core::vm::object::GvmObject;
use gs_core::vm::runtime::Runtime;
use gs_core::vm::types::{Operation, TypeInfo, TypeKind, Value, ValueSource, ValueType};

struct Obj {
    fields: Vec<(String, Value)>,
}

impl GvmObject for Obj {
    fn set_value(&mut self, id: &str, v: Value) {
        for f in self.fields.iter_mut() {
            if f.0 == id {
                f.1 = v;
                return;
            }
        }
        self.fields.push((id.to_string(), v));
    }
    fn get_value(&self, id: &str) -> Option<Value> {
        self.fields.iter().find(|f| f.0 == id).map(|f| f.1.clone())
    }
    fn has_value(&self, id: &str) -> bool {
        self.fields.iter().any(|f| f.0 == id)
    }
    fn get_values(&self) -> Vec<Value> {
        self.fields.iter().map(|f| f.1.clone()).collect()
    }
    fn get_keys(&self) -> Vec<String> {
        self.fields.iter().map(|f| f.0.clone()).collect()
    }
    fn pre_destroy(&self) {}
    fn clone_object(&self) -> Self {
        Obj { fields: self.fields.clone() }
    }
}

struct Rt;

impl Runtime for Rt {
    type Object = Obj;
    type Native = i32;

    fn perform(
        &self,
        context: &mut VmTypeContext<Obj, i32>,
        op: Operation,
        this_value: &Value,
        other_value: Option<&Value>,
    ) -> Value {
        match op {
            Operation::New => {
                let r = context.heap_add_object_box(Obj { fields: Vec::new() });
                Value::new(r, object_type())
            }
            Operation::Add => {
                Value::new(this_value.value + other_value.unwrap().value, number_type())
            }
            Operation::Get => {
                let name = other_value.unwrap();
                let field = context.get_string(name.value).unwrap_or("").to_string();
                context
                    .heap_get_object_value(this_value.value, &field)
                    .unwrap_or_else(Value::undefined)
            }
            _ => Value::undefined(),
        }
    }

    fn convert_message(
        &self,
        message: &str,
        context: &mut VmTypeContext<Obj, i32>,
        _line: i32,
        _location: i32,
    ) -> Value {
        let idx = context.add_string(message);
        Value::new(idx, string_type())
    }

    fn convert_value(
        &self,
        value: &Value,
        _context: &mut VmTypeContext<Obj, i32>,
        _line: i32,
        _location: i32,
    ) -> Value {
        value.clone()
    }

    fn invoke(
        &self,
        native: &i32,
        arguments: Vec<Value>,
        context: &mut VmTypeContext<Obj, i32>,
    ) -> Result<Value, String> {
        if *native == 2 {
            Ok(Value::new(arguments[0].value * 10 + arguments[1].value, number_type()))
        } else if *native == -2 {
            // Fills the heap with 250 objects that nothing refers to.
            for _ in 0..250 {
                context.heap_add_object_box(Obj { fields: Vec::new() });
            }
            Ok(Value::new(0, number_type()))
        } else if *native == -1 {
            // Registers native method 7 with a function that calls it.
            let id = context.generate_native_method_function(7, 0);
            Ok(Value::new(id, number_type()))
        } else {
            Err("native failed".to_string())
        }
    }

    fn argument_count(&self, native: &i32) -> i32 {
        *native
    }
}

fn number_info() -> TypeInfo {
    TypeInfo {
        name: "Number".to_string(),
        operations: vec![Operation::Add, Operation::Eql],
        kind: TypeKind::Custom,
    }
}

fn object_info() -> TypeInfo {
    TypeInfo {
        name: "Object".to_string(),
        operations: vec![Operation::New, Operation::Get],
        kind: TypeKind::Custom,
    }
}

fn string_info() -> TypeInfo {
    TypeInfo { name: "String".to_string(), operations: vec![Operation::Eql], kind: TypeKind::Custom }
}

fn number_type() -> ValueType {
    ValueType::of(&number_info())
}

fn object_type() -> ValueType {
    ValueType::of(&object_info())
}

fn string_type() -> ValueType {
    ValueType::of(&string_info())
}

fn program_with_main(code: RandomAccessByteStream) -> GvmProgram<i32> {
    let mut p: GvmProgram<i32> = GvmProgram::new("test".to_string());
    p.register_type(number_info());
    p.register_type(object_info());
    p.register_type(string_info());
    let id = p.add_function(GvmFunction::new(code, Vec::new()));
    assert_eq!(id, 0);
    p
}

fn ldc(code: &mut RandomAccessByteStream, v: i32, t: &str) {
    code.write_byte(LDC_D);
    code.write_int(v);
    code.write_string(t);
}

fn run_to_end(vm: &mut Gvm<Rt>, idx: usize) -> Step {
    loop {
        let s = vm.fetch_and_decode(idx);
        match s {
            Step::Continue | Step::Breakpoint(_) => {}
            other => return other,
        }
    }
}

#[test]
fn boot_runs_main_and_halts() {
    let mut code = RandomAccessByteStream::new();
    ldc(&mut code, 1, "Boolean");
    ldc(&mut code, 0, "Boolean");
    code.write_byte(OR);
    code.write_byte(HALT);
    let mut vm = Gvm::new(program_with_main(code), Rt);
    let main = vm.start();
    assert_eq!(main, 0);
    let end = run_to_end(&mut vm, main);
    assert!(matches!(end, Step::Halted));
    let t = vm.thread(main);
    assert!(t.finished);
    let top = t.stack.last().unwrap();
    assert_eq!(top.value, 1);
    assert_eq!(top.type_.name, "Boolean");
    // The call frame of main holds the new Object scope.
    assert_eq!(t.call_stack.len(), 1);
    assert_eq!(t.call_stack[0].scope.type_.name, "Object");
    assert_eq!(vm.heap().size(), 1);
}

#[test]
fn arithmetic_through_the_runtime_and_not() {
    let mut code = RandomAccessByteStream::new();
    ldc(&mut code, 40, "Number");
    ldc(&mut code, 2, "Number");
    code.write_byte(ADD);
    ldc(&mut code, 0, "Boolean");
    code.write_byte(NOT);
    code.write_byte(HALT);
    let mut vm = Gvm::new(program_with_main(code), Rt);
    let main = vm.start();
    run_to_end(&mut vm, main);
    let s = &vm.thread(main).stack;
    let n = s.len();
    assert_eq!(s[n - 2].value, 42);
    assert_eq!(s[n - 2].type_.name, "Number");
    assert_eq!(s[n - 1].value, 1);
    assert_eq!(s[n - 1].type_.name, "Boolean");
}

#[test]
fn lds_dup_pop_and_jumps() {
    let mut code = RandomAccessByteStream::new();
    ldc(&mut code, 7, "Number"); // 0..
    code.write_byte(DUP);
    code.write_byte(POP);
    code.write_byte(DUP);
    code.write_byte(LDS);
    code.write_int(-1); // the value just below the top: stack_size + (-1) - 1
    ldc(&mut code, 1, "Boolean");
    code.write_byte(CJMP);
    let patch = code.get_pointer_position();
    code.write_int(0);
    ldc(&mut code, 99, "Number"); // skipped
    let target = code.get_pointer_position();
    code.set(patch, target);
    code.write_byte(JMP);
    let after = code.get_pointer_position() + 4;
    code.write_int(after);
    code.write_byte(HALT);
    let mut vm = Gvm::new(program_with_main(code), Rt);
    let main = vm.start();
    run_to_end(&mut vm, main);
    let s = &vm.thread(main).stack;
    let n = s.len();
    assert_eq!(s[n - 1].value, 7);
    assert_eq!(s[n - 2].value, 7);
    assert_eq!(s[n - 3].value, 7);
    match s[n - 1].source {
        ValueSource::Stack(i) => assert_eq!(i, n - 3),
        _ => panic!("LDS records where the value came from"),
    }
}

#[test]
fn unsupported_operation_raises_and_is_caught() {
    // Boolean does not support ADD: the exception goes to the catch block.
    let mut code = RandomAccessByteStream::new();
    ldc(&mut code, 1, "Boolean"); // 0..23
    ldc(&mut code, 1, "Boolean");
    code.write_byte(ADD);
    let after_add = code.get_pointer_position();
    code.write_byte(HALT);
    let catch = code.get_pointer_position();
    code.write_byte(HALT);
    let mut f = GvmFunction::new(code, Vec::new());
    f.register_catch_block(0, 100, catch);
    let mut p = program_with_main(RandomAccessByteStream::new());
    p.delete_function(0);
    p.add_function_with_id(0, f);
    let mut vm = Gvm::new(p, Rt);
    let main = vm.start();
    run_to_end(&mut vm, main);
    let t = vm.thread(main);
    assert_eq!(t.bytecode.get_pointer_position(), catch + 1);
    assert!(after_add < catch);
    let exc = t.stack.last().unwrap();
    assert_eq!(exc.type_.name, "String");
    let msg = vm.program().get_string(exc.value).unwrap();
    assert_eq!(msg, "Type Boolean does not support addition.");
    assert_eq!(msg, unsupported_message("Boolean", "addition"));
}

#[test]
fn thrown_value_without_handler_is_unhandled() {
    let mut code = RandomAccessByteStream::new();
    ldc(&mut code, 5, "Number");
    code.write_byte(THROW);
    code.write_byte(HALT);
    let mut vm = Gvm::new(program_with_main(code), Rt);
    let main = vm.start();
    // main runs on top of the boot frame, so the exception unwinds into
    // the boot frame, whose function has no catch block either.
    let end = run_to_end(&mut vm, main);
    match end {
        Step::Unhandled(m) => assert_eq!(m, "Unhandled unknown exception"),
        other => panic!("expected an unhandled exception, got {:?}", other),
    }
}

#[test]
fn argument_count_mismatch_raises() {
    let mut callee = RandomAccessByteStream::new();
    callee.write_byte(RETURN);
    let mut code = RandomAccessByteStream::new();
    ldc(&mut code, 0, "Boolean"); // this
    ldc(&mut code, 1, "Function");
    code.write_byte(INVOKE);
    code.write_int(3);
    code.write_byte(HALT);
    let catch = code.get_pointer_position();
    code.write_byte(HALT);
    let mut f = GvmFunction::new(code, Vec::new());
    f.register_catch_block(0, 100, catch);
    let mut p = program_with_main(RandomAccessByteStream::new());
    p.delete_function(0);
    p.add_function_with_id(0, f);
    p.add_function_with_id(1, GvmFunction::new(callee, vec!["a".to_string()]));
    // The mismatch is raised with the callee as the current function, whose
    // handlers do not cover the position, so it unwinds to main's caller.
    let mut vm = Gvm::new(p, Rt);
    let main = vm.start();
    let end = run_to_end(&mut vm, main);
    assert!(matches!(end, Step::Unhandled(_)));
    assert_eq!(
        argument_count_message(1, 1, 3),
        "Argument count for function 1 is 1, but 3 provided."
    );
}

#[test]
fn invoke_and_return_pass_arguments() {
    // Function 1(a) returns its argument plus the local default.
    let mut callee = RandomAccessByteStream::new();
    callee.write_byte(LDS);
    callee.write_int(1); // the first parameter: frame pointer + 1
    callee.write_byte(RETURN);
    let mut code = RandomAccessByteStream::new();
    ldc(&mut code, 0, "Boolean"); // this
    ldc(&mut code, 41, "Number"); // argument
    ldc(&mut code, 1, "Function");
    code.write_byte(INVOKE);
    code.write_int(1);
    code.write_byte(HALT);
    let mut p = program_with_main(code);
    let mut fc = GvmFunction::new(callee, vec!["a".to_string()]);
    fc.register_local_variable("x".to_string());
    p.add_function_with_id(1, fc);
    let mut vm = Gvm::new(p, Rt);
    let main = vm.start();
    // The boot code (NEW, LDC, INVOKE) enters main; main then loads its
    // three values and makes the call.
    for _ in 0..7 {
        assert!(matches!(vm.fetch_and_decode(main), Step::Continue));
    }
    {
        let t = vm.thread(main);
        assert_eq!(t.function_pointer, 1);
        let n = t.stack.len();
        assert_eq!(t.stack[n - 1].comment.as_deref(), Some("Local variable 0"));
        assert_eq!(t.stack[n - 2].comment.as_deref(), Some("Function parameter 0"));
        assert_eq!(t.stack[n - 2].value, 41);
        assert_eq!(t.frame_pointer as usize, n - 3);
    }
    assert!(matches!(vm.fetch_and_decode(main), Step::Continue)); // LDS 1
    assert!(matches!(vm.fetch_and_decode(main), Step::Continue)); // RETURN
    let t = vm.thread(main);
    assert_eq!(t.function_pointer, 0);
    assert_eq!(t.stack.last().unwrap().value, 41);
    assert!(matches!(vm.fetch_and_decode(main), Step::Halted));
}

#[test]
fn put_and_get_fields_of_the_scope() {
    // this.x = 5 (via GETDYNAMIC on "x", then PUT), then read this.x back.
    let mut code = RandomAccessByteStream::new();
    ldc(&mut code, 5, "Number");
    ldc(&mut code, 0, "String"); // string constant 0: "x"
    code.write_byte(GETDYNAMIC);
    code.write_byte(PUT);
    code.write_byte(POP);
    code.write_byte(LDS);
    code.write_int(0); // this
    ldc(&mut code, 0, "String");
    code.write_byte(GET);
    code.write_byte(HALT);
    let mut p = program_with_main(code);
    p.add_string("x".to_string());
    let mut vm = Gvm::new(p, Rt);
    let main = vm.start();
    run_to_end(&mut vm, main);
    let t = vm.thread(main);
    let top = t.stack.last().unwrap();
    assert_eq!(top.value, 5);
    assert_eq!(top.type_.name, "Number");
    match &top.source {
        ValueSource::HeapField(o, f) => {
            assert_eq!(*o, t.call_stack[0].scope.value);
            assert_eq!(f, "x");
        }
        _ => panic!("GET records the field"),
    }
}

#[test]
fn fork_gives_parent_zero_and_child_one() {
    let mut code = RandomAccessByteStream::new();
    code.write_byte(FORK);
    code.write_byte(HALT);
    let mut vm = Gvm::new(program_with_main(code), Rt);
    let main = vm.start();
    for _ in 0..3 {
        vm.fetch_and_decode(main);
    }
    assert!(matches!(vm.fetch_and_decode(main), Step::Continue)); // FORK
    assert_eq!(vm.thread_count(), 2);
    let parent = vm.thread(main).stack.last().unwrap().clone();
    let child = vm.thread(1).stack.last().unwrap().clone();
    assert_eq!(parent.value, 0);
    assert_eq!(child.value, 1);
    assert_eq!(parent.comment.as_deref(), Some("Fork return value"));
    assert_ne!(
        vm.thread(main).call_stack[0].scope.value,
        vm.thread(1).call_stack[0].scope.value
    );
    assert_eq!(vm.running_threads(), vec![0, 1]);
    assert!(matches!(vm.fetch_and_decode(1), Step::Halted));
}

#[test]
fn native_call_and_native_error() {
    let mut code = RandomAccessByteStream::new();
    ldc(&mut code, 3, "Number");
    ldc(&mut code, 4, "Number");
    ldc(&mut code, 0, "Function"); // native 0 takes 2 arguments
    code.write_byte(NATIVE);
    ldc(&mut code, 1, "Function"); // native 1 takes 0 arguments and fails
    code.write_byte(NATIVE);
    code.write_byte(HALT);
    let catch = code.get_pointer_position();
    code.write_byte(HALT);
    let mut f = GvmFunction::new(code, Vec::new());
    f.register_catch_block(0, 200, catch);
    let mut p = program_with_main(RandomAccessByteStream::new());
    p.delete_function(0);
    p.add_function_with_id(0, f);
    p.add_native(2);
    p.add_native(0);
    let mut vm = Gvm::new(p, Rt);
    let main = vm.start();
    run_to_end(&mut vm, main);
    let t = vm.thread(main);
    let n = t.stack.len();
    // Arguments come off the stack from the top: 4 then 3.
    assert_eq!(t.stack[n - 2].value, 43);
    let exc = &t.stack[n - 1];
    assert_eq!(vm.program().get_string(exc.value).unwrap(), "native failed");
    assert_eq!(vm.program().native_wrappers().len(), 2);
}

#[test]
fn unknown_type_and_stack_underflow_are_faults() {
    let mut code = RandomAccessByteStream::new();
    code.write_byte(NEW);
    code.write_string("Nope");
    let mut vm = Gvm::new(program_with_main(code), Rt);
    let main = vm.start();
    assert!(matches!(run_to_end(&mut vm, main), Step::Fault(_)));

    let mut code = RandomAccessByteStream::new();
    code.write_byte(EQL);
    let mut vm = Gvm::new(program_with_main(code), Rt);
    let main = vm.start();
    for _ in 0..3 {
        vm.fetch_and_decode(main);
    }
    // The operand stack holds only `this`.
    assert!(matches!(vm.fetch_and_decode(main), Step::Fault(_)));
}

#[test]
fn inject_and_stop() {
    let mut vm = Gvm::new(program_with_main(RandomAccessByteStream::new()), Rt);
    let a = vm.spawn_thread();
    let b = vm.spawn_thread();
    assert!(vm.running_threads().is_empty());
    assert!(vm.inject(a));
    assert!(!vm.inject(b));
    assert_eq!(vm.running_threads(), vec![a, b]);
    vm.stop(a);
    assert_eq!(vm.running_threads(), vec![b]);
}

#[test]
fn trace_line_shows_position_opcode_and_stack() {
    let mut vm = Gvm::new(program_with_main(RandomAccessByteStream::new()), Rt);
    let main = vm.start();
    assert_eq!(
        vm.trace_line(main).unwrap(),
        "[pc=0 f=0 fp=0] NEW | stk=[]"
    );
    vm.fetch_and_decode(main);
    assert_eq!(
        vm.trace_line(main).unwrap(),
        "[pc=19 f=0 fp=0] LDC_D | stk=[\"0:Object\"]"
    );
}

#[test]
fn boolean_and_function_equality() {
    let mut code = RandomAccessByteStream::new();
    ldc(&mut code, 3, "Boolean");
    ldc(&mut code, 1, "Boolean");
    code.write_byte(EQL);
    ldc(&mut code, 2, "Function");
    ldc(&mut code, 3, "Function");
    code.write_byte(EQL);
    code.write_byte(HALT);
    let mut vm = Gvm::new(program_with_main(code), Rt);
    let main = vm.start();
    run_to_end(&mut vm, main);
    let s = &vm.thread(main).stack;
    let n = s.len();
    assert_eq!(s[n - 2].value, 1);
    assert_eq!(s[n - 1].value, 0);
}

#[test]
fn error_messages() {
    assert_eq!(operation_name(Operation::Sub), "substraction");
    assert_eq!(operation_name(Operation::Eql), "EQL");
    assert_eq!(
        invoke_unsupported_message("Number"),
        "Invoking a type that does not support invocation: Number"
    );
    assert_eq!(
        native_unsupported_message("Boolean"),
        "Type: Boolean does not support invocation."
    );
    let v = Value::with_comment(-4, number_type(), "tmp".to_string());
    assert_eq!(v.to_text(), "-4:Number //tmp");
    assert_eq!(Value::new(2, ValueType::boolean()).to_text(), "2:Boolean");
    assert_eq!(
        get_unsupported_message(&Value::new(1, number_type()), 12, 3),
        "Type does not support get operation: 1:Number pc: 12 f:3"
    );
}

#[test]
fn runtime_arities_are_stored() {
    let mut p = program_with_main(RandomAccessByteStream::new());
    p.add_native(2);
    p.add_native(5);
    let bytes = GvmProgramSerializer::write_to(&p, &Rt);
    let arities: Vec<i32> = vec![2, 5];
    assert_eq!(bytes, GvmProgramSerializer::encode_program(&p, &arities));
    assert_ne!(bytes, GvmProgramSerializer::encode_program(&p, &[0, 0]));
}

#[test]
fn unhandled_message_reads_the_exception_object() {
    let mut code = RandomAccessByteStream::new();
    code.write_byte(HALT);
    let mut p = program_with_main(code);
    let msg = p.add_string("boom".to_string());
    let loc = p.add_string("file.gs".to_string());
    let mut vm = Gvm::new(p, Rt);
    let main = vm.start();
    vm.fetch_and_decode(main); // NEW Object: object 0 is `this`
    let obj = vm.thread(main).stack.last().unwrap().clone();
    assert_eq!(vm.unhandled_message(&obj), "Unhandled unknown exception");
    assert_eq!(
        vm.unhandled_message(&Value::new(msg, number_type())),
        "Unhandled unknown exception"
    );
    let _ = loc;
}

#[test]
fn unhandled_exception_texts() {
    assert_eq!(
        unhandled_exception_message(Some("boom"), Some(7), Some("a.gs")),
        "Unhandled exception 'boom' at a.gs:7"
    );
    assert_eq!(
        unhandled_exception_message(Some("boom"), Some(7), None),
        "Unhandled exception 'boom' at line 7"
    );
    assert_eq!(
        unhandled_exception_message(Some("boom"), None, Some("a.gs")),
        "Unhandled unknown exception"
    );
    assert_eq!(
        unhandled_exception_message(None, Some(1), None),
        "Unhandled unknown exception"
    );
}

#[test]
fn a_halted_thread_stops_running() {
    let mut code = RandomAccessByteStream::new();
    code.write_byte(BREAKPOINT);
    code.write_byte(HALT);
    let mut vm = Gvm::new(program_with_main(code), Rt);
    let main = vm.start();
    for _ in 0..3 {
        assert!(matches!(vm.step(main), Step::Continue));
    }
    // A thread starts at debug line -1.
    assert!(matches!(vm.step(main), Step::Breakpoint(-1)));
    assert_eq!(vm.running_threads(), vec![main]);
    assert!(matches!(vm.step(main), Step::Halted));
    assert!(vm.running_threads().is_empty());
    assert!(vm.thread(main).finished);
}

#[test]
fn a_step_leaves_other_threads_and_only_adds_to_the_program() {
    let mut code = RandomAccessByteStream::new();
    code.write_byte(FORK);
    ldc(&mut code, 1, "Boolean");
    ldc(&mut code, 1, "Boolean");
    code.write_byte(ADD); // raises: the message becomes a string constant
    code.write_byte(HALT);
    let mut vm = Gvm::new(program_with_main(code), Rt);
    let main = vm.start();
    for _ in 0..4 {
        vm.step(main);
    }
    assert_eq!(vm.thread_count(), 2);
    let parent_stack: Vec<i32> = vm.thread(main).stack.iter().map(|v| v.value).collect();
    let strings_before = vm.program().string_constants().to_vec();
    let refs_before = vm.heap().last_reference();
    for _ in 0..3 {
        assert!(!matches!(vm.step(1), Step::Fault(_)));
    }
    let after: Vec<i32> = vm.thread(main).stack.iter().map(|v| v.value).collect();
    assert_eq!(after, parent_stack);
    let strings_after = vm.program().string_constants();
    assert!(strings_after.len() > strings_before.len());
    assert_eq!(&strings_after[..strings_before.len()], &strings_before[..]);
    assert!(vm.heap().last_reference() >= refs_before);
}

#[test]
fn decimal_texts_of_extreme_payloads() {
    assert_eq!(Value::new(i32::MIN, number_type()).to_text(), "-2147483648:Number");
    assert_eq!(Value::new(i32::MAX, number_type()).to_text(), "2147483647:Number");
    assert_eq!(Value::new(0, number_type()).to_text(), "0:Number");
    assert_eq!(argument_count_message(10, 0, 109), "Argument count for function 10 is 0, but 109 provided.");
}

#[test]
fn a_native_registers_a_native_after_the_existing_ones() {
    let mut code = RandomAccessByteStream::new();
    ldc(&mut code, 2, "Function"); // native 2 registers native 7
    code.write_byte(NATIVE);
    code.write_byte(HALT);
    let mut p = program_with_main(code);
    p.add_native(2);
    p.add_native(0);
    p.add_native(-1);
    let mut vm = Gvm::new(p, Rt);
    let main = vm.start();
    assert!(matches!(run_to_end(&mut vm, main), Step::Halted));
    assert_eq!(vm.program().native_wrappers().to_vec(), vec![2, 0, -1, 7]);
    // The generated function calls native 3, where 7 now stands.
    let id = vm.thread(main).stack.last().unwrap().value;
    let mut stub = vm.program().get_function(id).unwrap().bytecode().clone();
    stub.seek(0);
    assert_eq!(stub.read_byte(), LDC_D);
    assert_eq!(stub.read_int(), 3);
}

#[test]
fn gc_ran_tells_whether_the_last_step_collected() {
    let mut code = RandomAccessByteStream::new();
    ldc(&mut code, 0, "Function"); // native 0 fills the heap
    code.write_byte(NATIVE);
    ldc(&mut code, 5, "Number");
    code.write_byte(HALT);
    let mut p = program_with_main(code);
    p.add_native(-2);
    let mut vm = Gvm::new(p, Rt);
    let main = vm.start();
    assert!(!vm.gc_ran());
    let mut ran = Vec::new();
    loop {
        let s = vm.fetch_and_decode(main);
        ran.push((vm.gc_ran(), vm.heap().size()));
        if !s.continues() {
            break;
        }
    }
    // Only the step of the native call collected: the 250 new objects were
    // unreachable, and the scope object of main stays.
    assert_eq!(ran.iter().filter(|x| x.0).count(), 1);
    let k = ran.iter().position(|x| x.0).unwrap();
    assert_eq!(ran[k].1, 1);
    assert!(!ran[ran.len() - 1].0);
}
