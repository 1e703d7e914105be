use gs_core::gc::{GarbageCollector, MarkAndSweepGarbageCollector};
use gs_core::program::function::GvmFunction;
use gs_core::program::heap::GvmHeap;
use gs_core::program::program::GvmProgram;
use gs_core::streams::RandomAccessByteStream;
use gs_core::vm::object::GvmObject;
use gs_core::vm::thread::GvmThread;
use gs_core::vm::types::{Operation, TypeInfo, TypeKind, Value, ValueType};
use std::collections::HashSet;

struct Obj {
    fields: Vec<(String, Value)>,
}

impl GvmObject for Obj {
    fn set_value(&mut self, id: &str, v: Value) {
        for f in self.fields.iter_mut() {
            if f.0 == id {
                f.1 = v;
                return;
            }
        }
        self.fields.push((id.to_string(), v));
    }
    fn get_value(&self, id: &str) -> Option<Value> {
        self.fields.iter().find(|f| f.0 == id).map(|f| f.1.clone())
    }
    fn has_value(&self, id: &str) -> bool {
        self.fields.iter().any(|f| f.0 == id)
    }
    fn get_values(&self) -> Vec<Value> {
        self.fields.iter().map(|f| f.1.clone()).collect()
    }
    fn get_keys(&self) -> Vec<String> {
        self.fields.iter().map(|f| f.0.clone()).collect()
    }
    fn pre_destroy(&self) {}
    fn clone_object(&self) -> Self {
        Obj { fields: self.fields.clone() }
    }
}

fn empty() -> Obj {
    Obj { fields: Vec::new() }
}

fn object_type() -> TypeInfo {
    TypeInfo {
        name: "Object".to_string(),
        operations: vec![Operation::Get, Operation::New],
        kind: TypeKind::Custom,
    }
}

#[test]
fn new_program_has_the_builtin_types() {
    let p: GvmProgram<()> = GvmProgram::new("demo".to_string());
    assert_eq!(p.name(), "demo");
    assert!(p.find_type("Boolean").is_some());
    assert!(p.find_type("Undefined").is_some());
    assert!(p.find_type("Function").is_some());
    assert!(p.find_type("Number").is_none());
    assert!(p.supports("Function", Operation::Invoke));
    assert!(p.supports("Boolean", Operation::And));
    assert!(!p.supports("Boolean", Operation::Add));
    assert!(!p.supports("Number", Operation::Add));
    assert!(p.get_main().is_none());
    assert!(p.string_constants().is_empty());
}

#[test]
fn add_string_reuses_existing_constants() {
    let mut p: GvmProgram<()> = GvmProgram::new("s".to_string());
    assert_eq!(p.add_string("a".to_string()), 0);
    assert_eq!(p.add_string("b".to_string()), 1);
    assert_eq!(p.add_string("a".to_string()), 0);
    assert_eq!(p.string_constants().len(), 2);
    assert_eq!(p.find_string("b"), 1);
    assert_eq!(p.find_string("zzz"), -1);
    assert_eq!(p.get_string(1), Some("b"));
    assert_eq!(p.get_string(2), None);
    assert_eq!(p.get_string(-1), None);
    p.add_string_at("c".to_string(), 0);
    assert_eq!(p.find_string("a"), 1);
    assert_eq!(p.get_string(0), Some("c"));
}

#[test]
fn functions_get_consecutive_ids() {
    let mut p: GvmProgram<()> = GvmProgram::new("f".to_string());
    let a = p.add_function(GvmFunction::new(RandomAccessByteStream::new(), Vec::new()));
    let b = p.add_function(GvmFunction::new(RandomAccessByteStream::new(), Vec::new()));
    assert_eq!((a, b), (0, 1));
    p.add_function_with_id(7, GvmFunction::new(RandomAccessByteStream::new(), Vec::new()));
    // An id below the counter leaves the counter alone.
    p.add_function_with_id(2, GvmFunction::new(RandomAccessByteStream::new(), Vec::new()));
    let c = p.add_function(GvmFunction::new(RandomAccessByteStream::new(), Vec::new()));
    assert_eq!(c, 8);
    assert_eq!(p.function_ids(), vec![0, 1, 2, 7, 8]);
    p.delete_function(1);
    assert_eq!(p.function_ids(), vec![0, 2, 7, 8]);
    assert!(p.get_function(1).is_none());
    assert_eq!(p.functions().len(), 4);
}

#[test]
fn get_function_mut_changes_in_place() {
    let mut p: GvmProgram<()> = GvmProgram::new("m".to_string());
    p.add_function(GvmFunction::new(RandomAccessByteStream::new(), Vec::new()));
    p.get_function_mut(0).unwrap().set_debug_name("main".to_string());
    assert_eq!(p.get_main().unwrap().debug_name(), Some("main"));
    assert!(p.get_function_mut(3).is_none());
}

#[test]
fn register_type_replaces_a_type_of_the_same_name() {
    let mut p: GvmProgram<()> = GvmProgram::new("t".to_string());
    p.register_type(object_type());
    assert!(p.supports("Object", Operation::Get));
    p.register_type(TypeInfo {
        name: "Object".to_string(),
        operations: vec![Operation::New],
        kind: TypeKind::Custom,
    });
    assert!(!p.supports("Object", Operation::Get));
    assert!(p.supports("Object", Operation::New));
    assert_eq!(p.get_type("Object").name, "Object");
}

#[test]
fn natives_are_appended_in_order() {
    let mut p: GvmProgram<i32> = GvmProgram::new("n".to_string());
    assert_eq!(p.add_native(5), 0);
    assert_eq!(p.add_native(6), 1);
    assert_eq!(p.native_wrappers(), &[5, 6]);
    p.native_wrappers_mut().push(7);
    p.set_natives(vec![1]);
    assert_eq!(p.native_wrappers(), &[1]);
}

#[test]
fn innermost_catch_block_wins() {
    let mut f = GvmFunction::new(RandomAccessByteStream::new(), vec!["x".to_string()]);
    f.register_catch_block(0, 100, 500);
    f.register_catch_block(10, 50, 600);
    f.register_catch_block(20, 30, 700);
    assert_eq!(f.get_exception_handler(25), 700);
    assert_eq!(f.get_exception_handler(40), 600);
    assert_eq!(f.get_exception_handler(80), 500);
    // The start itself is not covered; the end is.
    assert_eq!(f.get_exception_handler(0), -1);
    assert_eq!(f.get_exception_handler(100), 500);
    assert_eq!(f.get_exception_handler(101), -1);
    assert_eq!(
        f.get_exception_handlers(),
        vec![[0, 100, 500], [10, 50, 600], [20, 30, 700]]
    );
    assert!(f.handler_distances_fit(25));
}

#[test]
fn equally_close_blocks_take_the_first() {
    let mut f = GvmFunction::new(RandomAccessByteStream::new(), Vec::new());
    f.register_catch_block(5, 9, 1);
    f.register_catch_block(5, 20, 2);
    assert_eq!(f.get_exception_handler(8), 1);
    assert_eq!(f.get_exception_handler(15), 2);
}

#[test]
fn locals_are_registered_once() {
    let mut f = GvmFunction::new(RandomAccessByteStream::new(), vec!["p".to_string()]);
    f.register_local_variable("a".to_string());
    f.register_local_variable("b".to_string());
    f.register_local_variable("a".to_string());
    assert_eq!(f.locals(), &["a".to_string(), "b".to_string()]);
    assert_eq!(f.parameters(), &["p".to_string()]);
    assert_eq!(f.debug_name(), None);
    f.set_index(4);
    assert_eq!(f.index(), 4);
}

#[test]
fn heap_hands_out_increasing_references() {
    let mut h: GvmHeap<Obj> = GvmHeap::new();
    assert_eq!(h.last_reference(), -1);
    assert_eq!(h.add_object(empty()), 0);
    assert_eq!(h.add_object(empty()), 1);
    assert_eq!(h.size(), 2);
    h.get_object_mut(1).unwrap().set_value("k", Value::new(3, ValueType::of(&TypeInfo { name: "Number".to_string(), operations: vec![Operation::Add], kind: TypeKind::Custom })));
    assert_eq!(h.get_object(1).unwrap().get_value("k").unwrap().value, 3);
    assert!(h.get_object(2).is_none());
    h.clear();
    assert_eq!(h.size(), 0);
    // References are not reused after a clear.
    assert_eq!(h.add_object(empty()), 2);
}

#[test]
fn retain_keys_keeps_only_the_given_references() {
    let mut h: GvmHeap<Obj> = GvmHeap::new();
    for _ in 0..5 {
        h.add_object(empty());
    }
    let keep: HashSet<i32> = [1, 3, 9].into_iter().collect();
    h.retain_keys(&keep);
    assert_eq!(h.size(), 2);
    assert!(h.get_object(1).is_some());
    assert!(h.get_object(3).is_some());
    assert!(h.get_object(0).is_none());
    assert_eq!(h.last_reference(), 4);
}

#[test]
fn collector_waits_for_the_threshold() {
    let mut h: GvmHeap<Obj> = GvmHeap::new();
    for _ in 0..199 {
        h.add_object(empty());
    }
    let mut gc = MarkAndSweepGarbageCollector::new();
    let threads: Vec<GvmThread> = vec![GvmThread::new()];
    assert!(!gc.collect(&mut h, &threads));
    assert_eq!(h.size(), 199);
}

#[test]
fn collector_keeps_what_threads_reach() {
    let mut h: GvmHeap<Obj> = GvmHeap::new();
    for _ in 0..250 {
        h.add_object(empty());
    }
    // 3 is on a stack, 3 refers to 7, and 7 refers to 11; 20 is held by a
    // value of a type without GET, which does not count as a reference.
    h.get_object_mut(3).unwrap().set_value("next", Value::new(7, ValueType::of(&object_type())));
    h.get_object_mut(7).unwrap().set_value("next", Value::new(11, ValueType::of(&object_type())));
    let mut t = GvmThread::new();
    t.stack.push(Value::new(3, ValueType::of(&object_type())));
    t.stack.push(Value::new(20, ValueType::boolean()));
    let mut gc = MarkAndSweepGarbageCollector::new();
    assert!(gc.collect(&mut h, &[t]));
    assert_eq!(h.size(), 3);
    assert!(h.get_object(3).is_some());
    assert!(h.get_object(7).is_some());
    assert!(h.get_object(11).is_some());
    assert!(h.get_object(20).is_none());
    assert_eq!(h.last_reference(), 249);
}

#[test]
fn function_ids_are_never_reused() {
    let mut p: GvmProgram<()> = GvmProgram::new("ids".to_string());
    assert_eq!(p.add_function(GvmFunction::new(RandomAccessByteStream::new(), Vec::new())), 0);
    p.add_function_with_id(-4, GvmFunction::new(RandomAccessByteStream::new(), Vec::new()));
    assert_eq!(p.add_function(GvmFunction::new(RandomAccessByteStream::new(), Vec::new())), 1);
    p.delete_function(1);
    assert_eq!(p.add_function(GvmFunction::new(RandomAccessByteStream::new(), Vec::new())), 2);
    p.add_function_with_id(9, GvmFunction::new(RandomAccessByteStream::new(), Vec::new()));
    assert_eq!(p.add_function(GvmFunction::new(RandomAccessByteStream::new(), Vec::new())), 10);
}

#[test]
fn heap_references_count_the_additions() {
    let mut h: GvmHeap<Obj> = GvmHeap::new();
    assert_eq!(h.add_object(empty()), 0);
    assert_eq!(h.add_object(empty()), 1);
    let keep: HashSet<i32> = [0].into_iter().collect();
    h.retain_keys(&keep);
    assert_eq!(h.add_object(empty()), 2);
    h.clear();
    assert_eq!(h.add_object(empty()), 3);
}

#[test]
fn collector_follows_the_type_each_value_carries() {
    // Values of a type that supports GET count as references, whatever
    // types a program registers.
    let mut h: GvmHeap<Obj> = GvmHeap::new();
    for _ in 0..250 {
        h.add_object(empty());
    }
    h.get_object_mut(5).unwrap().set_value("next", Value::new(6, ValueType::of(&object_type())));
    let mut t = GvmThread::new();
    t.stack.push(Value::new(5, ValueType::of(&object_type())));
    let mut gc = MarkAndSweepGarbageCollector::new();
    assert!(gc.collect(&mut h, &[t]));
    assert_eq!(h.size(), 2);
    assert!(h.get_object(5).is_some());
    assert!(h.get_object(6).is_some());
}

#[test]
fn a_value_keeps_its_type_when_a_type_is_registered_again() {
    let mut p: GvmProgram<()> = GvmProgram::new("t".to_string());
    p.register_type(object_type());
    let v = Value::new(1, ValueType::of(p.get_type("Object")));
    p.register_type(TypeInfo { name: "Object".to_string(), operations: vec![], kind: TypeKind::Custom });
    assert!(!p.supports("Object", Operation::Get));
    assert!(v.type_.operations.permits(Operation::Get));
    assert_eq!(v.type_.name, "Object");
}
