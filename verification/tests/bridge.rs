use gs_core::bridge::native_module::{
    MethodDescriptor, NativeError, NativeInstance, NativeModule, NativeValue,
};
use gs_core::bridge::registry::{call_kind, simple_class_name, CallKind, NativeRegistry};

struct Counter {
    start: i32,
}

impl NativeInstance for Counter {
    fn instance_type(&self) -> &str {
        "Counter"
    }
    fn instance_methods(&self) -> Vec<MethodDescriptor> {
        vec![MethodDescriptor::new("value".to_string(), 0)]
    }
    fn call_method(
        &self,
        method: &str,
        _args: Vec<NativeValue<Self>>,
    ) -> Result<NativeValue<Self>, NativeError> {
        if method == "value" {
            Ok(NativeValue::Number(self.start))
        } else {
            Err(NativeError::new(format!("no method {}", method)))
        }
    }
    fn destroy(&self) {}
    fn clone_instance(&self) -> Self {
        Counter { start: self.start }
    }
}

struct CounterModule {
    name: String,
}

impl NativeModule for CounterModule {
    type Instance = Counter;
    fn class_name(&self) -> &str {
        &self.name
    }
    fn constructor(
        &self,
        args: Vec<NativeValue<Counter>>,
    ) -> Result<NativeValue<Counter>, NativeError> {
        match args.first() {
            Some(NativeValue::Number(n)) => Ok(NativeValue::Instance(Counter { start: *n })),
            _ => Ok(NativeValue::Instance(Counter { start: 0 })),
        }
    }
    fn call_static(
        &self,
        method: &str,
        args: Vec<NativeValue<Counter>>,
    ) -> Result<NativeValue<Counter>, NativeError> {
        match method {
            "twice" => match args.first() {
                Some(NativeValue::Number(n)) => Ok(NativeValue::Number(2 * n)),
                _ => Err(NativeError::new("twice takes a number".to_string())),
            },
            _ => Err(NativeError::new(format!("unknown static {}", method))),
        }
    }
    fn static_methods(&self) -> Vec<MethodDescriptor> {
        vec![MethodDescriptor::new("twice".to_string(), 1)]
    }
}

#[test]
fn simple_class_name_takes_the_last_segment() {
    assert_eq!(simple_class_name("a.b.Counter"), "Counter");
    assert_eq!(simple_class_name("Counter"), "Counter");
    assert_eq!(simple_class_name("a.b."), "");
    assert_eq!(simple_class_name(""), "");
}

#[test]
fn call_kind_by_method_name() {
    assert_eq!(call_kind("x.Counter", "Counter"), CallKind::Constructor);
    assert_eq!(call_kind("x.Counter", "twice"), CallKind::Static);
    assert_eq!(call_kind("x.Counter", "x.Counter"), CallKind::Static);
}

#[test]
fn dispatch_constructs_and_calls_statics() {
    let mut reg: NativeRegistry<CounterModule> = NativeRegistry::new();
    reg.register(CounterModule { name: "lib.Counter".to_string() });
    match reg.dispatch("lib.Counter", "Counter", vec![NativeValue::Number(5)]) {
        Ok(NativeValue::Instance(c)) => {
            assert_eq!(c.start, 5);
            assert!(matches!(c.call_method("value", Vec::new()), Ok(NativeValue::Number(5))));
        }
        _ => panic!("the constructor did not run"),
    }
    match reg.dispatch("lib.Counter", "twice", vec![NativeValue::Number(21)]) {
        Ok(NativeValue::Number(n)) => assert_eq!(n, 42),
        _ => panic!("the static method did not run"),
    }
    match reg.dispatch("lib.Counter", "nope", Vec::new()) {
        Err(e) => assert_eq!(e.message, "unknown static nope"),
        Ok(_) => panic!("an unknown static method succeeded"),
    }
}

#[test]
fn dispatch_to_an_unknown_class_fails() {
    let reg: NativeRegistry<CounterModule> = NativeRegistry::new();
    match reg.dispatch("Missing", "Missing", Vec::new()) {
        Err(e) => assert_eq!(e.message, "Native module not found: Missing"),
        Ok(_) => panic!("dispatched to a missing class"),
    }
}

#[test]
fn registering_again_replaces_the_module() {
    let mut reg: NativeRegistry<CounterModule> = NativeRegistry::new();
    reg.register(CounterModule { name: "A".to_string() });
    reg.register(CounterModule { name: "B".to_string() });
    reg.register(CounterModule { name: "A".to_string() });
    let mut classes = reg.registered_classes();
    classes.sort();
    assert_eq!(classes, vec!["A".to_string(), "B".to_string()]);
    reg.register_as("C".to_string(), CounterModule { name: "ignored".to_string() });
    assert_eq!(reg.registered_classes().len(), 3);
    assert!(reg.dispatch("C", "twice", vec![NativeValue::Number(1)]).is_ok());
}

#[test]
fn values_describe_themselves() {
    assert_eq!(NativeValue::<Counter>::Undefined.describe(), "Undefined");
    assert_eq!(NativeValue::<Counter>::Number(-3).describe(), "Number(-3)");
    assert_eq!(NativeValue::<Counter>::Boolean(true).describe(), "Boolean(true)");
    assert_eq!(
        NativeValue::<Counter>::String("a\"b".to_string()).describe(),
        "String(\"a\\\"b\")"
    );
    assert_eq!(NativeValue::<Counter>::Bytes(vec![1, 2, 3]).describe(), "Bytes(len=3)");
    assert_eq!(NativeValue::Instance(Counter { start: 1 }).describe(), "Instance(Counter)");
}
