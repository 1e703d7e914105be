//! The registry of native modules by class name.
use vstd::prelude::*;

use crate::bridge::native_module::{NativeError, NativeModule, NativeValue};
use crate::program::function::names;
use crate::text::{concat, str_eq};

verus! {

/// The index of the last `.` among the first `n` characters of `s`.
pub open spec fn last_dot(s: Seq<char>, n: int) -> Option<int>
    decreases n,
{
    if n <= 0 {
        None
    } else if s[n - 1] == '.' {
        Some(n - 1)
    } else {
        last_dot(s, n - 1)
    }
}

/// The part of a class name after its last `.` (the whole name when it
/// has none).
pub open spec fn simple_name(class: Seq<char>) -> Seq<char> {
    match last_dot(class, class.len() as int) {
        Some(i) => class.subrange(i + 1, class.len() as int),
        None => class,
    }
}

/// What a call to a native class does: construct an instance, or call a
/// static method.
#[derive(Debug, Clone, Copy, PartialEq, Eq, Structural)]
pub enum CallKind {
    Constructor,
    Static,
}

/// The kind of a call of `method` on `class`: the constructor when the
/// method is named like the class (after its last `.`), else a static
/// method.
pub open spec fn call_kind_of(class: Seq<char>, method: Seq<char>) -> CallKind {
    if method == simple_name(class) {
        CallKind::Constructor
    } else {
        CallKind::Static
    }
}

/// The part of `class` after its last `.`.
pub fn simple_class_name(class: &str) -> (r: &str)
    ensures
        r@ == simple_name(class@),
{
    let n = class.unicode_len();
    let mut k: usize = n;
    while k > 0
        invariant
            k <= n,
            n == class@.len(),
            last_dot(class@, n as int) == last_dot(class@, k as int),
        decreases k,
    {
        if class.get_char(k - 1) == '.' {
            return class.substring_char(k, n);
        }
        k = k - 1;
    }
    class
}

/// The kind of a call of `method` on `class`.
pub fn call_kind(class: &str, method: &str) -> (r: CallKind)
    ensures
        r == call_kind_of(class@, method@),
{
    if str_eq(method, simple_class_name(class)) {
        CallKind::Constructor
    } else {
        CallKind::Static
    }
}

/// Native modules by class name.
pub struct NativeRegistry<M> {
    classes: Vec<String>,
    modules: Vec<M>,
}

impl<M> View for NativeRegistry<M> {
    type V = Map<Seq<char>, M>;

    closed spec fn view(&self) -> Map<Seq<char>, M> {
        Map::new(
            |k: Seq<char>| names(self.classes@).contains(k),
            |k: Seq<char>| self.modules@[names(self.classes@).index_of_first(k).unwrap()],
        )
    }
}

impl<M> NativeRegistry<M> {
    /// Each class name is registered once, with one module.
    pub closed spec fn wf(&self) -> bool {
        &&& self.classes@.len() == self.modules@.len()
        &&& names(self.classes@).no_duplicates()
    }

    /// An empty registry.
    pub fn new() -> (r: Self)
        ensures
            r.wf(),
            r@ == Map::<Seq<char>, M>::empty(),
    {
        let r = NativeRegistry { classes: Vec::new(), modules: Vec::new() };
        assert(names(r.classes@) =~= Seq::<Seq<char>>::empty());
        assert(r@ =~= Map::<Seq<char>, M>::empty());
        r
    }

    /// The index of `class`, if registered.
    fn find(&self, class: &str) -> (r: Option<usize>)
        ensures
            match r {
                Some(i) => i < self.classes@.len() && names(self.classes@)[i as int] == class@,
                None => !names(self.classes@).contains(class@),
            },
    {
        let ghost t = names(self.classes@);
        let mut k: usize = 0;
        while k < self.classes.len()
            invariant
                k <= self.classes@.len(),
                t == names(self.classes@),
                forall|j: int| 0 <= j < k ==> t[j] != class@,
            decreases self.classes@.len() - k,
        {
            if str_eq(self.classes[k].as_str(), class) {
                return Some(k);
            }
            k = k + 1;
        }
        None
    }

    /// Registers `module` under `class`, replacing a module registered under
    /// that name.
    pub fn register_as(&mut self, class: String, module: M)
        requires
            old(self).wf(),
        ensures
            final(self).wf(),
            final(self)@ == old(self)@.insert(class@, module),
    {
        let ghost t = names(self.classes@);
        match self.find(class.as_str()) {
            Some(i) => {
                self.modules.set(i, module);
                proof {
                    assert forall|k: Seq<char>| t.contains(k) implies t.index_of_first(k) == Some(
                        t.index_of_first(k).unwrap(),
                    ) by {
                        t.index_of_first_ensures(k);
                    }
                    t.index_of_first_ensures(class@);
                    assert(t.index_of_first(class@).unwrap() == i as int) by {
                        let j = t.index_of_first(class@).unwrap();
                        if j != i as int {
                            assert(t[j] == t[i as int]);
                        }
                    }
                    assert forall|k: Seq<char>| t.contains(k) && k != class@ implies t.index_of_first(k).unwrap()
                        != i as int by {
                        t.index_of_first_ensures(k);
                    }
                    assert(names(self.classes@) == t);
                    let target = old(self)@.insert(class@, module);
                    assert forall|k: Seq<char>| #[trigger] self@.contains_key(k) == target.contains_key(k) by {
                        assert(t[i as int] == class@);
                    }
                    assert forall|k: Seq<char>| #[trigger] self@.contains_key(k) implies self@[k] == target[k] by {
                        t.index_of_first_ensures(k);
                        if k != class@ {
                            assert(t.index_of_first(k).unwrap() != i as int);
                        }
                    }
                    assert(self@ =~= target);
                }
            },
            None => {
                let ghost name = class@;
                self.classes.push(class);
                self.modules.push(module);
                proof {
                    let t2 = names(self.classes@);
                    assert(t2 =~= t.push(name));
                    assert forall|a: int, b: int| 0 <= a < b < t2.len() implies t2[a] != t2[b] by {
                        if b == t.len() {
                            assert(t.contains(t2[a]) ==> t2[a] != name);
                            assert(t[a] == t2[a]);
                        }
                    }
                    assert forall|k: Seq<char>| t2.contains(k) implies t2.index_of_first(k).unwrap()
                        == if k == name {
                        t.len() as int
                    } else {
                        t.index_of_first(k).unwrap()
                    } by {
                        t2.index_of_first_ensures(k);
                        let j = t2.index_of_first(k).unwrap();
                        if k == name {
                            if j < t.len() {
                                assert(t[j] == name);
                            }
                        } else {
                            assert(j < t.len());
                            assert(t[j] == k);
                            assert(t.contains(k));
                            t.index_of_first_ensures(k);
                            let i = t.index_of_first(k).unwrap();
                            if i < j {
                                assert(t2[i] == k);
                            }
                        }
                    }
                    assert forall|k: Seq<char>| t.contains(k) implies #[trigger] t2.contains(k) by {
                        let j = choose|j: int| 0 <= j < t.len() && t[j] == k;
                        assert(t2[j] == k);
                    }
                    assert(t2[t.len() as int] == name);
                    assert forall|k: Seq<char>| #[trigger] t2.contains(k) implies t.contains(k) || k == name by {
                        let j = choose|j: int| 0 <= j < t2.len() && t2[j] == k;
                        if j < t.len() {
                            assert(t[j] == k);
                        }
                    }
                    let target = old(self)@.insert(class@, module);
                    assert forall|k: Seq<char>| #[trigger] self@.contains_key(k) == target.contains_key(k) by {
                        if k == name {
                            assert(t2.contains(k));
                        }
                    }
                    assert forall|k: Seq<char>| #[trigger] self@.contains_key(k) implies self@[k] == target[k] by {
                        if k != name {
                            t.index_of_first_ensures(k);
                            assert(self.modules@[t.index_of_first(k).unwrap()] == old(self).modules@[t.index_of_first(k).unwrap()]);
                        }
                    }
                    assert(self@ =~= target);
                }
            },
        }
    }

    /// The registered class names, each once.
    pub fn registered_classes(&self) -> (r: Vec<String>)
        requires
            self.wf(),
        ensures
            names(r@).no_duplicates(),
            forall|k: Seq<char>| #[trigger] names(r@).contains(k) <==> self@.contains_key(k),
    {
        let mut r: Vec<String> = Vec::new();
        let mut k: usize = 0;
        while k < self.classes.len()
            invariant
                k <= self.classes@.len(),
                names(r@) == names(self.classes@).take(k as int),
            decreases self.classes@.len() - k,
        {
            let ghost before = names(r@);
            assert(names(self.classes@)[k as int] == self.classes@[k as int]@);
            let x = self.classes[k].clone();
            r.push(x);
            assert(names(r@) =~= before.push(names(self.classes@)[k as int]));
            k = k + 1;
            assert(names(r@) =~= names(self.classes@).take(k as int));
        }
        assert(names(self.classes@).take(k as int) =~= names(self.classes@));
        r
    }
}

impl<M: NativeModule> NativeRegistry<M> {
    /// Registers `module` under its class name, replacing a module
    /// registered under that name.
    pub fn register(&mut self, module: M)
        requires
            old(self).wf(),
        ensures
            final(self).wf(),
            exists|name: &str|
                call_ensures(M::class_name, (&module,), name) && final(self)@ == old(self)@.insert(
                    name@,
                    module,
                ),
    {
        let name = module.class_name();
        let class = name.to_string();
        self.register_as(class, module);
    }

    /// Calls `method` of the class registered as `class`: its constructor
    /// when the method is named like the class, else the static method. An
    /// unregistered class gives the error `Native module not found: <class>`.
    pub fn dispatch(&self, class: &str, method: &str, args: Vec<NativeValue<M::Instance>>) -> (r: Result<
        NativeValue<M::Instance>,
        NativeError,
    >)
        requires
            self.wf(),
        ensures
            !self@.contains_key(class@) ==> (r matches Err(e) && e.message@ == "Native module not found: "@
                + class@),
            self@.contains_key(class@) && call_kind_of(class@, method@) == CallKind::Constructor
                ==> call_ensures(M::constructor, (&self@[class@], args), r),
            self@.contains_key(class@) && call_kind_of(class@, method@) == CallKind::Static
                ==> call_ensures(M::call_static, (&self@[class@], method, args), r),
    {
        match self.find(class) {
            None => Err(NativeError::new(concat("Native module not found: ", class))),
            Some(i) => {
                proof {
                    let t = names(self.classes@);
                    t.index_of_first_ensures(class@);
                    let j = t.index_of_first(class@).unwrap();
                    if j != i {
                        assert(t[j] == t[i as int]);
                    }
                }
                let module = &self.modules[i];
                match call_kind(class, method) {
                    CallKind::Constructor => module.constructor(args),
                    CallKind::Static => module.call_static(method, args),
                }
            },
        }
    }
}

} // verus!
