//! A loaded program: functions by id, string constants, registered types
//! and native methods.
use vstd::prelude::*;
use std::collections::HashMap;

use crate::program::function::{FunctionView, GvmFunction};
use crate::program::heap::map_get_mut;
use crate::vm::types::{
    boolean_name, boolean_supports, function_name, function_supports, undefined_name,
    undefined_supports, BooleanType, FunctionType, Operation, TypeInfo, TypeKind, UndefinedType, ValueType,
};

verus! {

broadcast use vstd::std_specs::hash::group_hash_axioms;

/// What the machine knows of a registered type: its name, the operations it
/// supports and whether they are built in.
pub struct TypeView {
    pub name: Seq<char>,
    pub operations: Seq<Operation>,
    pub kind: TypeKind,
}

/// The view of a registered type.
pub open spec fn type_view(t: TypeInfo) -> TypeView {
    TypeView { name: t.name@, operations: t.operations@, kind: t.kind }
}

/// Whether a value's type `t` is the registered type `tv`: the same name,
/// kind and operations.
pub open spec fn describes(t: ValueType, tv: TypeView) -> bool {
    &&& t.name@ == tv.name
    &&& t.kind == tv.kind
    &&& forall|op: Operation| #[trigger] t.operations.allows(op) <==> tv.operations.contains(op)
}

/// The abstract state of a program.
pub struct ProgramView<N> {
    pub name: Seq<char>,
    pub functions: Map<i32, FunctionView>,
    pub strings: Seq<Seq<char>>,
    pub types: Seq<TypeView>,
    pub natives: Seq<N>,
    /// The id the next `add_function` hands out.
    pub counter: i32,
}

/// The index of the first type named `name`, if any.
pub open spec fn type_index(types: Seq<TypeView>, name: Seq<char>) -> Option<int>
    decreases types.len(),
{
    if types.len() == 0 {
        None
    } else if types[0].name == name {
        Some(0)
    } else {
        match type_index(types.drop_first(), name) {
            Some(k) => Some(k + 1),
            None => None,
        }
    }
}

proof fn lemma_type_index_first(types: Seq<TypeView>, name: Seq<char>, k: int)
    requires
        0 <= k < types.len(),
        types[k].name == name,
        forall|j: int| 0 <= j < k ==> types[j].name != name,
    ensures
        type_index(types, name) == Some(k),
    decreases types.len(),
{
    if k > 0 {
        lemma_type_index_first(types.drop_first(), name, k - 1);
    }
}

proof fn lemma_type_index_none(types: Seq<TypeView>, name: Seq<char>)
    requires
        forall|j: int| 0 <= j < types.len() ==> types[j].name != name,
    ensures
        type_index(types, name) is None,
    decreases types.len(),
{
    if types.len() > 0 {
        lemma_type_index_none(types.drop_first(), name);
    }
}

/// Whether a registered type is the built-in one of kind `kind` named `name`
/// that supports exactly the operations `supports` accepts.
pub open spec fn is_builtin_type(
    t: TypeView,
    kind: TypeKind,
    name: Seq<char>,
    supports: spec_fn(Operation) -> bool,
) -> bool {
    &&& t.name == name
    &&& t.kind == kind
    &&& forall|op: Operation| t.operations.contains(op) <==> supports(op)
}

/// Whether the type named `name` is registered and supports `op`.
pub open spec fn type_supports(types: Seq<TypeView>, name: Seq<char>, op: Operation) -> bool {
    match type_index(types, name) {
        Some(k) => types[k].operations.contains(op),
        None => false,
    }
}

/// Whether no two registered types share a name.
pub open spec fn unique_type_names(types: Seq<TypeView>) -> bool {
    forall|i: int, j: int|
        0 <= i < types.len() && 0 <= j < types.len() && i != j ==> #[trigger] types[i].name
            != #[trigger] types[j].name
}

/// The position of `s` among `strings`, or -1.
pub open spec fn string_position(strings: Seq<Seq<char>>, s: Seq<char>) -> int {
    if strings.contains(s) {
        strings.index_of_first(s).unwrap()
    } else {
        -1
    }
}

/// Whether `ids` lists the keys in increasing order.
pub open spec fn is_sorted_keys(ids: Seq<i32>, keys: Set<i32>) -> bool {
    &&& forall|a: int, b: int| 0 <= a < b < ids.len() ==> ids[a] < ids[b]
    &&& forall|k: i32| keys.contains(k) <==> ids.contains(k)
}

/// A program.
pub struct GvmProgram<N> {
    name: String,
    functions: HashMap<i32, GvmFunction>,
    string_constants: Vec<String>,
    types: Vec<TypeInfo>,
    native_wrappers: Vec<N>,
    function_counter: i32,
}

impl<N> View for GvmProgram<N> {
    type V = ProgramView<N>;

    closed spec fn view(&self) -> ProgramView<N> {
        ProgramView {
            name: self.name@,
            functions: function_views(self.functions@),
            strings: self.string_constants@.map_values(|s: String| s@),
            types: self.types@.map_values(|t: TypeInfo| type_view(t)),
            natives: self.native_wrappers@,
            counter: self.function_counter,
        }
    }
}

/// The views of the functions of a map.
pub open spec fn function_views(m: Map<i32, GvmFunction>) -> Map<i32, FunctionView> {
    m.map_values(|f: GvmFunction| f@)
}

proof fn lemma_function_views_insert()
    ensures
        forall|m: Map<i32, GvmFunction>, k: i32, v: GvmFunction|
            #[trigger] function_views(m.insert(k, v)) == function_views(m).insert(k, v@),
{
    assert forall|m: Map<i32, GvmFunction>, k: i32, v: GvmFunction|
        #[trigger] function_views(m.insert(k, v)) == function_views(m).insert(k, v@) by {
        assert(function_views(m.insert(k, v)) =~= function_views(m).insert(k, v@));
    }
}

impl<N> GvmProgram<N> {
    /// The program is consistent: every function is, and type names are
    /// unique.
    pub closed spec fn wf(&self) -> bool {
        &&& forall|id: i32| #[trigger] self.functions@.contains_key(id) ==> self.functions@[id].wf()
        &&& forall|id: i32| #[trigger] self.functions@.contains_key(id) ==> id < self.function_counter
        &&& unique_type_names(self@.types)
    }

    /// The function under `id` is well formed.
    pub closed spec fn function_wf(&self, id: i32) -> bool {
        self.functions@.contains_key(id) && self.functions@[id].wf()
    }

    /// Function ids are never handed out twice: in a consistent program every
    /// function id lies below the counter from which `add_function` takes
    /// its next id.
    pub proof fn lemma_ids_below_counter(&self)
        requires
            self.wf(),
        ensures
            forall|id: i32| #[trigger] self@.functions.contains_key(id) ==> id < self@.counter,
    {
    }

    /// Every function of a consistent program is consistent.
    pub proof fn lemma_function_wf(&self, id: i32)
        requires
            self.wf(),
            self@.functions.contains_key(id),
        ensures
            self.function_wf(id),
    {
    }

    /// In a consistent program no function registers a local name twice.
    pub proof fn lemma_locals_distinct(&self, id: i32)
        requires
            self.wf(),
            self@.functions.contains_key(id),
        ensures
            self@.functions[id].locals.no_duplicates(),
    {
        self.functions@[id].lemma_wf_locals();
    }

    /// A program named `name` with no functions, strings or natives and the
    /// built-in types `Boolean`, `Undefined` and `Function` registered.
    pub fn new(name: String) -> (p: Self)
        ensures
            p.wf(),
            p@.name == name@,
            p@.functions == Map::<i32, FunctionView>::empty(),
            p@.strings == Seq::<Seq<char>>::empty(),
            p@.natives == Seq::<N>::empty(),
            p@.counter == 0,
            p@.types.len() == 3,
            is_builtin_type(p@.types[0], TypeKind::Boolean, boolean_name(), |op| boolean_supports(op)),
            is_builtin_type(p@.types[1], TypeKind::Undefined, undefined_name(), |op| undefined_supports(op)),
            is_builtin_type(p@.types[2], TypeKind::Function, function_name(), |op| function_supports(op)),
    {
        let mut program = GvmProgram {
            name,
            functions: HashMap::new(),
            string_constants: Vec::new(),
            types: Vec::new(),
            native_wrappers: Vec::new(),
            function_counter: 0,
        };
        assert(program@.functions =~= Map::empty());
        assert(program@.strings =~= Seq::empty());
        assert(program@.types =~= Seq::empty());
        let b = BooleanType::info();
        let u = UndefinedType::info();
        let f = FunctionType::info();
        proof {
            reveal_strlit("Boolean");
            reveal_strlit("Undefined");
            reveal_strlit("Function");
            lemma_type_index_none(program@.types, b.name@);
        }
        program.register_type(b);
        proof {
            assert(boolean_name().len() == 7);
            assert(undefined_name().len() == 9);
            assert(function_name().len() == 8);
            assert(program@.types[0].name != u.name@);
            lemma_type_index_none(program@.types, u.name@);
        }
        program.register_type(u);
        proof {
            assert(program@.types[0].name != f.name@);
            assert(program@.types[1].name != f.name@);
            lemma_type_index_none(program@.types, f.name@);
        }
        program.register_type(f);
        program
    }

    /// Inserts a string constant at `index`, shifting later ones.
    pub fn add_string_at(&mut self, s: String, index: usize)
        requires
            index <= old(self)@.strings.len(),
        ensures
            final(self)@ == (ProgramView { strings: old(self)@.strings.insert(index as int, s@), ..old(self)@ }),
            old(self).wf() ==> final(self).wf(),
    {
        self.string_constants.insert(index, s);
        assert(self@.strings =~= old(self)@.strings.insert(index as int, s@));
    }

    fn position(&self, s: &str) -> (r: Option<usize>)
        ensures
            match r {
                Some(k) => k < self@.strings.len() && self@.strings[k as int] == s@ && forall|j: int|
                    0 <= j < k ==> self@.strings[j] != s@,
                None => !self@.strings.contains(s@),
            },
    {
        let target = s.to_string();
        let mut k: usize = 0;
        while k < self.string_constants.len()
            invariant
                k <= self.string_constants.len(),
                target@ == s@,
                forall|j: int| 0 <= j < k ==> self@.strings[j] != s@,
            decreases self.string_constants.len() - k,
        {
            if self.string_constants[k] == target {
                return Some(k);
            }
            k = k + 1;
        }
        proof {
            if self@.strings.contains(s@) {
                let j = choose|j: int| 0 <= j < self@.strings.len() && self@.strings[j] == s@;
                assert(self@.strings[j] != s@);
            }
        }
        None
    }

    /// The index of the string constant `s`, appending it when absent.
    pub fn add_string(&mut self, s: String) -> (r: i32)
        ensures
            old(self)@.strings.contains(s@) ==> final(self)@ == old(self)@ && r == string_position(
                old(self)@.strings,
                s@,
            ) as i32,
            !old(self)@.strings.contains(s@) ==> final(self)@ == (ProgramView {
                strings: old(self)@.strings.push(s@),
                ..old(self)@
            }) && r == old(self)@.strings.len() as i32,
            old(self).wf() ==> final(self).wf(),
    {
        match self.position(s.as_str()) {
            Some(pos) => {
                proof {
                    let ghost i = old(self)@.strings.index_of_first(s@);
                    old(self)@.strings.index_of_first_ensures(s@);
                    assert(i == Some(pos as int)) by {
                        let j = i.unwrap();
                        if j < pos {
                            assert(old(self)@.strings[j] == s@);
                        }
                        if pos < j {
                            assert(old(self)@.strings[pos as int] == s@);
                        }
                    }
                }
                pos as i32
            },
            None => {
                self.string_constants.push(s);
                assert(self@.strings =~= old(self)@.strings.push(s@));
                (self.string_constants.len() - 1) as i32
            },
        }
    }

    /// The index of the string constant `s`, or -1.
    pub fn find_string(&self, s: &str) -> (r: i32)
        ensures
            r == string_position(self@.strings, s@) as i32,
    {
        match self.position(s) {
            Some(pos) => {
                proof {
                    let ghost i = self@.strings.index_of_first(s@);
                    self@.strings.index_of_first_ensures(s@);
                    let j = i.unwrap();
                    if j < pos {
                        assert(self@.strings[j] == s@);
                    }
                    if pos < j {
                        assert(self@.strings[pos as int] == s@);
                    }
                }
                pos as i32
            },
            None => -1,
        }
    }

    /// The string constant at index `i`, if there is one.
    pub fn get_string(&self, i: i32) -> (r: Option<&str>)
        ensures
            match r {
                Some(s) => 0 <= i < self@.strings.len() && s@ == self@.strings[i as int],
                None => !(0 <= i < self@.strings.len()),
            },
    {
        if i < 0 {
            return None;
        }
        let k = i as usize;
        if k < self.string_constants.len() {
            Some(self.string_constants[k].as_str())
        } else {
            None
        }
    }

    /// The program's name.
    pub fn name(&self) -> (r: &str)
        ensures
            r@ == self@.name,
    {
        self.name.as_str()
    }

    /// The function with id 0, where execution starts.
    pub fn get_main(&self) -> (r: Option<&GvmFunction>)
        ensures
            match r {
                Some(f) => self@.functions.contains_key(0) && f@ == self@.functions[0] && (self.wf()
                    ==> f.wf()),
                None => !self@.functions.contains_key(0),
            },
    {
        self.get_function(0)
    }

    /// The function with id `i`, if any.
    pub fn get_function(&self, i: i32) -> (r: Option<&GvmFunction>)
        ensures
            match r {
                Some(f) => self@.functions.contains_key(i) && f@ == self@.functions[i] && (self.wf()
                    ==> f.wf()) && (self.function_wf(i) ==> f.wf()),
                None => !self@.functions.contains_key(i),
            },
    {
        self.functions.get(&i)
    }

    /// The function with id `i`, for changing it in place.
    pub fn get_function_mut(&mut self, i: i32) -> (r: Option<&mut GvmFunction>)
        ensures
            match r {
                Some(f) => old(self)@.functions.contains_key(i) && f@ == old(self)@.functions[i]
                    && (old(self).wf() ==> f.wf()) && final(self)@ == (ProgramView {
                    functions: old(self)@.functions.insert(i, final(f)@),
                    ..old(self)@
                }) && (old(self).wf() && final(f).wf() ==> final(self).wf()),
                None => !old(self)@.functions.contains_key(i) && final(self)@ == old(self)@
                    && final(self).wf() == old(self).wf(),
            },
    {
        proof {
            lemma_function_views_insert();
        }
        map_get_mut(&mut self.functions, i)
    }

    /// The native methods, in registration order.
    pub fn native_wrappers(&self) -> (r: &[N])
        ensures
            r@ == self@.natives,
    {
        self.native_wrappers.as_slice()
    }

    /// The native methods, for changing the list in place.
    pub fn native_wrappers_mut(&mut self) -> (r: &mut Vec<N>)
        ensures
            r@ == old(self)@.natives,
            final(self)@ == (ProgramView { natives: final(r)@, ..old(self)@ }),
            old(self).wf() ==> final(self).wf(),
    {
        &mut self.native_wrappers
    }

    /// Appends a native method and returns its index.
    pub fn add_native(&mut self, method: N) -> (r: i32)
        ensures
            final(self)@ == (ProgramView { natives: old(self)@.natives.push(method), ..old(self)@ }),
            r == old(self)@.natives.len() as i32,
            old(self).wf() ==> final(self).wf(),
    {
        self.native_wrappers.push(method);
        (self.native_wrappers.len() - 1) as i32
    }

    /// Replaces the native methods.
    pub fn set_natives(&mut self, natives: Vec<N>)
        ensures
            final(self)@ == (ProgramView { natives: natives@, ..old(self)@ }),
            old(self).wf() ==> final(self).wf(),
    {
        self.native_wrappers = natives;
    }

    /// The string constants, in index order.
    pub fn string_constants(&self) -> (r: &[String])
        ensures
            r@.map_values(|s: String| s@) == self@.strings,
    {
        self.string_constants.as_slice()
    }

    /// Stores a function under the next id (ids wrap around after
    /// `i32::MAX`) and returns that id.
    pub fn add_function(&mut self, function: GvmFunction) -> (id: i32)
        ensures
            id == old(self)@.counter,
            final(self)@ == (ProgramView {
                functions: old(self)@.functions.insert(id, function@),
                counter: old(self)@.counter.wrapping_add(1),
                ..old(self)@
            }),
            old(self).wf() ==> !old(self)@.functions.contains_key(id),
            old(self).wf() && function.wf() && old(self)@.counter < i32::MAX ==> final(self).wf(),
            id_step(old(self)@, final(self)@, FunctionIdOp::Add),
    {
        let id = self.function_counter;
        self.function_counter = self.function_counter.wrapping_add(1);
        self.functions.insert(id, function);
        assert(self@.functions =~= old(self)@.functions.insert(id, function@));
        id
    }

    /// Stores a function under `id`; later `add_function` ids start above it.
    pub fn add_function_with_id(&mut self, id: i32, function: GvmFunction)
        requires
            id < i32::MAX,
        ensures
            final(self)@ == (ProgramView {
                functions: old(self)@.functions.insert(id, function@),
                counter: if id + 1 > old(self)@.counter {
                    (id + 1) as i32
                } else {
                    old(self)@.counter
                },
                ..old(self)@
            }),
            old(self).wf() && function.wf() ==> final(self).wf(),
            id_step(old(self)@, final(self)@, FunctionIdOp::AddWithId(id)),
    {
        self.functions.insert(id, function);
        let next = id + 1;
        if next > self.function_counter {
            self.function_counter = next;
        }
        assert(self@.functions =~= old(self)@.functions.insert(id, function@));
    }

    /// Removes the function under `id`.
    pub fn delete_function(&mut self, id: i32)
        ensures
            final(self)@ == (ProgramView { functions: old(self)@.functions.remove(id), ..old(self)@ }),
            old(self).wf() ==> final(self).wf(),
            id_step(old(self)@, final(self)@, FunctionIdOp::Delete(id)),
    {
        self.functions.remove(&id);
        assert(self@.functions =~= old(self)@.functions.remove(id));
    }

    /// The functions by id.
    pub fn functions(&self) -> (r: &HashMap<i32, GvmFunction>)
        ensures
            r@.map_values(|f: GvmFunction| f@) == self@.functions,
            forall|id: i32| self.wf() && #[trigger] r@.contains_key(id) ==> r@[id].wf(),
    {
        &self.functions
    }

    /// The function ids in increasing order.
    pub fn function_ids(&self) -> (r: Vec<i32>)
        ensures
            is_sorted_keys(r@, self@.functions.dom()),
    {
        let ghost m0 = self.functions@;
        let ghost all = vstd::std_specs::iter::IteratorSpec::remaining(
            &vstd::std_specs::hash::spec_keys_iter(&self.functions),
        );
        proof {
            vstd::std_specs::hash::axiom_spec_keys_iter(&self.functions);
        }
        let ghost ks: Seq<i32> = all.map_values(|x: &i32| *x);
        proof {
            assert(all.unref() =~= ks);
            assert(ks.to_set() =~= m0.dom());
        }
        let mut r: Vec<i32> = Vec::new();
        for k in it: self.functions.keys()
            invariant
                m0 == self.functions@,
                it.seq() == all,
                ks == all.map_values(|x: &i32| *x),
                ks.to_set() == m0.dom(),
                all.no_duplicates(),
                forall|a: int, b: int| 0 <= a < b < r@.len() ==> r@[a] < r@[b],
                forall|x: i32| r@.contains(x) <==> (exists|j: int| 0 <= j < it.index() && #[trigger] ks[j] == x),
        {
            let key = *k;
            assert(key == ks[it.index() as int]);
            proof {
                if r@.contains(key) {
                    let j = choose|j: int| 0 <= j < it.index() && #[trigger] ks[j] == key;
                    assert(all[j] == all[it.index() as int]);
                }
            }
            let mut pos: usize = 0;
            while pos < r.len() && r[pos] < key
                invariant
                    pos <= r@.len(),
                    forall|j: int| 0 <= j < pos ==> r@[j] < key,
                decreases r@.len() - pos,
            {
                pos = pos + 1;
            }
            let ghost before = r@;
            r.insert(pos, key);
            proof {
                assert(pos < before.len() ==> before[pos as int] > key) by {
                    if pos < before.len() {
                        assert(before[pos as int] != key);
                    }
                }
                assert forall|a: int, b: int| 0 <= a < b < r@.len() implies r@[a] < r@[b] by {
                    if b < pos {
                    } else if b == pos {
                    } else if a < pos {
                        assert(r@[b] == before[b - 1]);
                        if b - 1 > pos {
                            assert(before[pos as int] < before[b - 1]);
                        }
                    } else if a == pos {
                        assert(r@[b] == before[b - 1]);
                        if b - 1 > pos {
                            assert(before[pos as int] < before[b - 1]);
                        }
                    } else {
                        assert(r@[a] == before[a - 1]);
                        assert(r@[b] == before[b - 1]);
                    }
                }
                assert forall|x: i32| r@.contains(x) <==> (exists|j: int| 0 <= j < it.index() + 1 && #[trigger] ks[j] == x) by {
                    if r@.contains(x) {
                        let i = choose|i: int| 0 <= i < r@.len() && r@[i] == x;
                        if i < pos {
                            assert(before[i] == x);
                            assert(before.contains(x));
                        } else if i == pos {
                            assert(ks[it.index() as int] == x);
                        } else {
                            assert(before[i - 1] == x);
                            assert(before.contains(x));
                        }
                    }
                    if exists|j: int| 0 <= j < it.index() + 1 && #[trigger] ks[j] == x {
                        let j = choose|j: int| 0 <= j < it.index() + 1 && #[trigger] ks[j] == x;
                        if j < it.index() {
                            assert(before.contains(x));
                            let i = choose|i: int| 0 <= i < before.len() && before[i] == x;
                            if i < pos {
                                assert(r@[i] == x);
                            } else {
                                assert(r@[i + 1] == x);
                            }
                        } else {
                            assert(r@[pos as int] == x);
                        }
                    }
                }
            }
        }
        proof {
            assert forall|k: i32| m0.dom().contains(k) <==> r@.contains(k) by {
                if m0.dom().contains(k) {
                    assert(ks.to_set().contains(k));
                    let j = choose|j: int| 0 <= j < ks.len() && ks[j] == k;
                }
                if r@.contains(k) {
                    let j = choose|j: int| 0 <= j < ks.len() && #[trigger] ks[j] == k;
                    assert(ks.to_set().contains(ks[j]));
                }
            }
        }
        r
    }

    fn type_position(&self, tname: &str) -> (r: Option<usize>)
        ensures
            match r {
                Some(k) => k < self@.types.len() && self@.types[k as int].name == tname@ && forall|j: int|
                    0 <= j < k ==> self@.types[j].name != tname@,
                None => forall|j: int| 0 <= j < self@.types.len() ==> self@.types[j].name != tname@,
            },
    {
        let target = tname.to_string();
        let mut k: usize = 0;
        while k < self.types.len()
            invariant
                k <= self.types.len(),
                target@ == tname@,
                forall|j: int| 0 <= j < k ==> self@.types[j].name != tname@,
            decreases self.types.len() - k,
        {
            if self.types[k].name == target {
                return Some(k);
            }
            k = k + 1;
        }
        None
    }

    /// The registered type named `tname`, if any.
    pub fn find_type(&self, tname: &str) -> (r: Option<&TypeInfo>)
        ensures
            match r {
                Some(t) => type_index(self@.types, tname@) is Some && type_view(*t)
                    == self@.types[type_index(self@.types, tname@).unwrap()] && t.name@
                    == tname@,
                None => type_index(self@.types, tname@) is None,
            },
    {
        match self.type_position(tname) {
            Some(k) => {
                proof {
                    lemma_type_index_first(self@.types, tname@, k as int);
                }
                Some(&self.types[k])
            },
            None => {
                proof {
                    lemma_type_index_none(self@.types, tname@);
                }
                None
            },
        }
    }

    /// Whether the type named `tname` is registered and supports `op`.
    pub fn supports(&self, tname: &str, op: Operation) -> (r: bool)
        ensures
            r == type_supports(self@.types, tname@, op),
    {
        match self.find_type(tname) {
            Some(t) => t.supports_operation(op),
            None => false,
        }
    }

    /// The registered type named `tname`.
    pub fn get_type(&self, tname: &str) -> (r: &TypeInfo)
        requires
            type_index(self@.types, tname@) is Some,
        ensures
            type_view(*r) == self@.types[type_index(self@.types, tname@).unwrap()],
            r.name@ == tname@,
    {
        self.find_type(tname).unwrap()
    }

    /// Registers a type, replacing any type with the same name.
    pub fn register_type(&mut self, type_: TypeInfo)
        ensures
            final(self)@ == (ProgramView {
                types: match type_index(old(self)@.types, type_.name@) {
                    Some(k) => old(self)@.types.update(k, type_view(type_)),
                    None => old(self)@.types.push(type_view(type_)),
                },
                ..old(self)@
            }),
            old(self).wf() ==> final(self).wf(),
    {
        let ghost t0 = old(self)@.types;
        match self.type_position(type_.name.as_str()) {
            Some(k) => {
                proof {
                    lemma_type_index_first(t0, type_.name@, k as int);
                }
                self.types.set(k, type_);
                assert(self@.types =~= t0.update(k as int, type_view(type_)));
                assert(old(self).wf() ==> unique_type_names(self@.types)) by {
                    if old(self).wf() {
                        assert forall|i: int, j: int|
                            0 <= i < self@.types.len() && 0 <= j < self@.types.len() && i != j
                                implies #[trigger] self@.types[i].name != #[trigger] self@.types[j].name by {
                            if i != k && j != k {
                                assert(t0[i].name != t0[j].name);
                            } else if i == k {
                                assert(t0[k as int].name != t0[j].name);
                            } else {
                                assert(t0[i].name != t0[k as int].name);
                            }
                        }
                    }
                }
            },
            None => {
                proof {
                    lemma_type_index_none(t0, type_.name@);
                }
                self.types.push(type_);
                assert(self@.types =~= t0.push(type_view(type_)));
            },
        }
    }
}

/// A call that hands out function ids: `add_function`, `add_function_with_id`
/// or `delete_function`.
pub enum FunctionIdOp {
    Add,
    AddWithId(i32),
    Delete(i32),
}

/// Whether `q` follows from `p` by `op` as the calls' contracts give it,
/// as far as the counter and the function ids go.
pub open spec fn id_step<N>(p: ProgramView<N>, q: ProgramView<N>, op: FunctionIdOp) -> bool {
    match op {
        FunctionIdOp::Add => q.counter == p.counter.wrapping_add(1) && q.functions.dom() == p.functions.dom().insert(
            p.counter,
        ),
        FunctionIdOp::AddWithId(id) => q.counter == (if id + 1 > p.counter {
            (id + 1) as i32
        } else {
            p.counter
        }) && q.functions.dom() == p.functions.dom().insert(id),
        FunctionIdOp::Delete(id) => q.counter == p.counter && q.functions.dom() == p.functions.dom().remove(id),
    }
}

/// The id a call uses: the one `add_function` returns, or the one given to
/// `add_function_with_id`.
pub open spec fn used_id<N>(p: ProgramView<N>, op: FunctionIdOp) -> Option<int> {
    match op {
        FunctionIdOp::Add => Some(p.counter as int),
        FunctionIdOp::AddWithId(id) => Some(id as int),
        FunctionIdOp::Delete(_) => None,
    }
}

/// Over a sequence of calls on a new program (states `ps`, calls `ops`, no
/// id reaching `i32::MAX`): the next id `add_function` returns is 0 when no
/// id was used yet, else one more than the largest id used so far (at least
/// 0); so every id it returns differs from every id used before it, deleted
/// or not.
pub proof fn lemma_function_id_history<N>(ps: Seq<ProgramView<N>>, ops: Seq<FunctionIdOp>, k: int)
    requires
        ps.len() == ops.len() + 1,
        0 <= k <= ops.len(),
        ps[0].counter == 0,
        forall|i: int| 0 <= i < ops.len() ==> #[trigger] id_step(ps[i], ps[i + 1], ops[i]),
        forall|i: int| 0 <= i < ops.len() ==> (#[trigger] used_id(ps[i], ops[i]) matches Some(u) ==> u < i32::MAX),
    ensures
        ps[k].counter >= 0,
        forall|i: int| 0 <= i < k && #[trigger] used_id(ps[i], ops[i]) is Some ==> used_id(ps[i], ops[i]).unwrap()
            < ps[k].counter,
        ps[k].counter == 0 || exists|i: int|
            0 <= i < k && #[trigger] used_id(ps[i], ops[i]) == Some(ps[k].counter - 1),
    decreases k,
{
    if k > 0 {
        lemma_function_id_history(ps, ops, k - 1);
        let j = k - 1;
        let p = ps[j];
        assert(id_step(ps[j], ps[j + 1], ops[j]));
        assert(j + 1 == k);
        assert(used_id(ps[j], ops[j]) matches Some(u) ==> u < i32::MAX);
        match ops[k - 1] {
            FunctionIdOp::Add => {
                assert(p.counter < i32::MAX);
                assert(ps[k].counter == p.counter + 1);
            },
            FunctionIdOp::AddWithId(id) => {},
            FunctionIdOp::Delete(_) => {
                if p.counter != 0 {
                    let i = choose|i: int| 0 <= i < k - 1 && #[trigger] used_id(ps[i], ops[i]) == Some(p.counter - 1);
                }
            },
        }
        if ps[k].counter == p.counter && p.counter != 0 {
            let i = choose|i: int| 0 <= i < k - 1 && #[trigger] used_id(ps[i], ops[i]) == Some(p.counter - 1);
        }
    }
}

} // verus!

