use vstd::prelude::*;

use crate::chunk::Chunk;
use crate::table::Table;
use crate::value::Value;

verus! {

/// An enumeration of all potential errors that occur when working with objects.
#[derive(Debug, Clone, Copy, PartialEq, Eq, Structural)]
pub enum ObjectError {
    /// The object is not of the kind that the operation needs.
    InvalidCast,
}

impl ObjectError {
    /// The text of each error.
    pub open spec fn message_spec(self) -> Seq<char> {
        "Invalid cast."@
    }

    /// The text shown to the user for this error.
    pub fn message(&self) -> (text: String)
        ensures
            text@ == self.message_spec(),
    {
        String::from_str("Invalid cast.")
    }
}

/// The kinds of heap objects.
#[derive(Debug, Clone, Copy, PartialEq, Eq, Structural)]
pub enum ObjectKind {
    /// An interned string.
    String,
    /// A captured variable.
    Upvalue,
    /// A function together with its captured variables.
    Closure,
    /// A compiled function.
    Fun,
    /// A function built into the virtual machine.
    NativeFun,
    /// A class.
    Class,
    /// An instance of a class.
    Instance,
    /// A method together with its receiver.
    BoundMethod,
}

/// The functions built into the virtual machine.
#[derive(Debug, Clone, Copy, PartialEq, Eq, Structural)]
pub enum Native {
    /// The wall clock, in seconds.
    Clock,
}

/// The content of a heap-allocated native function object.
#[derive(Debug, Clone, Copy, PartialEq, Eq, Structural)]
pub struct ObjNativeFun {
    /// Number of parameters.
    pub arity: u8,
    /// The built-in function to run.
    pub native: Native,
}

/// The content of a heap-allocated upvalue object.
#[derive(Debug, Clone, Copy, PartialEq, Eq, Structural)]
pub enum ObjUpvalue {
    /// An open upvalue references a stack slot and stands for a variable that still
    /// lives on the stack.
    Open(usize),
    /// A closed upvalue owns the value of a variable that has left the stack.
    Closed(Value),
}

/// The content of a heap-allocated bound method object.
#[derive(Debug, Clone, Copy, PartialEq, Eq, Structural)]
pub struct ObjBoundMethod {
    /// The instance that the method was taken from.
    pub receiver: Value,
    /// The closure of the method.
    pub method: usize,
}

/// The content of a heap-allocated closure object.
#[derive(Debug)]
pub struct ObjClosure {
    /// The function of this closure.
    pub fun: usize,
    /// The variables captured by this closure.
    pub upvalues: Vec<usize>,
}

/// The content of a heap-allocated function object.
#[derive(Debug)]
pub struct ObjFun {
    /// The string that names the function; the top-level script has none.
    pub name: Option<usize>,
    /// Number of parameters the function has.
    pub arity: u8,
    /// Number of upvalues captured by the function.
    pub upvalue_count: u8,
    /// The bytecode chunk of this function.
    pub chunk: Chunk,
}

/// The content of a heap-allocated class object.
#[derive(Debug)]
pub struct ObjClass {
    /// The string that names the class.
    pub name: usize,
    /// The closure of each method, under the string that names it.
    pub methods: Table<usize>,
}

/// The content of a heap-allocated instance object.
#[derive(Debug)]
pub struct ObjInstance {
    /// The class of the instance.
    pub class: usize,
    /// The value of each field, under the string that names it.
    pub fields: Table<Value>,
}

/// A heap object.
#[derive(Debug)]
pub enum Object {
    /// A string object.
    String(String),
    /// An upvalue object.
    Upvalue(ObjUpvalue),
    /// A closure object.
    Closure(ObjClosure),
    /// A function object.
    Fun(ObjFun),
    /// A native function object.
    NativeFun(ObjNativeFun),
    /// A class object.
    Class(ObjClass),
    /// A class instance object.
    Instance(ObjInstance),
    /// A bound method object.
    BoundMethod(ObjBoundMethod),
}

/// What a function object holds, as mathematical values.
pub struct FunView {
    /// The string that names the function.
    pub name: Option<usize>,
    /// Number of parameters.
    pub arity: u8,
    /// Number of captured variables.
    pub upvalue_count: u8,
    /// The instruction stream.
    pub code: Seq<u8>,
    /// The constants pool.
    pub constants: Seq<Value>,
    /// The source line of each byte of the instruction stream.
    pub lines: Seq<usize>,
}

/// What a heap object holds, as mathematical values.
pub enum ObjectView {
    /// The text of a string.
    String(Seq<char>),
    /// An upvalue.
    Upvalue(ObjUpvalue),
    /// A closure: its function and its captured variables.
    Closure { fun: usize, upvalues: Seq<usize> },
    /// A function.
    Fun(FunView),
    /// A native function.
    NativeFun(ObjNativeFun),
    /// A class: its name and its methods.
    Class { name: usize, methods: Map<usize, usize> },
    /// An instance: its class and its fields.
    Instance { class: usize, fields: Map<usize, Value> },
    /// A bound method.
    BoundMethod(ObjBoundMethod),
}

/// What the collector charges for an object of each kind.
pub open spec fn size_of_kind(kind: ObjectKind) -> usize {
    match kind {
        ObjectKind::String => 24,
        ObjectKind::Upvalue => 24,
        ObjectKind::Closure => 32,
        ObjectKind::Fun => 88,
        ObjectKind::NativeFun => 16,
        ObjectKind::Class => 40,
        ObjectKind::Instance => 40,
        ObjectKind::BoundMethod => 24,
    }
}

impl ObjectView {
    /// The kind of the object.
    pub open spec fn kind(self) -> ObjectKind {
        match self {
            ObjectView::String(_) => ObjectKind::String,
            ObjectView::Upvalue(_) => ObjectKind::Upvalue,
            ObjectView::Closure { .. } => ObjectKind::Closure,
            ObjectView::Fun(_) => ObjectKind::Fun,
            ObjectView::NativeFun(_) => ObjectKind::NativeFun,
            ObjectView::Class { .. } => ObjectKind::Class,
            ObjectView::Instance { .. } => ObjectKind::Instance,
            ObjectView::BoundMethod(_) => ObjectKind::BoundMethod,
        }
    }

    /// Whether the object holds a reference to the object with handle `h`: the
    /// successors of an object in the heap graph.
    pub open spec fn refers_to(self, h: usize) -> bool {
        match self {
            ObjectView::String(_) => false,
            ObjectView::NativeFun(_) => false,
            ObjectView::Upvalue(u) => u == ObjUpvalue::Closed(Value::Object(h)),
            ObjectView::Closure { fun, upvalues } => h == fun || upvalues.contains(h),
            ObjectView::Fun(f) => f.name == Some(h) || f.constants.contains(Value::Object(h)),
            ObjectView::Class { name, methods } => h == name || methods.contains_key(h)
                || exists|k: usize| #[trigger] methods.contains_key(k) && methods[k] == h,
            ObjectView::Instance { class, fields } => h == class || fields.contains_key(h)
                || exists|k: usize| #[trigger]
                    fields.contains_key(k) && fields[k] == Value::Object(h),
            ObjectView::BoundMethod(b) => b.receiver == Value::Object(h) || h == b.method,
        }
    }
}

impl ObjFun {
    /// What the function holds.
    pub open spec fn view(&self) -> FunView {
        FunView {
            name: self.name,
            arity: self.arity,
            upvalue_count: self.upvalue_count,
            code: self.chunk.code(),
            constants: self.chunk.pool(),
            lines: self.chunk.line_numbers(),
        }
    }

    /// Create a new function object given its name: one without parameters, captured
    /// variables or code.
    pub fn new(name: Option<usize>) -> (fun: Self)
        ensures
            fun.chunk.wf(),
            fun@ == (FunView {
                name,
                arity: 0,
                upvalue_count: 0,
                code: Seq::empty(),
                constants: Seq::empty(),
                lines: Seq::empty(),
            }),
    {
        ObjFun { name, arity: 0, upvalue_count: 0, chunk: Chunk::new() }
    }
}

impl ObjClass {
    /// Create a new class object given its name: one without methods.
    pub fn new(name: usize) -> (class: Self)
        ensures
            class.name == name,
            class.methods@ == Map::<usize, usize>::empty(),
    {
        ObjClass { name, methods: Table::new() }
    }
}

impl ObjInstance {
    /// Create a new instance of the given class: one without fields.
    pub fn new(class: usize) -> (instance: Self)
        ensures
            instance.class == class,
            instance.fields@ == Map::<usize, Value>::empty(),
    {
        ObjInstance { class, fields: Table::new() }
    }
}

/// A sequence contains what was pushed onto it and what it contained before.
pub proof fn lemma_push_contains<T>(s: Seq<T>, x: T, h: T)
    ensures
        s.push(x).contains(h) <==> (s.contains(h) || h == x),
{
    if s.contains(h) {
        let i = choose|i: int| 0 <= i < s.len() && s[i] == h;
        assert(s.push(x)[i] == h);
    }
    if h == x {
        assert(s.push(x)[s.len() as int] == h);
    }
    if s.push(x).contains(h) {
        let i = choose|i: int| 0 <= i < s.push(x).len() && s.push(x)[i] == h;
        if i < s.len() {
            assert(s[i] == h);
        }
    }
}

impl Object {
    /// What the object holds.
    pub open spec fn view(&self) -> ObjectView {
        match self {
            Object::String(s) => ObjectView::String(s@),
            Object::Upvalue(u) => ObjectView::Upvalue(*u),
            Object::Closure(c) => ObjectView::Closure { fun: c.fun, upvalues: c.upvalues@ },
            Object::Fun(f) => ObjectView::Fun(f@),
            Object::NativeFun(f) => ObjectView::NativeFun(*f),
            Object::Class(c) => ObjectView::Class { name: c.name, methods: c.methods@ },
            Object::Instance(i) => ObjectView::Instance { class: i.class, fields: i.fields@ },
            Object::BoundMethod(b) => ObjectView::BoundMethod(*b),
        }
    }

    /// The chunk of a function object is well formed.
    pub open spec fn wf(&self) -> bool {
        self matches Object::Fun(f) ==> f.chunk.wf()
    }

    /// The kind of the object.
    pub fn kind(&self) -> (kind: ObjectKind)
        ensures
            kind == self@.kind(),
    {
        match self {
            Object::String(_) => ObjectKind::String,
            Object::Upvalue(_) => ObjectKind::Upvalue,
            Object::Closure(_) => ObjectKind::Closure,
            Object::Fun(_) => ObjectKind::Fun,
            Object::NativeFun(_) => ObjectKind::NativeFun,
            Object::Class(_) => ObjectKind::Class,
            Object::Instance(_) => ObjectKind::Instance,
            Object::BoundMethod(_) => ObjectKind::BoundMethod,
        }
    }

    /// Cast the object as an upvalue.
    pub fn as_upvalue(&self) -> (r: Result<&ObjUpvalue, ObjectError>)
        ensures
            match r {
                Ok(u) => *self == Object::Upvalue(*u),
                Err(e) => !(self is Upvalue) && e == ObjectError::InvalidCast,
            },
    {
        if let Object::Upvalue(u) = self {
            Ok(u)
        } else {
            Err(ObjectError::InvalidCast)
        }
    }

    /// Cast the object as a closure.
    pub fn as_closure(&self) -> (r: Result<&ObjClosure, ObjectError>)
        ensures
            match r {
                Ok(c) => *self == Object::Closure(*c),
                Err(e) => !(self is Closure) && e == ObjectError::InvalidCast,
            },
    {
        if let Object::Closure(c) = self {
            Ok(c)
        } else {
            Err(ObjectError::InvalidCast)
        }
    }

    /// Cast the object as a function.
    pub fn as_fun(&self) -> (r: Result<&ObjFun, ObjectError>)
        ensures
            match r {
                Ok(f) => *self == Object::Fun(*f),
                Err(e) => !(self is Fun) && e == ObjectError::InvalidCast,
            },
    {
        if let Object::Fun(f) = self {
            Ok(f)
        } else {
            Err(ObjectError::InvalidCast)
        }
    }

    /// What the collector charges for the object.
    pub fn mem_size(&self) -> (size: usize)
        ensures
            size == size_of_kind(self@.kind()),
    {
        match self {
            Object::String(_) => 24,
            Object::Upvalue(_) => 24,
            Object::Closure(_) => 32,
            Object::Fun(_) => 88,
            Object::NativeFun(_) => 16,
            Object::Class(_) => 40,
            Object::Instance(_) => 40,
            Object::BoundMethod(_) => 24,
        }
    }

    /// The handles of all objects that this object refers to directly. A handle may
    /// occur more than once.
    pub fn references(&self) -> (out: Vec<usize>)
        ensures
            forall|h: usize| out@.contains(h) <==> self@.refers_to(h),
    {
        let mut out: Vec<usize> = Vec::new();
        match self {
            Object::String(_) => {},
            Object::NativeFun(_) => {},
            Object::Upvalue(u) => {
                if let ObjUpvalue::Closed(Value::Object(h)) = u {
                    out.push(*h);
                    assert(out@[0] == *h);
                }
            },
            Object::BoundMethod(b) => {
                out.push(b.method);
                assert(out@[0] == b.method);
                if let Value::Object(h) = b.receiver {
                    out.push(h);
                    assert(out@[0] == b.method);
                    assert(out@[1] == h);
                }
            },
            Object::Closure(c) => {
                out.push(c.fun);
                assert(out@[0] == c.fun);
                let mut i: usize = 0;
                while i < c.upvalues.len()
                    invariant
                        i <= c.upvalues@.len(),
                        forall|h: usize|
                            out@.contains(h) <==> (h == c.fun || exists|j: int|
                                0 <= j < i && c.upvalues@[j] == h),
                    decreases c.upvalues@.len() - i,
                {
                    let u = c.upvalues[i];
                    let ghost before = out@;
                    out.push(u);
                    proof {
                        assert forall|h: usize|
                            out@.contains(h) <==> (h == c.fun || exists|j: int|
                                0 <= j < i + 1 && c.upvalues@[j] == h) by {
                            lemma_push_contains(before, u, h);
                            if exists|j: int| 0 <= j < i + 1 && c.upvalues@[j] == h {
                                let j = choose|j: int| 0 <= j < i + 1 && c.upvalues@[j] == h;
                                if j < i {
                                    assert(before.contains(h));
                                }
                            }
                        }
                    }
                    i += 1;
                }
            },
            Object::Fun(f) => {
                if let Some(name) = f.name {
                    out.push(name);
                    assert(out@[0] == name);
                }
                let n = f.chunk.constant_count();
                let mut i: usize = 0;
                while i < n
                    invariant
                        i <= n,
                        n == f.chunk.pool().len(),
                        forall|h: usize|
                            out@.contains(h) <==> (f.name == Some(h) || exists|j: int|
                                0 <= j < i && f.chunk.pool()[j] == Value::Object(h)),
                    decreases n - i,
                {
                    let ghost before = out@;
                    if let Some(Value::Object(r)) = f.chunk.constant_at(i) {
                        out.push(r);
                        proof {
                            assert forall|h: usize|
                                out@.contains(h) <==> (f.name == Some(h) || exists|j: int|
                                    0 <= j < i + 1 && f.chunk.pool()[j] == Value::Object(
                                        h,
                                    )) by {
                                lemma_push_contains(before, r, h);
                                if exists|j: int|
                                    0 <= j < i + 1 && f.chunk.pool()[j] == Value::Object(h) {
                                    let j = choose|j: int|
                                        0 <= j < i + 1 && f.chunk.pool()[j] == Value::Object(
                                            h,
                                        );
                                    if j < i {
                                        assert(before.contains(h));
                                    }
                                }
                            }
                        }
                    } else {
                        proof {
                            assert forall|h: usize|
                                out@.contains(h) <==> (f.name == Some(h) || exists|j: int|
                                    0 <= j < i + 1 && f.chunk.pool()[j] == Value::Object(
                                        h,
                                    )) by {
                                if exists|j: int|
                                    0 <= j < i + 1 && f.chunk.pool()[j] == Value::Object(h) {
                                    let j = choose|j: int|
                                        0 <= j < i + 1 && f.chunk.pool()[j] == Value::Object(
                                            h,
                                        );
                                    assert(j < i);
                                }
                            }
                        }
                    }
                    i += 1;
                }
            },
            Object::Class(c) => {
                out.push(c.name);
                assert(out@[0] == c.name);
                let keys = c.methods.keys();
                let mut i: usize = 0;
                while i < keys.len()
                    invariant
                        i <= keys@.len(),
                        forall|k: usize| keys@.contains(k) <==> c.methods@.contains_key(k),
                        forall|h: usize|
                            out@.contains(h) <==> (h == c.name || exists|j: int|
                                0 <= j < i && (keys@[j] == h || c.methods@[keys@[j]] == h)),
                    decreases keys@.len() - i,
                {
                    let k = keys[i];
                    let ghost before = out@;
                    assert(keys@.contains(k));
                    out.push(k);
                    let ghost middle = out@;
                    let ghost mut target: usize = k;
                    if let Some(m) = c.methods.get(k) {
                        out.push(m);
                        proof {
                            target = m;
                        }
                    }
                    proof {
                        assert(target == k || target == c.methods@[k]);
                        assert forall|h: usize|
                            out@.contains(h) <==> (h == c.name || exists|j: int|
                                0 <= j < i + 1 && (keys@[j] == h || c.methods@[keys@[j]]
                                    == h)) by {
                            lemma_push_contains(before, k, h);
                            lemma_push_contains(middle, c.methods@[k], h);
                            if exists|j: int|
                                0 <= j < i + 1 && (keys@[j] == h || c.methods@[keys@[j]] == h) {
                                let j = choose|j: int|
                                    0 <= j < i + 1 && (keys@[j] == h || c.methods@[keys@[j]]
                                        == h);
                                if j < i {
                                    assert(before.contains(h));
                                }
                            }
                        }
                    }
                    i += 1;
                }
                proof {
                    assert forall|h: usize| out@.contains(h) <==> self@.refers_to(h) by {
                        if out@.contains(h) && h != c.name {
                            let j = choose|j: int|
                                0 <= j < i && (keys@[j] == h || c.methods@[keys@[j]] == h);
                            assert(keys@.contains(keys@[j]));
                            assert(c.methods@.contains_key(keys@[j]));
                        }
                        if c.methods@.contains_key(h) {
                            assert(keys@.contains(h));
                        }
                        if exists|k: usize| #[trigger]
                            c.methods@.contains_key(k) && c.methods@[k] == h {
                            let k = choose|k: usize| #[trigger]
                                c.methods@.contains_key(k) && c.methods@[k] == h;
                            assert(keys@.contains(k));
                        }
                    }
                }
            },
            Object::Instance(o) => {
                out.push(o.class);
                assert(out@[0] == o.class);
                let keys = o.fields.keys();
                let mut i: usize = 0;
                while i < keys.len()
                    invariant
                        i <= keys@.len(),
                        forall|k: usize| keys@.contains(k) <==> o.fields@.contains_key(k),
                        forall|h: usize|
                            out@.contains(h) <==> (h == o.class || exists|j: int|
                                0 <= j < i && (keys@[j] == h || o.fields@[keys@[j]]
                                    == Value::Object(h))),
                    decreases keys@.len() - i,
                {
                    let k = keys[i];
                    let ghost before = out@;
                    assert(keys@.contains(k));
                    out.push(k);
                    let ghost middle = out@;
                    if let Some(Value::Object(r)) = o.fields.get(k) {
                        out.push(r);
                        proof {
                            assert forall|h: usize|
                                out@.contains(h) <==> (h == o.class || exists|j: int|
                                    0 <= j < i + 1 && (keys@[j] == h || o.fields@[keys@[j]]
                                        == Value::Object(h))) by {
                                lemma_push_contains(before, k, h);
                                lemma_push_contains(middle, r, h);
                                if exists|j: int|
                                    0 <= j < i + 1 && (keys@[j] == h || o.fields@[keys@[j]]
                                        == Value::Object(h)) {
                                    let j = choose|j: int|
                                        0 <= j < i + 1 && (keys@[j] == h || o.fields@[keys@[j]]
                                            == Value::Object(h));
                                    if j < i {
                                        assert(before.contains(h));
                                    }
                                }
                            }
                        }
                    } else {
                        proof {
                            assert forall|h: usize|
                                out@.contains(h) <==> (h == o.class || exists|j: int|
                                    0 <= j < i + 1 && (keys@[j] == h || o.fields@[keys@[j]]
                                        == Value::Object(h))) by {
                                lemma_push_contains(before, k, h);
                                if exists|j: int|
                                    0 <= j < i + 1 && (keys@[j] == h || o.fields@[keys@[j]]
                                        == Value::Object(h)) {
                                    let j = choose|j: int|
                                        0 <= j < i + 1 && (keys@[j] == h || o.fields@[keys@[j]]
                                            == Value::Object(h));
                                    if j < i {
                                        assert(before.contains(h));
                                    }
                                }
                            }
                        }
                    }
                    i += 1;
                }
                proof {
                    assert forall|h: usize| out@.contains(h) <==> self@.refers_to(h) by {
                        if out@.contains(h) && h != o.class {
                            let j = choose|j: int|
                                0 <= j < i && (keys@[j] == h || o.fields@[keys@[j]]
                                    == Value::Object(h));
                            assert(keys@.contains(keys@[j]));
                            assert(o.fields@.contains_key(keys@[j]));
                        }
                        if o.fields@.contains_key(h) {
                            assert(keys@.contains(h));
                        }
                        if exists|k: usize| #[trigger]
                            o.fields@.contains_key(k) && o.fields@[k] == Value::Object(h) {
                            let k = choose|k: usize| #[trigger]
                                o.fields@.contains_key(k) && o.fields@[k] == Value::Object(h);
                            assert(keys@.contains(k));
                        }
                    }
                }
            },
        }
        out
    }
}

} // verus!
