//! The instructions that call, return and close over variables.

use vstd::prelude::*;

use crate::graph::{has_kind, holds_text, valid_at, value_ok};
use crate::interp::{agrees, observed};
use crate::machine::{CallFrame, Machine};
use crate::native::clock_native;
use crate::object::{
    Native, ObjBoundMethod, ObjInstance, ObjNativeFun, Object, ObjectError, ObjectKind,
    ObjectView,
};
use crate::semantics::{Signal, goes_on, is};
use crate::value::Value;
use crate::vm::{RuntimeError, VirtualMachine};

verus! {

impl VirtualMachine {
    /// The method called `name` of the class under `class`, if it has one.
    pub(crate) fn class_method(&self, class: usize, name: usize) -> (found: Option<usize>)
        requires
            self.wf(),
            has_kind(self@.heap, class, ObjectKind::Class),
        ensures
            found == (if self@.heap[class]->Class_methods.contains_key(name) {
                Some(self@.heap[class]->Class_methods[name])
            } else {
                None
            }),
            found matches Some(m) ==> has_kind(self@.heap, m, ObjectKind::Closure) && has_kind(
                self@.heap,
                name,
                ObjectKind::String,
            ),
    {
        match self.object(class) {
            Some(Object::Class(c)) => {
                let found = c.methods.get(name);
                proof {
                    if found is Some {
                        assert(c.methods@.contains_key(name));
                    }
                }
                found
            },
            _ => None,
        }
    }

    /// The class that the value is, if it is one.
    pub(crate) fn as_class(&self, value: Value) -> (class: Option<usize>)
        requires
            self.wf(),
            value_ok(self@.heap, value),
        ensures
            class == self@.as_class(value),
    {
        match value {
            Value::Object(h) => match self.object(h) {
                Some(Object::Class(_)) => Some(h),
                _ => None,
            },
            _ => None,
        }
    }

    /// The instance that the value is, if it is one.
    pub(crate) fn as_instance(&self, value: Value) -> (instance: Option<usize>)
        requires
            self.wf(),
            value_ok(self@.heap, value),
        ensures
            instance == self@.as_instance(value),
    {
        match value {
            Value::Object(h) => match self.object(h) {
                Some(Object::Instance(_)) => Some(h),
                _ => None,
            },
            _ => None,
        }
    }

    /// The closure that the value is, if it is one.
    pub(crate) fn as_closure(&self, value: Value) -> (closure: Option<usize>)
        requires
            self.wf(),
            value_ok(self@.heap, value),
        ensures
            closure == self@.as_closure(value),
    {
        match value {
            Value::Object(h) => match self.object(h) {
                Some(Object::Closure(_)) => Some(h),
                _ => None,
            },
            _ => None,
        }
    }

    /// The string that the value is, if it is one.
    pub(crate) fn as_string(&self, value: Value) -> (string: Option<usize>)
        requires
            self.wf(),
            value_ok(self@.heap, value),
        ensures
            string == self@.as_string(value),
    {
        match value {
            Value::Object(h) => match self.object(h) {
                Some(Object::String(_)) => Some(h),
                _ => None,
            },
            _ => None,
        }
    }

    /// Call the closure under `closure` with the `argc` arguments at the top of the
    /// stack.
    pub(crate) fn call_closure(&mut self, closure: usize, argc: u8) -> (r: Result<
        Signal,
        RuntimeError,
    >)
        requires
            old(self).wf(),
            has_kind(old(self)@.heap, closure, ObjectKind::Closure),
        ensures
            final(self).wf(),
            agrees(old(self)@.call_closure(closure, argc), final(self)@, r),
    {
        let arity = match self.function(closure) {
            Some(f) => f.arity,
            None => 0,
        };
        if argc != arity {
            return Err(RuntimeError::InvalidArgumentsCount { arity, argc });
        }
        let len = self.stack_len();
        if len < argc as usize + 1 {
            return Err(RuntimeError::StackUnderflow);
        }
        proof {
            self.lemma_wf();
        }
        let frame = CallFrame { closure, ip: 0, slot: len - argc as usize - 1 };
        self.frames_push(frame)?;
        Ok(Signal::Continue)
    }

    /// Call the native function under `h` with the `argc` arguments at the top of the
    /// stack.
    pub(crate) fn call_native(&mut self, h: usize, argc: u8) -> (r: Result<Signal, RuntimeError>)
        requires
            old(self).wf(),
            has_kind(old(self)@.heap, h, ObjectKind::NativeFun),
        ensures
            final(self).wf(),
            old(self)@.call_native(
                old(self)@.heap[h]->NativeFun_0,
                argc,
                final(self)@,
                observed(r),
            ),
    {
        let callee = match self.object(h) {
            Some(Object::NativeFun(f)) => *f,
            _ => ObjNativeFun { arity: 0, native: Native::Clock },
        };
        if argc != callee.arity {
            return Err(RuntimeError::InvalidArgumentsCount { arity: callee.arity, argc });
        }
        let len = self.stack_len();
        if len < argc as usize + 1 {
            return Err(RuntimeError::StackUnderflow);
        }
        let first = len - argc as usize;
        let mut args: Vec<Value> = Vec::new();
        let mut i: usize = first;
        while i < len
            invariant
                first <= i <= len,
                len == self@.stack.len(),
                self.wf(),
                *self == *old(self),
            decreases len - i,
        {
            match self.stack_get(i) {
                Ok(value) => args.push(value),
                Err(_) => {},
            }
            i += 1;
        }
        let value = match callee.native {
            Native::Clock => clock_native(args.as_slice()),
        };
        proof {
            self.lemma_wf();
        }
        let _ = self.stack_truncate(first - 1);
        let _ = self.stack_push(value);
        proof {
            assert(is(
                goes_on(
                    old(self)@.with_stack(
                        old(self)@.stack.subrange(0, old(self)@.stack.len() - argc - 1).push(value),
                    ),
                ),
                self@,
                observed(Ok::<Signal, RuntimeError>(Signal::Continue)),
            ));
        }
        Ok(Signal::Continue)
    }

    /// Go on with the call of the class under `class` once its instance has taken its
    /// place on the stack.
    pub(crate) fn initialize(&mut self, class: usize, argc: u8) -> (r: Result<
        Signal,
        RuntimeError,
    >)
        requires
            old(self).wf(),
            has_kind(old(self)@.heap, class, ObjectKind::Class),
        ensures
            final(self).wf(),
            agrees(old(self)@.initialize(class, argc), final(self)@, r),
    {
        let init = match self.lookup("init") {
            Some(name) => self.class_method(class, name),
            None => None,
        };
        proof {
            self.lemma_wf();
            let m = self@;
            let methods = m.heap[class]->Class_methods;
            if exists|k: usize| #[trigger]
                methods.contains_key(k) && m.heap[k] == ObjectView::String("init"@) {
                let k = choose|k: usize| #[trigger]
                    methods.contains_key(k) && m.heap[k] == ObjectView::String("init"@);
                assert(valid_at(m.heap, class));
                assert(has_kind(m.heap, k, ObjectKind::String));
                assert(holds_text(m.heap, k, "init"@));
            }
            if init is Some {
                let name = choose|name: usize| holds_text(m.heap, name, "init"@);
                assert(methods.contains_key(name));
            }
        }
        match init {
            Some(method) => self.call_closure(method, argc),
            None => if argc != 0 {
                Err(RuntimeError::InvalidArgumentsCount { arity: 0, argc })
            } else {
                Ok(Signal::Continue)
            },
        }
    }

    /// Call the class under `class`, which is `argc` places below the top of the stack,
    /// with the `argc` arguments above it.
    pub(crate) fn call_class(&mut self, class: usize, argc: u8) -> (r: Result<Signal, RuntimeError>)
        requires
            old(self).wf(),
            has_kind(old(self)@.heap, class, ObjectKind::Class),
            old(self)@.stack.len() >= argc + 1,
            old(self)@.top(argc as int) == Value::Object(class),
        ensures
            final(self).wf(),
            old(self)@.call_class(class, argc, final(self)@, observed(r)),
    {
        let ghost before = self@;
        proof {
            before.lemma_stack_reachable(before.stack.len() - 1 - argc, class);
        }
        let h = self.alloc_object(Object::Instance(ObjInstance::new(class)));
        let ghost mid = self@;
        proof {
            self.lemma_wf();
            assert(mid.stack[mid.stack.len() - 1 - argc] == Value::Object(class));
            assert(value_ok(mid.heap, mid.stack[mid.stack.len() - 1 - argc]));
        }
        let len = self.stack_len();
        let _ = self.stack_set(len - 1 - argc as usize, Value::Object(h));
        let r = self.initialize(class, argc);
        proof {
            let o = ObjectView::Instance { class, fields: Map::empty() };
            assert(mid == before.allocated(o, h));
            assert(is(
                before.allocated(o, h).placed(argc, Value::Object(h)).initialize(class, argc),
                self@,
                observed(r),
            ));
        }
        r
    }

    /// Call the bound method under `h`, which is `argc` places below the top of the
    /// stack, with the `argc` arguments above it.
    pub(crate) fn call_bound_method(&mut self, h: usize, argc: u8) -> (r: Result<
        Signal,
        RuntimeError,
    >)
        requires
            old(self).wf(),
            has_kind(old(self)@.heap, h, ObjectKind::BoundMethod),
            old(self)@.stack.len() >= argc + 1,
        ensures
            final(self).wf(),
            agrees(
                old(self)@.placed(argc, old(self)@.heap[h]->BoundMethod_0.receiver).call_closure(
                    old(self)@.heap[h]->BoundMethod_0.method,
                    argc,
                ),
                final(self)@,
                r,
            ),
    {
        let bound = match self.object(h) {
            Some(Object::BoundMethod(b)) => *b,
            _ => ObjBoundMethod { receiver: Value::Nil, method: 0 },
        };
        let len = self.stack_len();
        let _ = self.stack_set(len - 1 - argc as usize, bound.receiver);
        self.call_closure(bound.method, argc)
    }

    /// Call the value `argc` places below the top of the stack with the `argc`
    /// arguments above it.
    pub(crate) fn call_value(&mut self, argc: u8) -> (r: Result<Signal, RuntimeError>)
        requires
            old(self).wf(),
        ensures
            final(self).wf(),
            old(self)@.call_value(argc, final(self)@, observed(r)),
    {
        let callee = self.stack_top(argc as usize)?;
        match callee {
            Value::Object(h) => {
                let kind = match self.object(h) {
                    Some(object) => object.kind(),
                    None => ObjectKind::String,
                };
                match kind {
                    ObjectKind::Closure => self.call_closure(h, argc),
                    ObjectKind::NativeFun => self.call_native(h, argc),
                    ObjectKind::Class => self.call_class(h, argc),
                    ObjectKind::BoundMethod => self.call_bound_method(h, argc),
                    _ => Err(RuntimeError::InvalidCallee),
                }
            },
            _ => Err(RuntimeError::InvalidCallee),
        }
    }

    /// Call the method called `name` of the class under `class`.
    pub(crate) fn invoke_from_class(&mut self, class: usize, name: usize, argc: u8) -> (r: Result<
        Signal,
        RuntimeError,
    >)
        requires
            old(self).wf(),
            has_kind(old(self)@.heap, class, ObjectKind::Class),
            has_kind(old(self)@.heap, name, ObjectKind::String),
        ensures
            final(self).wf(),
            agrees(old(self)@.invoke_from_class(class, name, argc), final(self)@, r),
    {
        match self.class_method(class, name) {
            Some(method) => self.call_closure(method, argc),
            None => Err(RuntimeError::UndefinedProperty(self.text(name))),
        }
    }

    /// Invoke the property named by the constant `k` on the receiver `argc` places below
    /// the top of the stack.
    pub(crate) fn op_invoke(&mut self, k: u8, argc: u8) -> (r: Result<Signal, RuntimeError>)
        requires
            old(self).wf(),
            old(self)@.frames.len() > 0,
        ensures
            final(self).wf(),
            old(self)@.op_invoke(k, argc, final(self)@, observed(r)),
    {
        let name = self.string_constant(k)?;
        let receiver = self.stack_top(argc as usize)?;
        let instance = match self.as_instance(receiver) {
            Some(instance) => instance,
            None => {
                return Err(RuntimeError::OnlyInstancesHaveMethods);
            },
        };
        let (class, field) = match self.object(instance) {
            Some(Object::Instance(o)) => (o.class, o.fields.get(name)),
            _ => (0, None),
        };
        match field {
            Some(value) => {
                proof {
                    assert(self@.heap[instance]->Instance_fields.contains_key(name));
                }
                let len = self.stack_len();
                let _ = self.stack_set(len - 1 - argc as usize, value);
                self.call_value(argc)
            },
            None => self.invoke_from_class(class, name, argc),
        }
    }

    /// Pop the superclass off the stack and call its method named by the constant `k`.
    pub(crate) fn op_super_invoke(&mut self, k: u8, argc: u8) -> (r: Result<Signal, RuntimeError>)
        requires
            old(self).wf(),
            old(self)@.frames.len() > 0,
        ensures
            final(self).wf(),
            agrees(old(self)@.op_super_invoke(k, argc), final(self)@, r),
    {
        let name = self.string_constant(k)?;
        let top = self.stack_pop()?;
        let superclass = match self.as_class(top) {
            Some(class) => class,
            None => {
                return Err(RuntimeError::Object(ObjectError::InvalidCast));
            },
        };
        self.invoke_from_class(superclass, name, argc)
    }

    /// Close the upvalue for the variable at the top of the stack and pop the variable.
    pub(crate) fn op_close_upvalue(&mut self) -> (r: Result<Signal, RuntimeError>)
        requires
            old(self).wf(),
        ensures
            final(self).wf(),
            agrees(old(self)@.op_close_upvalue(), final(self)@, r),
    {
        let len = self.stack_len();
        if len == 0 {
            return Err(RuntimeError::StackUnderflow);
        }
        self.close_upvalues(len - 1)?;
        let _ = self.stack_pop();
        Ok(Signal::Continue)
    }

    /// Return from the call in progress.
    pub(crate) fn op_ret(&mut self) -> (r: Result<Signal, RuntimeError>)
        requires
            old(self).wf(),
            old(self)@.frames.len() > 0,
        ensures
            final(self).wf(),
            agrees(old(self)@.op_ret(), final(self)@, r),
    {
        proof {
            self.lemma_wf();
        }
        let ghost before = self@;
        let result = self.stack_pop()?;
        let ghost popped = self@;
        let frame = self.frame()?;
        assert(frame.slot == before.frame().slot);
        self.close_upvalues(frame.slot)?;
        let ghost after = self@;
        assert(after == popped.closed_from(frame.slot));
        let _ = self.frames_pop();
        let ghost returned = self@;
        assert(returned == (Machine { frames: after.frames.drop_last(), ..after }));
        if self.frames_len() == 0 {
            self.stack_pop()?;
            return Ok(Signal::Done);
        }
        self.stack_truncate(frame.slot)?;
        proof {
            self.lemma_wf();
        }
        let _ = self.stack_push(result);
        assert(self@ == returned.with_stack(
            returned.stack.subrange(0, frame.slot as int).push(result),
        ));
        Ok(Signal::Continue)
    }
}

} // verus!
