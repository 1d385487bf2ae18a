//! The instructions that declare classes and work on instances, and the addition.

use vstd::prelude::*;

use crate::graph::{edge, has_kind, lemma_step_reachable, reachable, valid_at, value_ok};
use crate::interp::{agrees, observed};
use crate::machine::Machine;
use crate::object::{ObjBoundMethod, ObjClass, Object, ObjectError, ObjectKind, ObjectView};
use crate::opcode::Opcode;
use crate::semantics::{Signal, goes_on, is};
use crate::value::{Value, ValueError};
use crate::vm::{RuntimeError, VirtualMachine};

verus! {

/// `k` is among the first `i` keys.
pub open spec fn among(keys: Seq<usize>, i: int, k: usize) -> bool {
    exists|j: int| 0 <= j < i && keys[j] == k
}

/// The methods of a subclass once the methods under the first `i` keys of the
/// superclass have been copied into it.
pub open spec fn inherited(
    sub: Map<usize, usize>,
    sup: Map<usize, usize>,
    keys: Seq<usize>,
    i: int,
) -> Map<usize, usize> {
    Map::new(
        |k: usize| sub.contains_key(k) || among(keys, i, k),
        |k: usize|
            if among(keys, i, k) {
                sup[k]
            } else {
                sub[k]
            },
    )
}

impl VirtualMachine {
    /// Add the two values at the top of the stack.
    pub(crate) fn op_add(&mut self) -> (r: Result<Signal, RuntimeError>)
        requires
            old(self).wf(),
        ensures
            final(self).wf(),
            old(self)@.op_add(final(self)@, observed(r)),
    {
        let (lhs, rhs) = self.operands()?;
        match lhs.numbers(&rhs) {
            Ok((a, b)) => {
                let _ = self.stack_pop();
                let _ = self.stack_pop();
                return Ok(Signal::Arithmetic(Opcode::Add, a, b));
            },
            Err(_) => {},
        }
        let pair = match self.as_string(lhs) {
            Some(left) => match self.as_string(rhs) {
                Some(right) => Some((left, right)),
                None => None,
            },
            None => None,
        };
        match pair {
            Some((left, right)) => {
                let tail = self.text(right);
                let text = self.text(left).concat(tail.as_str());
                let h = self.alloc_string(text);
                let ghost mid = self@;
                self.replace_two(Value::Object(h));
                proof {
                    assert(old(self)@.interns(
                        mid,
                        old(self)@.text(left) + old(self)@.text(right),
                        h,
                    ));
                    assert(is(
                        goes_on(mid.replacing_two(Value::Object(h))),
                        self@,
                        observed(Ok::<Signal, RuntimeError>(Signal::Continue)),
                    ));
                }
                Ok(Signal::Continue)
            },
            None => Err(RuntimeError::Value(ValueError::OperandsMustBeNumbersOrStrings)),
        }
    }

    /// Create a class with the name that the constant `k` gives and push it.
    pub(crate) fn op_class(&mut self, k: u8) -> (r: Result<Signal, RuntimeError>)
        requires
            old(self).wf(),
            old(self)@.frames.len() > 0,
        ensures
            final(self).wf(),
            old(self)@.op_class(k, final(self)@, observed(r)),
    {
        let name = self.string_constant(k)?;
        proof {
            self.lemma_wf();
            let m = self@;
            assert(has_kind(m.heap, m.frame().closure, ObjectKind::Closure));
            assert(valid_at(m.heap, m.frame().closure));
            m.lemma_constant_reachable(m.frames.len() - 1, k as int, name);
        }
        let h = self.alloc_object(Object::Class(ObjClass::new(name)));
        let ghost mid = self@;
        let r = self.pushing(Value::Object(h));
        proof {
            let o = ObjectView::Class { name, methods: Map::empty() };
            assert(mid == old(self)@.allocated(o, h));
            assert(is(old(self)@.allocated(o, h).pushing(Value::Object(h)), self@, observed(r)));
        }
        r
    }

    /// Pop the closure at the top of the stack and store it in the class below it as
    /// the method that the constant `k` names.
    pub(crate) fn op_method(&mut self, k: u8) -> (r: Result<Signal, RuntimeError>)
        requires
            old(self).wf(),
            old(self)@.frames.len() > 0,
        ensures
            final(self).wf(),
            agrees(old(self)@.op_method(k), final(self)@, r),
    {
        let name = self.string_constant(k)?;
        let top = self.stack_pop()?;
        let closure = match self.as_closure(top) {
            Some(closure) => closure,
            None => {
                return Err(RuntimeError::Object(ObjectError::InvalidCast));
            },
        };
        let below = self.stack_top(0)?;
        let class = match self.as_class(below) {
            Some(class) => class,
            None => {
                return Err(RuntimeError::Object(ObjectError::InvalidCast));
            },
        };
        self.set_method(class, name, closure);
        Ok(Signal::Continue)
    }

    /// Store the value at the top of the stack as the field that the constant `k` names
    /// of the instance below it; the value takes the place of both.
    pub(crate) fn op_set_property(&mut self, k: u8) -> (r: Result<Signal, RuntimeError>)
        requires
            old(self).wf(),
            old(self)@.frames.len() > 0,
        ensures
            final(self).wf(),
            agrees(old(self)@.op_set_property(k), final(self)@, r),
    {
        let name = self.string_constant(k)?;
        let (below, value) = self.operands()?;
        let instance = match self.as_instance(below) {
            Some(instance) => instance,
            None => {
                let _ = self.stack_pop();
                return Err(RuntimeError::OnlyInstancesHaveFields);
            },
        };
        self.set_field(instance, name, value);
        self.replace_two(value);
        Ok(Signal::Continue)
    }

    /// Allocate the method under `method` bound to `receiver`.
    fn bind(&mut self, receiver: Value, method: usize) -> (h: usize)
        requires
            old(self).wf(),
            value_ok(old(self)@.heap, receiver),
            has_kind(old(self)@.heap, method, ObjectKind::Closure),
            receiver matches Value::Object(g) ==> reachable(
                old(self)@.heap,
                old(self)@.roots(),
                g,
            ),
            reachable(old(self)@.heap, old(self)@.roots(), method),
        ensures
            final(self).wf(),
            old(self)@.fresh(h),
            final(self)@ == old(self)@.allocated(
                ObjectView::BoundMethod(ObjBoundMethod { receiver, method }),
                h,
            ),
            value_ok(final(self)@.heap, Value::Object(h)),
    {
        self.alloc_object(Object::BoundMethod(ObjBoundMethod { receiver, method }))
    }

    /// Replace the instance at the top of the stack by its property that the constant
    /// `k` names.
    pub(crate) fn op_get_property(&mut self, k: u8) -> (r: Result<Signal, RuntimeError>)
        requires
            old(self).wf(),
            old(self)@.frames.len() > 0,
        ensures
            final(self).wf(),
            old(self)@.op_get_property(k, final(self)@, observed(r)),
    {
        let name = self.string_constant(k)?;
        let top = self.stack_top(0)?;
        let instance = match self.as_instance(top) {
            Some(instance) => instance,
            None => {
                return Err(RuntimeError::OnlyInstancesHaveProperties);
            },
        };
        let (class, field) = match self.object(instance) {
            Some(Object::Instance(o)) => (o.class, o.fields.get(name)),
            _ => (0, None),
        };
        let ghost before = self@;
        match field {
            Some(value) => {
                proof {
                    assert(before.heap[instance]->Instance_fields.contains_key(name));
                }
                self.replace_top(value);
                Ok(Signal::Continue)
            },
            None => match self.class_method(class, name) {
                Some(method) => {
                    proof {
                        before.lemma_stack_reachable(before.stack.len() - 1, instance);
                        assert(edge(before.heap, instance, class));
                        lemma_step_reachable(before.heap, before.roots(), instance, class);
                        assert(before.heap[class]->Class_methods.contains_key(name));
                        assert(edge(before.heap, class, method));
                        lemma_step_reachable(before.heap, before.roots(), class, method);
                    }
                    let h = self.bind(top, method);
                    let ghost mid = self@;
                    self.replace_top(Value::Object(h));
                    proof {
                        assert(is(
                            goes_on(mid.replacing_top(Value::Object(h))),
                            self@,
                            observed(Ok::<Signal, RuntimeError>(Signal::Continue)),
                        ));
                    }
                    Ok(Signal::Continue)
                },
                None => Err(RuntimeError::UndefinedProperty(self.text(name))),
            },
        }
    }

    /// Replace the superclass at the top of the stack and the receiver below it by the
    /// method of the superclass that the constant `k` names, bound to the receiver.
    pub(crate) fn op_get_super(&mut self, k: u8) -> (r: Result<Signal, RuntimeError>)
        requires
            old(self).wf(),
            old(self)@.frames.len() > 0,
        ensures
            final(self).wf(),
            old(self)@.op_get_super(k, final(self)@, observed(r)),
    {
        let name = self.string_constant(k)?;
        let top = self.stack_top(0)?;
        let superclass = match self.as_class(top) {
            Some(class) => class,
            None => {
                let _ = self.stack_pop();
                return Err(RuntimeError::Object(ObjectError::InvalidCast));
            },
        };
        let method = match self.class_method(superclass, name) {
            Some(method) => method,
            None => {
                let text = self.text(name);
                let _ = self.stack_pop();
                return Err(RuntimeError::UndefinedProperty(text));
            },
        };
        let receiver = match self.stack_top(1) {
            Ok(receiver) => receiver,
            Err(e) => {
                let _ = self.stack_pop();
                return Err(e);
            },
        };
        let ghost before = self@;
        proof {
            before.lemma_stack_reachable(before.stack.len() - 1, superclass);
            assert(before.heap[superclass]->Class_methods.contains_key(name));
            assert(edge(before.heap, superclass, method));
            lemma_step_reachable(before.heap, before.roots(), superclass, method);
            if let Value::Object(g) = receiver {
                before.lemma_stack_reachable(before.stack.len() - 2, g);
            }
        }
        let h = self.bind(receiver, method);
        let ghost mid = self@;
        self.replace_two(Value::Object(h));
        proof {
            assert(is(
                goes_on(mid.replacing_two(Value::Object(h))),
                self@,
                observed(Ok::<Signal, RuntimeError>(Signal::Continue)),
            ));
        }
        Ok(Signal::Continue)
    }

    /// Copy the methods of the superclass below the top of the stack into the subclass
    /// at the top, and pop the subclass.
    pub(crate) fn op_inherit(&mut self) -> (r: Result<Signal, RuntimeError>)
        requires
            old(self).wf(),
        ensures
            final(self).wf(),
            agrees(old(self)@.op_inherit(), final(self)@, r),
    {
        let (below, top) = self.operands()?;
        let superclass = match self.as_class(below) {
            Some(class) => class,
            None => {
                return Err(RuntimeError::InvalidSuperclass);
            },
        };
        let subclass = match self.as_class(top) {
            Some(class) => class,
            None => {
                return Err(RuntimeError::Object(ObjectError::InvalidCast));
            },
        };
        let ghost before = self@;
        let ghost sup = before.heap[superclass]->Class_methods;
        let ghost sub = before.heap[subclass]->Class_methods;
        let ghost sub_name = before.heap[subclass]->Class_name;
        let keys = match self.object(superclass) {
            Some(Object::Class(c)) => c.methods.keys(),
            _ => Vec::new(),
        };
        let mut methods: Vec<usize> = Vec::new();
        let mut i: usize = 0;
        while i < keys.len()
            invariant
                i <= keys@.len(),
                self.wf(),
                self@ == before,
                *self == *old(self),
                has_kind(before.heap, superclass, ObjectKind::Class),
                sup == before.heap[superclass]->Class_methods,
                forall|k: usize| keys@.contains(k) <==> sup.contains_key(k),
                methods@.len() == i,
                forall|j: int| 0 <= j < i ==> methods@[j] == sup[keys@[j]],
            decreases keys@.len() - i,
        {
            proof {
                assert(keys@.contains(keys@[i as int]));
            }
            let method = match self.class_method(superclass, keys[i]) {
                Some(method) => method,
                None => 0,
            };
            methods.push(method);
            i += 1;
        }
        proof {
            self.lemma_wf();
            assert(inherited(sub, sup, keys@, 0) =~= sub);
            assert(before.heap.insert(
                subclass,
                ObjectView::Class { name: sub_name, methods: sub },
            ) =~= before.heap);
        }
        let mut i: usize = 0;
        while i < keys.len()
            invariant
                i <= keys@.len(),
                self.wf(),
                before.ok(),
                has_kind(before.heap, superclass, ObjectKind::Class),
                has_kind(before.heap, subclass, ObjectKind::Class),
                sup == before.heap[superclass]->Class_methods,
                sub == before.heap[subclass]->Class_methods,
                sub_name == before.heap[subclass]->Class_name,
                forall|k: usize| keys@.contains(k) <==> sup.contains_key(k),
                methods@.len() == keys@.len(),
                forall|j: int| 0 <= j < keys@.len() ==> methods@[j] == sup[keys@[j]],
                self@ == (Machine {
                    heap: before.heap.insert(
                        subclass,
                        ObjectView::Class {
                            name: sub_name,
                            methods: inherited(sub, sup, keys@, i as int),
                        },
                    ),
                    ..before
                }),
            decreases keys@.len() - i,
        {
            let key = keys[i];
            let method = methods[i];
            proof {
                assert(keys@.contains(key));
                assert(valid_at(before.heap, superclass));
                assert(sup.contains_key(key));
                assert(has_kind(before.heap, key, ObjectKind::String));
                assert(has_kind(before.heap, method, ObjectKind::Closure));
            }
            self.set_method(subclass, key, method);
            proof {
                assert(inherited(sub, sup, keys@, i as int).insert(key, method) =~= inherited(
                    sub,
                    sup,
                    keys@,
                    i + 1,
                )) by {
                    assert forall|k: usize|
                        #[trigger] among(keys@, i + 1, k) <==> (k == key || among(
                            keys@,
                            i as int,
                            k,
                        )) by {
                        if among(keys@, i + 1, k) {
                            let j = choose|j: int| 0 <= j < i + 1 && keys@[j] == k;
                            if j < i {
                                assert(keys@[j] == k);
                            }
                        }
                        if k == key {
                            assert(keys@[i as int] == k);
                        }
                    }
                }
                assert(self@.heap =~= before.heap.insert(
                    subclass,
                    ObjectView::Class {
                        name: sub_name,
                        methods: inherited(sub, sup, keys@, i + 1),
                    },
                ));
            }
            i += 1;
        }
        proof {
            assert(inherited(sub, sup, keys@, keys@.len() as int) =~= sub.union_prefer_right(sup)) by {
                assert forall|k: usize|
                    #[trigger] among(keys@, keys@.len() as int, k) <==> sup.contains_key(k) by {
                    if sup.contains_key(k) {
                        assert(keys@.contains(k));
                    }
                    if among(keys@, keys@.len() as int, k) {
                        let j = choose|j: int| 0 <= j < keys@.len() && keys@[j] == k;
                        assert(keys@.contains(keys@[j]));
                    }
                }
            }
        }
        let _ = self.stack_pop();
        Ok(Signal::Continue)
    }
}

} // verus!
