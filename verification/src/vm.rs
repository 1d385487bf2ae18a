//! The virtual machine: its state, what holds of it between instructions, and the
//! operations on its stacks, its globals and its heap that the instructions are made of.

use vstd::prelude::*;

use crate::graph::{
    closed, edge, has_kind, holds_text, lemma_heap_size_split, lemma_object_ok_restrict,
    object_ok, reachable, reachable_set, total_size, valid_at, value_ok,
};
use crate::heap::Heap;
use crate::machine::{CallFrame, Fault, Machine, VM_FRAMES_MAX, VM_STACK_SIZE};
use crate::object::{
    Native, ObjFun, ObjNativeFun, ObjUpvalue, Object, ObjectError, ObjectKind, ObjectView,
    lemma_push_contains,
};
use crate::heap::INITIAL_GC_THRESHOLD;
use crate::stack::{Stack, StackIter};
use crate::table::Table;
use crate::value::{Value, ValueError};

verus! {

/// An enumeration of potential errors that occur when running the bytecode.
#[derive(Debug)]
pub enum RuntimeError {
    /// Can't parse a byte as an opcode.
    InvalidOpcode(u8),
    /// Can't perform some operations given the current value(s).
    Value(ValueError),
    /// Can't perform some operations given the current object(s).
    Object(ObjectError),
    /// Overflow the virtual machine's stack.
    StackOverflow,
    /// Can't access a property.
    OnlyInstancesHaveProperties,
    /// Can't access a field.
    OnlyInstancesHaveFields,
    /// Can't find a variable in scope.
    UndefinedVariable(String),
    /// Can't find a property in the instance.
    UndefinedProperty(String),
    /// Can't inherit from values that are no classes.
    InvalidSuperclass,
    /// Can't call values that are neither functions nor classes.
    InvalidCallee,
    /// Can't invoke a method on values that are no instances.
    OnlyInstancesHaveMethods,
    /// Called a function or a method with an incorrect number of arguments.
    InvalidArgumentsCount {
        /// The arity of the function.
        arity: u8,
        /// The number of arguments given.
        argc: u8,
    },
    /// An instruction needs more operands than the stack holds, or names a stack slot
    /// that is not in use.
    StackUnderflow,
    /// The instruction stream ends in the middle of an instruction, or an instruction
    /// names a constant, an upvalue or a jump target that its function does not have.
    MalformedChunk,
}

impl RuntimeError {
    /// The error with the text that it carries as a mathematical value.
    pub open spec fn view(&self) -> Fault {
        match self {
            RuntimeError::InvalidOpcode(b) => Fault::InvalidOpcode(*b),
            RuntimeError::Value(e) => Fault::Value(*e),
            RuntimeError::Object(e) => Fault::Object(*e),
            RuntimeError::StackOverflow => Fault::StackOverflow,
            RuntimeError::OnlyInstancesHaveProperties => Fault::OnlyInstancesHaveProperties,
            RuntimeError::OnlyInstancesHaveFields => Fault::OnlyInstancesHaveFields,
            RuntimeError::UndefinedVariable(name) => Fault::UndefinedVariable(name@),
            RuntimeError::UndefinedProperty(name) => Fault::UndefinedProperty(name@),
            RuntimeError::InvalidSuperclass => Fault::InvalidSuperclass,
            RuntimeError::InvalidCallee => Fault::InvalidCallee,
            RuntimeError::OnlyInstancesHaveMethods => Fault::OnlyInstancesHaveMethods,
            RuntimeError::InvalidArgumentsCount { arity, argc } => Fault::InvalidArgumentsCount {
                arity: *arity,
                argc: *argc,
            },
            RuntimeError::StackUnderflow => Fault::StackUnderflow,
            RuntimeError::MalformedChunk => Fault::MalformedChunk,
        }
    }
}

/// A bytecode virtual machine.
///
/// Its view is its state as mathematical values.
pub struct VirtualMachine {
    stack: Stack<Value, VM_STACK_SIZE>,
    frames: Stack<CallFrame, VM_FRAMES_MAX>,
    open_upvalues: Vec<usize>,
    globals: Table<Value>,
    grey_objects: Vec<usize>,
    heap: Heap,
}

impl VirtualMachine {
    /// The state of the machine.
    pub closed spec fn view(&self) -> Machine {
        Machine {
            stack: self.stack@,
            frames: self.frames@,
            open_upvalues: self.open_upvalues@,
            globals: self.globals@,
            heap: self.heap@,
            threshold: self.heap.threshold(),
        }
    }

    /// The objects that carry the mark of the collector.
    pub closed spec fn marked(&self) -> Set<usize> {
        self.heap.marked()
    }

    /// The worklist of the collector: the marked objects that it has yet to scan.
    pub closed spec fn worklist(&self) -> Seq<usize> {
        self.grey_objects@
    }

    /// What holds of the machine between instructions: its heap is in order and between
    /// collections, the worklist of the collector is empty, and its state is in order.
    pub closed spec fn wf(&self) -> bool {
        &&& self.heap.wf()
        &&& self.stack.wf()
        &&& self.frames.wf()
        &&& self.grey_objects@.len() == 0
        &&& self@.ok()
    }

    /// A machine that is well formed is in a state that is in order, and the collector
    /// has left nothing behind in it: no object carries a mark, and the worklist is
    /// empty.
    pub proof fn lemma_wf(&self)
        requires
            self.wf(),
        ensures
            self@.ok(),
            self.marked() == Set::<usize>::empty(),
            self.worklist() == Seq::<usize>::empty(),
    {
        self.heap.lemma_wf();
        assert(self.grey_objects@ =~= Seq::<usize>::empty());
    }

    /// The bytes that the collector counts as allocated.
    pub fn bytes_allocated(&self) -> (n: usize)
        requires
            self.wf(),
        ensures
            n == self@.bytes(),
    {
        proof {
            self.heap.lemma_wf();
            self.heap.lemma_inv();
        }
        self.heap.size()
    }

    /// The number of allocated bytes above which a collection is due.
    pub fn next_gc(&self) -> (n: usize)
        ensures
            n == self@.threshold,
    {
        self.heap.next_gc()
    }

    /// The number of values on the operand stack.
    pub fn stack_len(&self) -> (n: usize)
        ensures
            n == self@.stack.len(),
    {
        self.stack.len()
    }

    /// The number of calls in progress.
    pub fn frames_len(&self) -> (n: usize)
        ensures
            n == self@.frames.len(),
    {
        self.frames.len()
    }

    /// Push a value onto the operand stack.
    pub(crate) fn stack_push(&mut self, value: Value) -> (r: Result<(), RuntimeError>)
        requires
            old(self).wf(),
            value_ok(old(self)@.heap, value),
        ensures
            final(self).wf(),
            match r {
                Ok(()) => old(self)@.stack.len() < VM_STACK_SIZE && final(self)@ == (Machine {
                    stack: old(self)@.stack.push(value),
                    ..old(self)@
                }),
                Err(e) => e@ == Fault::StackOverflow && old(self)@.stack.len() >= VM_STACK_SIZE
                    && final(self)@ == old(self)@,
            },
    {
        match self.stack.push(value) {
            Some(_) => Ok(()),
            None => Err(RuntimeError::StackOverflow),
        }
    }

    /// Pop the value at the top of the operand stack.
    pub(crate) fn stack_pop(&mut self) -> (r: Result<Value, RuntimeError>)
        requires
            old(self).wf(),
        ensures
            final(self).wf(),
            match r {
                Ok(value) => old(self)@.stack.len() > 0 && value == old(self)@.stack.last()
                    && value_ok(final(self)@.heap, value) && final(self)@ == (Machine {
                    stack: old(self)@.stack.drop_last(),
                    ..old(self)@
                }),
                Err(e) => e@ == Fault::StackUnderflow && old(self)@.stack.len() == 0 && final(self)@ == old(self)@,
            },
    {
        match self.stack.pop() {
            Some(value) => Ok(value),
            None => Err(RuntimeError::StackUnderflow),
        }
    }

    /// The value `n` places below the top of the operand stack.
    pub(crate) fn stack_top(&self, n: usize) -> (r: Result<Value, RuntimeError>)
        requires
            self.wf(),
        ensures
            match r {
                Ok(value) => n < self@.stack.len() && value == self@.stack[self@.stack.len() - 1
                    - n] && value_ok(self@.heap, value),
                Err(e) => e@ == Fault::StackUnderflow && n >= self@.stack.len(),
            },
    {
        let len = self.stack.len();
        if n < len {
            Ok(*self.stack.index(len - 1 - n))
        } else {
            Err(RuntimeError::StackUnderflow)
        }
    }

    /// The value at `index` of the operand stack, counted from the bottom.
    pub(crate) fn stack_get(&self, index: usize) -> (r: Result<Value, RuntimeError>)
        requires
            self.wf(),
        ensures
            match r {
                Ok(value) => index < self@.stack.len() && value == self@.stack[index as int]
                    && value_ok(self@.heap, value),
                Err(e) => e@ == Fault::StackUnderflow && index >= self@.stack.len(),
            },
    {
        if index < self.stack.len() {
            Ok(*self.stack.index(index))
        } else {
            Err(RuntimeError::StackUnderflow)
        }
    }

    /// Overwrite the value at `index` of the operand stack, counted from the bottom.
    pub(crate) fn stack_set(&mut self, index: usize, value: Value) -> (r: Result<
        (),
        RuntimeError,
    >)
        requires
            old(self).wf(),
            value_ok(old(self)@.heap, value),
        ensures
            final(self).wf(),
            match r {
                Ok(()) => index < old(self)@.stack.len() && final(self)@ == (Machine {
                    stack: old(self)@.stack.update(index as int, value),
                    ..old(self)@
                }),
                Err(e) => e@ == Fault::StackUnderflow && index >= old(self)@.stack.len() && final(self)@ == old(self)@,
            },
    {
        if index < self.stack.len() {
            self.stack.set(index, value);
            Ok(())
        } else {
            Err(RuntimeError::StackUnderflow)
        }
    }

    /// Drop the values at `len` and above from the operand stack.
    pub(crate) fn stack_truncate(&mut self, len: usize) -> (r: Result<(), RuntimeError>)
        requires
            old(self).wf(),
        ensures
            final(self).wf(),
            match r {
                Ok(()) => len <= old(self)@.stack.len() && final(self)@ == (Machine {
                    stack: old(self)@.stack.subrange(0, len as int),
                    ..old(self)@
                }),
                Err(e) => e@ == Fault::StackUnderflow && len > old(self)@.stack.len() && final(self)@ == old(self)@,
            },
    {
        if len <= self.stack.len() {
            self.stack.truncate(len);
            Ok(())
        } else {
            Err(RuntimeError::StackUnderflow)
        }
    }

    /// The innermost call in progress.
    pub(crate) fn frame(&self) -> (r: Result<CallFrame, RuntimeError>)
        requires
            self.wf(),
        ensures
            match r {
                Ok(frame) => self@.frames.len() > 0 && frame == self@.frames.last() && has_kind(
                    self@.heap,
                    frame.closure,
                    ObjectKind::Closure,
                ),
                Err(e) => e@ == Fault::MalformedChunk && self@.frames.len() == 0,
            },
    {
        match self.frames.top() {
            Some(frame) => {
                assert(self@.frames[self@.frames.len() - 1] == *frame);
                Ok(*frame)
            },
            None => Err(RuntimeError::MalformedChunk),
        }
    }

    /// Set the instruction pointer of the innermost call in progress.
    pub(crate) fn set_ip(&mut self, ip: usize)
        requires
            old(self).wf(),
            old(self)@.frames.len() > 0,
        ensures
            final(self).wf(),
            final(self)@ == (Machine {
                frames: old(self)@.frames.update(
                    old(self)@.frames.len() - 1,
                    CallFrame { ip, ..old(self)@.frames.last() },
                ),
                ..old(self)@
            }),
    {
        let frame = *self.frames.top().unwrap();
        let n = self.frames.len();
        proof {
            assert(old(self)@.frames[n - 1] == frame);
        }
        self.frames.set(n - 1, CallFrame { ip, ..frame });
        proof {
            let after = self@;
            assert forall|i: int| 0 <= i < after.frames.len() implies has_kind(
                after.heap,
                (#[trigger] after.frames[i]).closure,
                ObjectKind::Closure,
            ) by {
                assert(has_kind(old(self)@.heap, old(self)@.frames[i].closure, ObjectKind::Closure));
            }
        }
    }

    /// Start a call: push a frame onto the frame stack.
    pub(crate) fn frames_push(&mut self, frame: CallFrame) -> (r: Result<(), RuntimeError>)
        requires
            old(self).wf(),
            has_kind(old(self)@.heap, frame.closure, ObjectKind::Closure),
            frame.slot <= VM_STACK_SIZE,
        ensures
            final(self).wf(),
            match r {
                Ok(()) => old(self)@.frames.len() < VM_FRAMES_MAX && final(self)@ == (Machine {
                    frames: old(self)@.frames.push(frame),
                    ..old(self)@
                }),
                Err(e) => e@ == Fault::StackOverflow && old(self)@.frames.len() >= VM_FRAMES_MAX
                    && final(self)@ == old(self)@,
            },
    {
        match self.frames.push(frame) {
            Some(_) => {
                proof {
                    let after = self@;
                    assert forall|i: int| 0 <= i < after.frames.len() implies has_kind(
                        after.heap,
                        (#[trigger] after.frames[i]).closure,
                        ObjectKind::Closure,
                    ) by {
                        if i < old(self)@.frames.len() {
                            assert(has_kind(
                                old(self)@.heap,
                                old(self)@.frames[i].closure,
                                ObjectKind::Closure,
                            ));
                        }
                    }
                }
                Ok(())
            },
            None => Err(RuntimeError::StackOverflow),
        }
    }

    /// End a call: pop the innermost frame off the frame stack.
    pub(crate) fn frames_pop(&mut self) -> (r: Result<CallFrame, RuntimeError>)
        requires
            old(self).wf(),
        ensures
            final(self).wf(),
            match r {
                Ok(frame) => old(self)@.frames.len() > 0 && frame == old(self)@.frames.last()
                    && final(self)@ == (Machine {
                    frames: old(self)@.frames.drop_last(),
                    ..old(self)@
                }),
                Err(e) => e@ == Fault::MalformedChunk && old(self)@.frames.len() == 0 && final(self)@ == old(self)@,
            },
    {
        match self.frames.pop() {
            Some(frame) => {
                proof {
                    let after = self@;
                    assert forall|i: int| 0 <= i < after.frames.len() implies has_kind(
                        after.heap,
                        (#[trigger] after.frames[i]).closure,
                        ObjectKind::Closure,
                    ) by {
                        assert(has_kind(
                            old(self)@.heap,
                            old(self)@.frames[i].closure,
                            ObjectKind::Closure,
                        ));
                    }
                }
                Ok(frame)
            },
            None => Err(RuntimeError::MalformedChunk),
        }
    }

    /// The value of the global variable named by the string under `name`, if there is
    /// such a variable.
    pub(crate) fn global_get(&self, name: usize) -> (value: Option<Value>)
        requires
            self.wf(),
        ensures
            value == (if self@.globals.contains_key(name) {
                Some(self@.globals[name])
            } else {
                None
            }),
            value matches Some(v) ==> value_ok(self@.heap, v),
    {
        proof {
            if self@.globals.contains_key(name) {
                assert(value_ok(self@.heap, self@.globals[name]));
            }
        }
        self.globals.get(name)
    }

    /// Set the global variable named by the string under `name`.
    pub(crate) fn global_set(&mut self, name: usize, value: Value)
        requires
            old(self).wf(),
            has_kind(old(self)@.heap, name, ObjectKind::String),
            value_ok(old(self)@.heap, value),
        ensures
            final(self).wf(),
            final(self)@ == (Machine {
                globals: old(self)@.globals.insert(name, value),
                ..old(self)@
            }),
    {
        self.globals.insert(name, value);
        proof {
            let after = self@;
            assert forall|k: usize| #[trigger] after.globals.contains_key(k) implies has_kind(
                after.heap,
                k,
                ObjectKind::String,
            ) && value_ok(after.heap, after.globals[k]) by {
                if k != name {
                    assert(old(self)@.globals.contains_key(k));
                }
            }
        }
    }

    /// The object under handle `h`, if the heap holds one.
    pub(crate) fn object(&self, h: usize) -> (object: Option<&Object>)
        requires
            self.wf(),
        ensures
            match object {
                Some(o) => self@.heap.contains_key(h) && o@ == self@.heap[h] && o.wf()
                    && object_ok(self@.heap, o@),
                None => !self@.heap.contains_key(h),
            },
    {
        proof {
            self.heap.lemma_wf();
            if self@.heap.contains_key(h) {
                assert(valid_at(self@.heap, h));
            }
        }
        self.heap.get(h)
    }
}

impl VirtualMachine {
    /// The worklist of the collector holds marked objects only, and all of them.
    spec fn grey_ok(&self) -> bool {
        &&& forall|i: int|
            0 <= i < self.grey_objects@.len() ==> self.heap.marked().contains(
                #[trigger] self.grey_objects@[i],
            )
        &&& forall|h: usize| #[trigger]
            self.heap.marked().contains(h) ==> self.grey_objects@.contains(h)
    }

    /// Mark one root and put it on the worklist.
    fn mark_root(&mut self, h: usize)
        requires
            old(self).heap.inv(),
            old(self).heap@.contains_key(h),
            old(self).grey_ok(),
        ensures
            final(self).heap.inv(),
            final(self).grey_ok(),
            final(self)@ == old(self)@,
            final(self).stack == old(self).stack,
            final(self).frames == old(self).frames,
            final(self).open_upvalues == old(self).open_upvalues,
            final(self).globals == old(self).globals,
            final(self).heap.marked() == old(self).heap.marked().insert(h),
    {
        let ghost grey = self.grey_objects@;
        self.heap.mark(h, &mut self.grey_objects);
        proof {
            let after = self.grey_objects@;
            if after != grey {
                assert forall|g: usize| #[trigger] self.heap.marked().contains(g) implies after.contains(
                    g,
                ) by {
                    lemma_push_contains(grey, h, g);
                }
            }
        }
    }

    /// Mark every root: what the operand stack, the frames, the list of open upvalues
    /// and the globals refer to.
    fn mark_roots(&mut self)
        requires
            old(self).wf(),
        ensures
            final(self).heap.inv(),
            final(self).stack.wf(),
            final(self).frames.wf(),
            final(self).grey_ok(),
            final(self)@ == old(self)@,
            final(self).heap.marked() == old(self)@.roots(),
    {
        self.grey_objects.clear();
        let ghost m = self@;
        let ghost roots = m.roots();
        proof {
            self.heap.lemma_wf();
        }
        let n = self.stack.len();
        let mut i: usize = 0;
        while i < n
            invariant
                i <= n,
                n == m.stack.len(),
                self@ == m,
                m.ok(),
                self.heap.inv(),
                self.stack.wf(),
                self.frames.wf(),
                self.grey_ok(),
                roots == m.roots(),
                forall|h: usize| #[trigger] self.heap.marked().contains(h) ==> roots.contains(h),
                forall|j: int|
                    0 <= j < i ==> ((#[trigger] m.stack[j]) matches Value::Object(h)
                        ==> self.heap.marked().contains(h)),
            decreases n - i,
        {
            if let Value::Object(h) = *self.stack.index(i) {
                proof {
                    assert(value_ok(m.heap, m.stack[i as int]));
                    assert(m.stack.contains(Value::Object(h)));
                }
                self.mark_root(h);
            }
            i += 1;
        }
        let n = self.frames.len();
        let mut i: usize = 0;
        while i < n
            invariant
                i <= n,
                n == m.frames.len(),
                self@ == m,
                m.ok(),
                self.heap.inv(),
                self.stack.wf(),
                self.frames.wf(),
                self.grey_ok(),
                roots == m.roots(),
                forall|h: usize| #[trigger] self.heap.marked().contains(h) ==> roots.contains(h),
                forall|j: int|
                    0 <= j < m.stack.len() ==> ((#[trigger] m.stack[j]) matches Value::Object(h)
                        ==> self.heap.marked().contains(h)),
                forall|j: int|
                    0 <= j < i ==> self.heap.marked().contains((#[trigger] m.frames[j]).closure),
            decreases n - i,
        {
            let closure = self.frames.index(i).closure;
            proof {
                assert(has_kind(m.heap, m.frames[i as int].closure, ObjectKind::Closure));
            }
            self.mark_root(closure);
            i += 1;
        }
        let n = self.open_upvalues.len();
        let mut i: usize = 0;
        while i < n
            invariant
                i <= n,
                n == m.open_upvalues.len(),
                self@ == m,
                m.ok(),
                self.heap.inv(),
                self.stack.wf(),
                self.frames.wf(),
                self.grey_ok(),
                roots == m.roots(),
                forall|h: usize| #[trigger] self.heap.marked().contains(h) ==> roots.contains(h),
                forall|j: int|
                    0 <= j < m.stack.len() ==> ((#[trigger] m.stack[j]) matches Value::Object(h)
                        ==> self.heap.marked().contains(h)),
                forall|j: int|
                    0 <= j < m.frames.len() ==> self.heap.marked().contains(
                        (#[trigger] m.frames[j]).closure,
                    ),
                forall|j: int|
                    0 <= j < i ==> self.heap.marked().contains(#[trigger] m.open_upvalues[j]),
            decreases n - i,
        {
            let upvalue = self.open_upvalues[i];
            proof {
                assert(m.open_slot(m.open_upvalues[i as int]) is Some);
                assert(m.open_upvalues.contains(upvalue));
            }
            self.mark_root(upvalue);
            i += 1;
        }
        let keys = self.globals.keys();
        let n = keys.len();
        let mut i: usize = 0;
        while i < n
            invariant
                i <= n,
                n == keys@.len(),
                forall|k: usize| keys@.contains(k) <==> m.globals.contains_key(k),
                self@ == m,
                m.ok(),
                self.heap.inv(),
                self.stack.wf(),
                self.frames.wf(),
                self.grey_ok(),
                roots == m.roots(),
                forall|h: usize| #[trigger] self.heap.marked().contains(h) ==> roots.contains(h),
                forall|j: int|
                    0 <= j < m.stack.len() ==> ((#[trigger] m.stack[j]) matches Value::Object(h)
                        ==> self.heap.marked().contains(h)),
                forall|j: int|
                    0 <= j < m.frames.len() ==> self.heap.marked().contains(
                        (#[trigger] m.frames[j]).closure,
                    ),
                forall|j: int|
                    0 <= j < m.open_upvalues.len() ==> self.heap.marked().contains(
                        #[trigger] m.open_upvalues[j],
                    ),
                forall|j: int|
                    0 <= j < i ==> self.heap.marked().contains(#[trigger] keys@[j]) && (
                    m.globals[keys@[j]] matches Value::Object(h) ==> self.heap.marked().contains(
                        h,
                    )),
            decreases n - i,
        {
            let key = keys[i];
            proof {
                assert(keys@.contains(key));
                assert(m.globals.contains_key(key));
                assert(has_kind(m.heap, key, ObjectKind::String));
            }
            self.mark_root(key);
            if let Some(Value::Object(h)) = self.globals.get(key) {
                proof {
                    assert(value_ok(m.heap, m.globals[key]));
                }
                self.mark_root(h);
            }
            i += 1;
        }
        proof {
            assert forall|h: usize| roots.contains(h) implies self.heap.marked().contains(h) by {
                if m.stack.contains(Value::Object(h)) {
                    let j = choose|j: int| 0 <= j < m.stack.len() && m.stack[j] == Value::Object(h);
                    assert(m.stack[j] matches Value::Object(g) ==> self.heap.marked().contains(g));
                } else if exists|j: int|
                    0 <= j < m.frames.len() && (#[trigger] m.frames[j]).closure == h {
                    let j = choose|j: int|
                        0 <= j < m.frames.len() && (#[trigger] m.frames[j]).closure == h;
                    assert(self.heap.marked().contains(m.frames[j].closure));
                } else if m.open_upvalues.contains(h) {
                    let j = choose|j: int|
                        0 <= j < m.open_upvalues.len() && m.open_upvalues[j] == h;
                    assert(self.heap.marked().contains(m.open_upvalues[j]));
                } else if m.globals.contains_key(h) {
                    assert(keys@.contains(h));
                    let j = choose|j: int| 0 <= j < keys@.len() && keys@[j] == h;
                    assert(self.heap.marked().contains(keys@[j]));
                } else {
                    let k = choose|k: usize| #[trigger]
                        m.globals.contains_key(k) && m.globals[k] == Value::Object(h);
                    assert(keys@.contains(k));
                    let j = choose|j: int| 0 <= j < keys@.len() && keys@[j] == k;
                    assert(self.heap.marked().contains(keys@[j]));
                }
            }
            assert(self.heap.marked() =~= roots);
        }
    }

    /// Collect the garbage: mark the roots, trace the heap from them, and sweep away
    /// what was not reached. The heap keeps exactly the objects that can be reached from
    /// the roots, each as it was; afterwards no object carries a mark and the worklist
    /// is empty, as `wf` says.
    pub fn mark_sweep(&mut self)
        requires
            old(self).wf(),
        ensures
            final(self).wf(),
            final(self)@ == old(self)@.collected(),
            final(self).marked() == Set::<usize>::empty(),
            final(self).worklist() == Seq::<usize>::empty(),
            forall|h: usize| #[trigger]
                final(self)@.heap.contains_key(h) <==> old(self)@.heap.contains_key(h)
                    && reachable(old(self)@.heap, old(self)@.roots(), h),
            forall|h: usize| #[trigger]
                final(self)@.heap.contains_key(h) ==> final(self)@.heap[h] == old(self)@.heap[h],
            total_size(final(self)@.heap) == total_size(old(self)@.heap) - total_size(
                old(self)@.heap.remove_keys(reachable_set(old(self)@.heap, old(self)@.roots())),
            ),
    {
        proof {
            lemma_heap_size_split(
                old(self)@.heap,
                reachable_set(old(self)@.heap, old(self)@.roots()),
                (usize::MAX + 1) as nat,
            );
        }
        self.mark_roots();
        proof {
            assert forall|a: usize, b: usize|
                self.heap.marked().contains(a) && #[trigger] edge(self.heap@, a, b) implies self.heap.marked().contains(
                b,
            ) || self.grey_objects@.contains(a) by {}
        }
        self.heap.trace(&mut self.grey_objects);
        self.heap.sweep();
        proof {
            old(self)@.lemma_collected_ok();
            self.heap.lemma_wf();
            self.heap.lemma_inv();
            assert(self@ == old(self)@.collected());
            self.lemma_wf();
        }
    }

    /// Collect the garbage if more bytes are allocated than the threshold allows.
    pub(crate) fn gc(&mut self)
        requires
            old(self).wf(),
        ensures
            final(self).wf(),
            final(self)@ == old(self)@.before_allocation(),
    {
        proof {
            self.heap.lemma_wf();
            self.heap.lemma_inv();
        }
        if self.heap.size() <= self.heap.next_gc() {
            return ;
        }
        self.mark_sweep();
    }

    /// Allocate an object that is no string, after a collection if one is due, and
    /// return its handle.
    pub(crate) fn alloc_object(&mut self, object: Object) -> (h: usize)
        requires
            old(self).wf(),
            object.wf(),
            !(object is String),
            object_ok(old(self)@.heap, object@),
            forall|b: usize|
                object@.refers_to(b) ==> reachable(old(self)@.heap, old(self)@.roots(), b),
        ensures
            final(self).wf(),
            !old(self)@.before_allocation().heap.contains_key(h),
            final(self)@ == (Machine {
                heap: old(self)@.before_allocation().heap.insert(h, object@),
                ..old(self)@.before_allocation()
            }),
    {
        let ghost view = object@;
        let ghost before = self@;
        self.gc();
        let ghost base = self@;
        proof {
            if before.gc_due() {
                assert forall|b: usize| view.refers_to(b) implies reachable_set(
                    before.heap,
                    before.roots(),
                ).contains(b) by {}
                lemma_object_ok_restrict(
                    before.heap,
                    reachable_set(before.heap, before.roots()),
                    view,
                );
            }
            self.heap.lemma_wf();
        }
        let h = self.heap.allocate(object);
        proof {
            self.heap.lemma_inv();
            base.lemma_ok_heap(self.heap@);
        }
        h
    }

    /// The handle of the string object with the given text: the one that the heap holds,
    /// or else a new one, which is allocated after a collection if one is due.
    pub(crate) fn alloc_string(&mut self, text: String) -> (h: usize)
        requires
            old(self).wf(),
        ensures
            final(self).wf(),
            holds_text(final(self)@.heap, h, text@),
            old(self)@.interns(final(self)@, text@, h),
    {
        let ghost before = self@;
        if let Some(h) = self.lookup(text.as_str()) {
            return h;
        }
        self.gc();
        let ghost base = self@;
        proof {
            self.heap.lemma_wf();
            assert forall|g: usize| !holds_text(base.heap, g, text@) by {
                if holds_text(base.heap, g, text@) {
                    assert(holds_text(before.heap, g, text@));
                }
            }
        }
        let h = self.heap.intern(text);
        proof {
            self.heap.lemma_inv();
            base.lemma_ok_heap(self.heap@);
            if base.heap.contains_key(h) {
                assert(holds_text(base.heap, h, text@));
            }
        }
        h
    }
}

impl VirtualMachine {
    /// Read through the upvalue under `u`.
    pub(crate) fn upvalue_get(&self, u: usize) -> (r: Result<Value, RuntimeError>)
        requires
            self.wf(),
            has_kind(self@.heap, u, ObjectKind::Upvalue),
        ensures
            match r {
                Ok(value) => self@.upvalue_value(u) == Some(value) && value_ok(self@.heap, value),
                Err(e) => e@ == Fault::StackUnderflow && self@.upvalue_value(u) is None,
            },
    {
        let upvalue = match self.object(u) {
            Some(object) => match object.as_upvalue() {
                Ok(upvalue) => Some(*upvalue),
                Err(_) => None,
            },
            None => None,
        };
        match upvalue {
            Some(ObjUpvalue::Open(slot)) => self.stack_get(slot),
            Some(ObjUpvalue::Closed(value)) => Ok(value),
            None => Err(RuntimeError::StackUnderflow),
        }
    }

    /// Write through the upvalue under `u`.
    pub(crate) fn upvalue_set(&mut self, u: usize, value: Value) -> (r: Result<(), RuntimeError>)
        requires
            old(self).wf(),
            has_kind(old(self)@.heap, u, ObjectKind::Upvalue),
            value_ok(old(self)@.heap, value),
        ensures
            final(self).wf(),
            match r {
                Ok(()) => old(self)@.upvalue_written(u, value) == Some(final(self)@),
                Err(e) => e@ == Fault::StackUnderflow && old(self)@.upvalue_written(u, value)
                    is None && final(self)@ == old(self)@,
            },
    {
        let open = match self.object(u) {
            Some(Object::Upvalue(ObjUpvalue::Open(slot))) => Some(*slot),
            _ => None,
        };
        match open {
            Some(slot) => self.stack_set(slot, value),
            None => {
                let ghost before = self@;
                proof {
                    self.heap.lemma_wf();
                }
                self.heap.set_upvalue(u, ObjUpvalue::Closed(value));
                proof {
                    self.heap.lemma_inv();
                    before.lemma_ok_update(u, ObjectView::Upvalue(ObjUpvalue::Closed(value)));
                }
                Ok(())
            },
        }
    }

    /// The open upvalue for the stack slot `location`: the one on the list of open
    /// upvalues, or else a new one, which is put on the list.
    pub(crate) fn capture_upvalue(&mut self, location: usize) -> (u: usize)
        requires
            old(self).wf(),
        ensures
            final(self).wf(),
            final(self)@.open_slot(u) == Some(location),
            final(self)@.open_upvalues.contains(u),
            match old(self)@.find_open(location) {
                Some(found) => u == found && final(self)@ == old(self)@,
                None => !old(self)@.before_allocation().heap.contains_key(u) && final(self)@ == (
                Machine {
                    heap: old(self)@.before_allocation().heap.insert(
                        u,
                        ObjectView::Upvalue(ObjUpvalue::Open(location)),
                    ),
                    open_upvalues: old(self)@.before_allocation().open_upvalues.push(u),
                    ..old(self)@.before_allocation()
                }),
            },
    {
        let ghost before = self@;
        let n = self.open_upvalues.len();
        let mut i: usize = 0;
        while i < n
            invariant
                i <= n,
                n == before.open_upvalues.len(),
                self.wf(),
                self@ == before,
                *self == *old(self),
                forall|j: int|
                    0 <= j < i ==> before.open_slot(#[trigger] before.open_upvalues[j]) != Some(
                        location,
                    ),
            decreases n - i,
        {
            let candidate = self.open_upvalues[i];
            if let Some(Object::Upvalue(ObjUpvalue::Open(slot))) = self.object(candidate) {
                if *slot == location {
                    proof {
                        before.lemma_find_open(location, i as int);
                        assert(before.open_upvalues[i as int] == candidate);
                    }
                    return candidate;
                }
            }
            i += 1;
        }
        let u = self.alloc_object(Object::Upvalue(ObjUpvalue::Open(location)));
        let ghost mid = self@;
        self.open_upvalues.push(u);
        proof {
            let base = before.before_allocation();
            if before.gc_due() {
                before.lemma_collected_ok();
            }
            let after = self@;
            assert forall|j: int| 0 <= j < base.open_upvalues.len() implies after.open_slot(
                #[trigger] after.open_upvalues[j],
            ) == before.open_slot(before.open_upvalues[j]) && after.open_slot(
                after.open_upvalues[j],
            ) is Some by {
                assert(after.open_upvalues[j] == mid.open_upvalues[j]);
                assert(mid.open_slot(mid.open_upvalues[j]) is Some);
                assert(before.open_slot(before.open_upvalues[j]) is Some);
                if before.gc_due() {
                    assert(base.open_slot(base.open_upvalues[j]) is Some);
                }
            }
            assert forall|a: int, b: int| 0 <= a < b < after.open_upvalues.len() implies after.open_slot(
                #[trigger] after.open_upvalues[a],
            ) != after.open_slot(#[trigger] after.open_upvalues[b]) by {
                if b < base.open_upvalues.len() {
                    assert(before.open_slot(before.open_upvalues[a]) != before.open_slot(
                        before.open_upvalues[b],
                    ));
                }
            }
            assert(after.open_upvalues[after.open_upvalues.len() - 1] == u);
        }
        u
    }

    /// Close the stack slots from `last` on: every open upvalue for such a slot is
    /// closed over the value in the slot and leaves the list of open upvalues.
    pub(crate) fn close_upvalues(&mut self, last: usize) -> (r: Result<(), RuntimeError>)
        requires
            old(self).wf(),
        ensures
            final(self).wf(),
            match r {
                Ok(()) => old(self)@.can_close(last) && final(self)@ == old(self)@.closed_from(
                    last,
                ),
                Err(e) => e@ == Fault::StackUnderflow && !old(self)@.can_close(last) && final(self)@ == old(self)@,
            },
    {
        let ghost before = self@;
        let ghost list = before.open_upvalues;
        let ghost pred = |u: usize| !before.closes(u, last);
        let n = self.open_upvalues.len();
        let mut i: usize = 0;
        while i < n
            invariant
                self.grey_objects@.len() == 0,
                i <= n,
                n == list.len(),
                self.wf(),
                self@ == before,
                list == before.open_upvalues,
                *self == *old(self),
                forall|j: int|
                    0 <= j < i && before.closes(#[trigger] list[j], last) ==> before.open_slot(
                        list[j],
                    ).unwrap() < before.stack.len(),
            decreases n - i,
        {
            let candidate = self.open_upvalues[i];
            if let Some(Object::Upvalue(ObjUpvalue::Open(slot))) = self.object(candidate) {
                if *slot >= last && *slot >= self.stack.len() {
                    proof {
                        assert(list.contains(candidate));
                        assert(before.closes(candidate, last));
                    }
                    return Err(RuntimeError::StackUnderflow);
                }
            }
            i += 1;
        }
        proof {
            assert forall|u: usize| #[trigger] before.closes(u, last) implies before.open_slot(
                u,
            ).unwrap() < before.stack.len() by {
                let j = choose|j: int| 0 <= j < list.len() && list[j] == u;
                assert(before.closes(list[j], last));
            }
            self.heap.lemma_wf();
            reveal(Seq::filter);
            assert(list.subrange(0, 0) =~= Seq::<usize>::empty());
        }
        let mut kept: Vec<usize> = Vec::new();
        let mut i: usize = 0;
        while i < n
            invariant
                self.grey_objects@.len() == 0,
                i <= n,
                n == list.len(),
                before.ok(),
                before.can_close(last),
                list == before.open_upvalues,
                pred == (|u: usize| !before.closes(u, last)),
                self.heap.wf(),
                self.stack == old(self).stack,
                self.frames == old(self).frames,
                self.globals == old(self).globals,
                self.open_upvalues == old(self).open_upvalues,
                self.stack@ == before.stack,
                self.open_upvalues@ == list,
                self.heap.threshold() == before.threshold,
                kept@ == list.subrange(0, i as int).filter(pred),
                forall|h: usize| self.heap@.contains_key(h) <==> before.heap.contains_key(h),
                forall|h: usize| #[trigger]
                    before.heap.contains_key(h) ==> self.heap@[h] == (if before.closes(h, last)
                        && (exists|j: int| 0 <= j < i && list[j] == h) {
                        ObjectView::Upvalue(
                            ObjUpvalue::Closed(before.stack[before.open_slot(h).unwrap() as int]),
                        )
                    } else {
                        before.heap[h]
                    }),
            decreases n - i,
        {
            let candidate = self.open_upvalues[i];
            let ghost heap1 = self.heap@;
            proof {
                assert(list.contains(candidate));
                assert(before.open_slot(list[i as int]) is Some);
                assert(!(exists|j: int| 0 <= j < i && list[j] == candidate)) by {
                    if exists|j: int| 0 <= j < i && list[j] == candidate {
                        let j = choose|j: int| 0 <= j < i && list[j] == candidate;
                        before.lemma_open_distinct(j, i as int);
                    }
                }
                assert(heap1[candidate] == before.heap[candidate]);
                self.heap.lemma_wf();
                assert(list.subrange(0, i + 1).drop_last() =~= list.subrange(0, i as int));
                assert(list.subrange(0, i + 1).last() == candidate);
                reveal(Seq::filter);
            }
            let slot = match self.heap.get(candidate) {
                Some(Object::Upvalue(ObjUpvalue::Open(slot))) => *slot,
                _ => 0,
            };
            if slot >= last {
                proof {
                    assert(before.closes(candidate, last));
                    assert(value_ok(before.heap, before.stack[slot as int]));
                }
                let value = *self.stack.index(slot);
                self.heap.set_upvalue(candidate, ObjUpvalue::Closed(value));
                proof {
                    assert forall|h: usize| #[trigger] before.heap.contains_key(h) implies self.heap@[h] == (
                    if before.closes(h, last) && (exists|j: int| 0 <= j < i + 1 && list[j] == h) {
                        ObjectView::Upvalue(
                            ObjUpvalue::Closed(before.stack[before.open_slot(h).unwrap() as int]),
                        )
                    } else {
                        before.heap[h]
                    }) by {
                        if h == candidate {
                            assert(list[i as int] == h);
                        } else {
                            assert(heap1.contains_key(h));
                            if exists|j: int| 0 <= j < i + 1 && list[j] == h {
                                let j = choose|j: int| 0 <= j < i + 1 && list[j] == h;
                                assert(j < i);
                            }
                        }
                    }
                }
            } else {
                kept.push(candidate);
                proof {
                    assert(!before.closes(candidate, last));
                    assert forall|h: usize| #[trigger] before.heap.contains_key(h) implies self.heap@[h] == (
                    if before.closes(h, last) && (exists|j: int| 0 <= j < i + 1 && list[j] == h) {
                        ObjectView::Upvalue(
                            ObjUpvalue::Closed(before.stack[before.open_slot(h).unwrap() as int]),
                        )
                    } else {
                        before.heap[h]
                    }) by {
                        if exists|j: int| 0 <= j < i + 1 && list[j] == h {
                            let j = choose|j: int| 0 <= j < i + 1 && list[j] == h;
                            if j == i {
                                assert(h == candidate);
                            }
                        }
                    }
                }
            }
            i += 1;
        }
        self.open_upvalues = kept;
        proof {
            assert(list.subrange(0, n as int) =~= list);
            let target = before.closed_from(last);
            assert(self.heap@ =~= target.heap) by {
                assert forall|h: usize| before.heap.contains_key(h) implies self.heap@[h]
                    == target.heap[h] by {
                    if before.closes(h, last) {
                        let j = choose|j: int| 0 <= j < list.len() && list[j] == h;
                        assert(list[j] == h);
                    }
                }
            }
            assert(self@ == target);
            self.heap.lemma_wf();
            self.heap.lemma_inv();
            let after = self@;
            assert forall|a: int| 0 <= a < after.open_upvalues.len() implies after.open_slot(
                #[trigger] after.open_upvalues[a],
            ) is Some && !before.closes(after.open_upvalues[a], last) && list.contains(
                after.open_upvalues[a],
            ) && after.open_slot(after.open_upvalues[a]) == before.open_slot(after.open_upvalues[a]) by {
                list.lemma_filter_pred(pred, a);
                let u = after.open_upvalues[a];
                assert(list.filter(pred).contains(u));
                list.lemma_filter_contains_rev(pred, u);
                let j = choose|j: int| 0 <= j < list.len() && list[j] == u;
                assert(before.open_slot(list[j]) is Some);
            }
            Self::lemma_filter_distinct(before, list, pred);
            assert forall|a: int, b: int| 0 <= a < b < after.open_upvalues.len() implies after.open_slot(
                #[trigger] after.open_upvalues[a],
            ) != after.open_slot(#[trigger] after.open_upvalues[b]) by {
                let x = after.open_upvalues[a];
                let y = after.open_upvalues[b];
                assert(x != y);
                let p = choose|p: int| 0 <= p < list.len() && list[p] == x;
                let q = choose|q: int| 0 <= q < list.len() && list[q] == y;
                if p < q {
                    assert(before.open_slot(list[p]) != before.open_slot(list[q]));
                } else {
                    assert(before.open_slot(list[q]) != before.open_slot(list[p]));
                }
            }
            assert forall|j: int| 0 <= j < after.stack.len() implies value_ok(
                after.heap,
                #[trigger] after.stack[j],
            ) by {
                assert(value_ok(before.heap, before.stack[j]));
            }
            assert forall|j: int| 0 <= j < after.frames.len() implies has_kind(
                after.heap,
                (#[trigger] after.frames[j]).closure,
                ObjectKind::Closure,
            ) by {
                assert(has_kind(before.heap, before.frames[j].closure, ObjectKind::Closure));
                assert(before.heap.contains_key(before.frames[j].closure));
                assert(before.open_slot(before.frames[j].closure) is None);
            }
            assert forall|k: usize| #[trigger] after.globals.contains_key(k) implies has_kind(
                after.heap,
                k,
                ObjectKind::String,
            ) && value_ok(after.heap, after.globals[k]) by {
                assert(before.globals.contains_key(k));
                assert(before.heap.contains_key(k));
                assert(before.open_slot(k) is None);
            }
        }
        Ok(())
    }

    /// A filtered list of open upvalues holds no upvalue twice.
    proof fn lemma_filter_distinct(m: Machine, list: Seq<usize>, pred: spec_fn(usize) -> bool)
        requires
            forall|i: int, j: int| 0 <= i < j < list.len() ==> list[i] != list[j],
        ensures
            forall|a: int, b: int|
                0 <= a < b < list.filter(pred).len() ==> list.filter(pred)[a] != list.filter(
                    pred,
                )[b],
        decreases list.len(),
    {
        reveal(Seq::filter);
        if list.len() > 0 {
            let rest = list.drop_last();
            Self::lemma_filter_distinct(m, rest, pred);
            let f = rest.filter(pred);
            if pred(list.last()) {
                assert forall|a: int, b: int| 0 <= a < b < f.push(list.last()).len() implies f.push(
                    list.last(),
                )[a] != f.push(list.last())[b] by {
                    if b == f.len() {
                        assert(f.contains(f[a]));
                        rest.lemma_filter_contains_rev(pred, f[a]);
                        let j = choose|j: int| 0 <= j < rest.len() && rest[j] == f[a];
                        assert(list[j] == f[a]);
                        assert(list[j] != list[list.len() - 1]);
                    }
                }
            }
        }
    }
}

impl VirtualMachine {
    /// The handle of the string object with the given text, if the heap holds one: what
    /// the table of interned strings has under the text.
    pub fn lookup(&self, text: &str) -> (found: Option<usize>)
        requires
            self.wf(),
        ensures
            match found {
                Some(h) => holds_text(self@.heap, h, text@),
                None => forall|g: usize| !holds_text(self@.heap, g, text@),
            },
    {
        proof {
            self.heap.lemma_wf();
        }
        self.heap.lookup(text)
    }

    /// Store `closure` as the method called `name` of the class under handle `class`.
    pub(crate) fn set_method(&mut self, class: usize, name: usize, closure: usize)
        requires
            old(self).wf(),
            has_kind(old(self)@.heap, class, ObjectKind::Class),
            has_kind(old(self)@.heap, name, ObjectKind::String),
            has_kind(old(self)@.heap, closure, ObjectKind::Closure),
        ensures
            final(self).wf(),
            old(self)@.heap[class] matches ObjectView::Class { name: n, methods } && final(self)@
                == (Machine {
                heap: old(self)@.heap.insert(
                    class,
                    ObjectView::Class { name: n, methods: methods.insert(name, closure) },
                ),
                ..old(self)@
            }),
    {
        let ghost before = self@;
        proof {
            self.heap.lemma_wf();
        }
        self.heap.set_method(class, name, closure);
        proof {
            self.heap.lemma_inv();
            before.lemma_ok_update(class, self.heap@[class]);
        }
    }

    /// Store `value` as the field called `name` of the instance under handle `instance`.
    pub(crate) fn set_field(&mut self, instance: usize, name: usize, value: Value)
        requires
            old(self).wf(),
            has_kind(old(self)@.heap, instance, ObjectKind::Instance),
            has_kind(old(self)@.heap, name, ObjectKind::String),
            value_ok(old(self)@.heap, value),
        ensures
            final(self).wf(),
            old(self)@.heap[instance] matches ObjectView::Instance { class, fields } && final(self)@ == (Machine {
                heap: old(self)@.heap.insert(
                    instance,
                    ObjectView::Instance { class, fields: fields.insert(name, value) },
                ),
                ..old(self)@
            }),
    {
        let ghost before = self@;
        proof {
            self.heap.lemma_wf();
        }
        self.heap.set_field(instance, name, value);
        proof {
            self.heap.lemma_inv();
            before.lemma_ok_update(instance, self.heap@[instance]);
        }
    }
}

impl VirtualMachine {
    /// Create a new virtual machine, which knows the native function `clock`.
    pub fn new() -> (vm: Self)
        ensures
            vm.wf(),
            exists|name: usize, native: usize|
                name != native && vm@ == #[trigger] Machine::initial(
                    name,
                    native,
                    INITIAL_GC_THRESHOLD,
                ),
    {
        let mut vm = VirtualMachine {
            stack: Stack::new(),
            frames: Stack::new(),
            open_upvalues: Vec::new(),
            globals: Table::new(),
            grey_objects: Vec::new(),
            heap: Heap::new(),
        };
        proof {
            vm.heap.lemma_wf();
            vm.heap.lemma_inv();
        }
        let ghost empty = vm@;
        let (name, native) = vm.define_native("clock", 0, Native::Clock);
        proof {
            let target = Machine::initial(name, native, INITIAL_GC_THRESHOLD);
            assert(vm@.heap =~= target.heap);
            assert(vm@.globals =~= target.globals);
            assert(vm@ == target);
        }
        vm
    }

    /// Define a native function as a global variable: the handles of its name and of
    /// the function come back. Nothing is collected on the way.
    pub(crate) fn define_native(&mut self, name: &str, arity: u8, native: Native) -> (r: (
        usize,
        usize,
    ))
        requires
            old(self).wf(),
        ensures
            final(self).wf(),
            !old(self)@.heap.contains_key(r.1),
            r.0 != r.1,
            final(self)@ == (Machine {
                heap: old(self)@.heap.insert(r.0, ObjectView::String(name@)).insert(
                    r.1,
                    ObjectView::NativeFun(ObjNativeFun { arity, native }),
                ),
                globals: old(self)@.globals.insert(r.0, Value::Object(r.1)),
                ..old(self)@
            }),
            old(self)@.heap.contains_key(r.0) ==> old(self)@.heap[r.0] == ObjectView::String(
                name@,
            ),
    {
        let ghost before = self@;
        proof {
            self.heap.lemma_wf();
        }
        let key = self.heap.intern(name.to_string());
        proof {
            self.heap.lemma_inv();
            before.lemma_ok_heap(self.heap@);
            if before.heap.contains_key(key) {
                assert(self.heap@ =~= before.heap.insert(key, ObjectView::String(name@)));
            }
        }
        let ghost mid = self@;
        let function = self.heap.allocate(Object::NativeFun(ObjNativeFun { arity, native }));
        proof {
            self.heap.lemma_inv();
            mid.lemma_ok_heap(self.heap@);
        }
        self.global_set(key, Value::Object(function));
        (key, function)
    }

    /// The handle of the string object with the given text: the one that the heap
    /// holds, or else a new one. Nothing is collected on the way.
    pub fn intern(&mut self, text: String) -> (value: Value)
        requires
            old(self).wf(),
        ensures
            final(self).wf(),
            value matches Value::Object(h) && holds_text(final(self)@.heap, h, text@) && (if exists|
                g: usize,
            | #[trigger] holds_text(old(self)@.heap, g, text@) {
                final(self)@ == old(self)@
            } else {
                !old(self)@.heap.contains_key(h) && final(self)@ == (Machine {
                    heap: old(self)@.heap.insert(h, ObjectView::String(text@)),
                    ..old(self)@
                })
            }),
    {
        let ghost before = self@;
        proof {
            self.heap.lemma_wf();
        }
        let h = self.heap.intern(text);
        proof {
            self.heap.lemma_inv();
            before.lemma_ok_heap(self.heap@);
            if exists|g: usize| #[trigger] holds_text(before.heap, g, text@) {
                let g = choose|g: usize| #[trigger] holds_text(before.heap, g, text@);
                assert(before.heap.contains_key(g) && before.heap[g] == ObjectView::String(text@));
            }
            if before.heap.contains_key(h) {
                assert(holds_text(before.heap, h, text@));
            }
        }
        Value::Object(h)
    }

    /// Whether every object that the function refers to is in the heap, and its name is
    /// a string.
    pub fn accepts(&self, fun: &ObjFun) -> (ok: bool)
        requires
            self.wf(),
        ensures
            ok == object_ok(self@.heap, ObjectView::Fun(fun@)),
    {
        let len = fun.chunk.len();
        if let Some(name) = fun.name {
            match self.object(name) {
                Some(Object::String(_)) => {},
                _ => {
                    return false;
                },
            }
        }
        let n = fun.chunk.constant_count();
        let mut i: usize = 0;
        while i < n
            invariant
                i <= n,
                n == fun@.constants.len(),
                self.wf(),
                forall|j: int| 0 <= j < i ==> value_ok(self@.heap, #[trigger] fun@.constants[j]),
            decreases n - i,
        {
            if let Some(Value::Object(h)) = fun.chunk.constant_at(i) {
                if self.object(h).is_none() {
                    proof {
                        assert(!value_ok(self@.heap, fun@.constants[i as int]));
                    }
                    return false;
                }
            }
            i += 1;
        }
        true
    }

    /// Put a compiled function into the heap. Nothing is collected on the way. A
    /// function that refers to an object that the heap does not hold, or whose name is
    /// no string, is refused.
    pub fn define_function(&mut self, fun: ObjFun) -> (r: Result<Value, RuntimeError>)
        requires
            old(self).wf(),
            fun.chunk.wf(),
        ensures
            final(self).wf(),
            match r {
                Ok(value) => object_ok(old(self)@.heap, ObjectView::Fun(fun@)) && (
                value matches Value::Object(h) && !old(self)@.heap.contains_key(h) && final(self)@
                    == (Machine {
                    heap: old(self)@.heap.insert(h, ObjectView::Fun(fun@)),
                    ..old(self)@
                })),
                Err(e) => e@ == Fault::Object(ObjectError::InvalidCast) && !object_ok(
                    old(self)@.heap,
                    ObjectView::Fun(fun@),
                ) && final(self)@ == old(self)@,
            },
    {
        if !self.accepts(&fun) {
            return Err(RuntimeError::Object(ObjectError::InvalidCast));
        }
        let ghost before = self@;
        proof {
            self.heap.lemma_wf();
        }
        let h = self.heap.allocate(Object::Fun(fun));
        proof {
            self.heap.lemma_inv();
            before.lemma_ok_heap(self.heap@);
        }
        Ok(Value::Object(h))
    }

    /// Clear the machine after a runtime error: every open upvalue is closed, and the
    /// stacks are emptied.
    pub fn reset(&mut self)
        requires
            old(self).wf(),
        ensures
            final(self).wf(),
            final(self)@ == old(self)@.cleared(),
    {
        let ghost before = self@;
        let ghost list = before.open_upvalues;
        let n = self.open_upvalues.len();
        let mut i: usize = 0;
        proof {
            self.heap.lemma_wf();
        }
        while i < n
            invariant
                self.grey_objects@.len() == 0,
                i <= n,
                n == list.len(),
                before.ok(),
                list == before.open_upvalues,
                self.heap.wf(),
                self.stack == old(self).stack,
                self.frames == old(self).frames,
                self.globals == old(self).globals,
                self.open_upvalues == old(self).open_upvalues,
                self.stack@ == before.stack,
                self.open_upvalues@ == list,
                self.heap.threshold() == before.threshold,
                forall|h: usize| self.heap@.contains_key(h) <==> before.heap.contains_key(h),
                forall|h: usize| #[trigger]
                    before.heap.contains_key(h) ==> self.heap@[h] == (if exists|j: int|
                        0 <= j < i && list[j] == h {
                        before.cleared().heap[h]
                    } else {
                        before.heap[h]
                    }),
            decreases n - i,
        {
            let candidate = self.open_upvalues[i];
            let ghost heap1 = self.heap@;
            proof {
                assert(list.contains(candidate));
                assert(before.open_slot(list[i as int]) is Some);
                assert(!(exists|j: int| 0 <= j < i && list[j] == candidate)) by {
                    if exists|j: int| 0 <= j < i && list[j] == candidate {
                        let j = choose|j: int| 0 <= j < i && list[j] == candidate;
                        before.lemma_open_distinct(j, i as int);
                    }
                }
                assert(heap1[candidate] == before.heap[candidate]);
                self.heap.lemma_wf();
            }
            let slot = match self.heap.get(candidate) {
                Some(Object::Upvalue(ObjUpvalue::Open(slot))) => *slot,
                _ => 0,
            };
            let value = if slot < self.stack.len() {
                proof {
                    assert(value_ok(before.heap, before.stack[slot as int]));
                }
                *self.stack.index(slot)
            } else {
                Value::Nil
            };
            self.heap.set_upvalue(candidate, ObjUpvalue::Closed(value));
            proof {
                assert forall|h: usize| #[trigger] before.heap.contains_key(h) implies self.heap@[h] == (
                if exists|j: int| 0 <= j < i + 1 && list[j] == h {
                    before.cleared().heap[h]
                } else {
                    before.heap[h]
                }) by {
                    if h == candidate {
                        assert(list[i as int] == h);
                    } else {
                        assert(heap1.contains_key(h));
                        if exists|j: int| 0 <= j < i + 1 && list[j] == h {
                            let j = choose|j: int| 0 <= j < i + 1 && list[j] == h;
                            assert(j < i);
                        }
                    }
                }
            }
            i += 1;
        }
        self.open_upvalues.clear();
        self.stack.reset();
        self.frames.reset();
        proof {
            let target = before.cleared();
            assert(self.heap@ =~= target.heap) by {
                assert forall|h: usize| before.heap.contains_key(h) implies self.heap@[h]
                    == target.heap[h] by {
                    if list.contains(h) {
                        let j = choose|j: int| 0 <= j < list.len() && list[j] == h;
                        assert(list[j] == h);
                    }
                }
            }
            assert(self@ == target);
            self.heap.lemma_wf();
            self.heap.lemma_inv();
            let after = self@;
            assert forall|k: usize| #[trigger] after.globals.contains_key(k) implies has_kind(
                after.heap,
                k,
                ObjectKind::String,
            ) && value_ok(after.heap, after.globals[k]) by {
                assert(before.globals.contains_key(k));
                assert(before.heap.contains_key(k));
                if list.contains(k) {
                    let j = choose|j: int| 0 <= j < list.len() && list[j] == k;
                    assert(before.open_slot(list[j]) is Some);
                }
            }
        }
    }
}

impl VirtualMachine {
    /// An iterator through the calls in progress, outermost first.
    pub(crate) fn frames_iter(&self) -> (it: StackIter<'_, CallFrame, VM_FRAMES_MAX>)
        ensures
            it.wf(),
            it@ == self@.frames,
    {
        self.frames.iter()
    }
}

} // verus!
