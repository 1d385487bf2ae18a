//! What each instruction does to the state of the machine.
//!
//! An instruction that ends in a runtime error leaves a state too, and it is stated like
//! the state that a successful one leaves. Mostly it is the state in which the
//! instruction found the machine once its operands were read from the instruction
//! stream; where an instruction has popped a value, placed a callee or allocated an
//! object before it fails, the state shows that.

use vstd::prelude::*;

use crate::graph::{has_kind, object_ok, valid_at};
use crate::machine::{CallFrame, Fault, Machine, VM_FRAMES_MAX, VM_STACK_SIZE};
use crate::object::{
    FunView, ObjBoundMethod, ObjNativeFun, ObjUpvalue, ObjectError, ObjectKind, ObjectView,
};
use crate::native::yields;
use crate::opcode::Opcode;
use crate::value::{Value, ValueError, number_le, number_lt, number_neg};

verus! {

/// What an instruction asks of the host of the machine.
#[derive(Debug, Clone, Copy, PartialEq, Eq, Structural)]
pub enum Signal {
    /// Nothing: the machine can go on with the next instruction.
    Continue,
    /// The program has come to its end.
    Done,
    /// A value is to be printed.
    Print(Value),
    /// An arithmetic operation on two numbers is to be carried out and its result to be
    /// pushed onto the operand stack. The opcode is one of `Add`, `Sub`, `Mul`, `Div`.
    Arithmetic(Opcode, u64, u64),
}

/// What an instruction comes to: the state that it leaves, together with what it asks of
/// the host or with the runtime error that it ends in.
pub type Outcome = Result<(Machine, Signal), (Machine, Fault)>;

/// The machine goes on in state `m`.
pub open spec fn goes_on(m: Machine) -> Outcome {
    Ok((m, Signal::Continue))
}

impl Machine {
    /// The innermost call in progress.
    pub open spec fn frame(self) -> CallFrame {
        self.frames.last()
    }

    /// The function of the closure under `closure`.
    pub open spec fn function_of(self, closure: usize) -> FunView {
        self.heap[self.heap[closure]->Closure_fun]->Fun_0
    }

    /// The upvalues of the closure under `closure`.
    pub open spec fn upvalues_of(self, closure: usize) -> Seq<usize> {
        self.heap[closure]->Closure_upvalues
    }

    /// The instruction stream of the function that is being run.
    pub open spec fn code(self) -> Seq<u8> {
        self.function_of(self.frame().closure).code
    }

    /// The constants of the function that is being run.
    pub open spec fn constants(self) -> Seq<Value> {
        self.function_of(self.frame().closure).constants
    }

    /// The instruction stream holds `n` more bytes to read.
    pub open spec fn can_fetch(self, n: int) -> bool {
        self.frames.len() > 0 && self.frame().ip + n <= self.code().len()
    }

    /// The byte `k` places after the instruction pointer.
    pub open spec fn operand(self, k: int) -> u8 {
        self.code()[self.frame().ip + k]
    }

    /// The machine with the instruction pointer set to `ip`.
    pub open spec fn with_ip(self, ip: usize) -> Machine {
        Machine {
            frames: self.frames.update(
                self.frames.len() - 1,
                CallFrame { ip, ..self.frames.last() },
            ),
            ..self
        }
    }

    /// The machine with the instruction pointer moved on by `n` bytes.
    pub open spec fn advanced(self, n: int) -> Machine {
        self.with_ip((self.frame().ip + n) as usize)
    }

    /// The machine with another stack.
    pub open spec fn with_stack(self, stack: Seq<Value>) -> Machine {
        Machine { stack, ..self }
    }

    /// The machine with the top of the stack popped.
    pub open spec fn popped(self) -> Machine {
        self.with_stack(self.stack.drop_last())
    }

    /// The value `k` places below the top of the stack.
    pub open spec fn top(self, k: int) -> Value {
        self.stack[self.stack.len() - 1 - k]
    }

    /// The string that the constant `k` names, where the constant is a string.
    pub open spec fn string_constant(self, k: u8) -> Result<usize, Fault> {
        if k >= self.constants().len() {
            Err(Fault::MalformedChunk)
        } else {
            match self.constants()[k as int] {
                Value::Object(h) => if has_kind(self.heap, h, ObjectKind::String) {
                    Ok(h)
                } else {
                    Err(Fault::Object(ObjectError::InvalidCast))
                },
                _ => Err(Fault::Object(ObjectError::InvalidCast)),
            }
        }
    }

    /// The text of the string under `h`.
    pub open spec fn text(self, h: usize) -> Seq<char> {
        self.heap[h]->String_0
    }

    /// Push a value.
    pub open spec fn pushing(self, value: Value) -> Outcome {
        if self.stack.len() >= VM_STACK_SIZE {
            Err((self, Fault::StackOverflow))
        } else {
            goes_on(self.with_stack(self.stack.push(value)))
        }
    }

    /// Replace the two values at the top of the stack by one.
    pub open spec fn replacing_two(self, value: Value) -> Machine {
        self.with_stack(self.stack.drop_last().drop_last().push(value))
    }

    /// Replace the value at the top of the stack.
    pub open spec fn replacing_top(self, value: Value) -> Machine {
        self.with_stack(self.stack.drop_last().push(value))
    }

    /// Load a constant.
    pub open spec fn op_const(self, k: u8) -> Outcome {
        if k >= self.constants().len() {
            Err((self, Fault::MalformedChunk))
        } else {
            self.pushing(self.constants()[k as int])
        }
    }

    /// Pop the top of the stack.
    pub open spec fn op_pop(self) -> Outcome {
        if self.stack.len() == 0 {
            Err((self, Fault::StackUnderflow))
        } else {
            goes_on(self.with_stack(self.stack.drop_last()))
        }
    }

    /// Get a local variable.
    pub open spec fn op_get_local(self, slot: u8) -> Outcome {
        let index = self.frame().slot + slot;
        if index >= self.stack.len() {
            Err((self, Fault::StackUnderflow))
        } else {
            self.pushing(self.stack[index])
        }
    }

    /// Set a local variable to the value at the top of the stack, which stays there.
    pub open spec fn op_set_local(self, slot: u8) -> Outcome {
        let index = self.frame().slot + slot;
        if index >= self.stack.len() {
            Err((self, Fault::StackUnderflow))
        } else {
            goes_on(self.with_stack(self.stack.update(index, self.top(0))))
        }
    }

    /// Get a global variable.
    pub open spec fn op_get_global(self, k: u8) -> Outcome {
        match self.string_constant(k) {
            Err(fault) => Err((self, fault)),
            Ok(name) => if !self.globals.contains_key(name) {
                Err((self, Fault::UndefinedVariable(self.text(name))))
            } else {
                self.pushing(self.globals[name])
            },
        }
    }

    /// Set a global variable that exists to the value at the top of the stack, which
    /// stays there.
    pub open spec fn op_set_global(self, k: u8) -> Outcome {
        match self.string_constant(k) {
            Err(fault) => Err((self, fault)),
            Ok(name) => if self.stack.len() == 0 {
                Err((self, Fault::StackUnderflow))
            } else if !self.globals.contains_key(name) {
                Err((self, Fault::UndefinedVariable(self.text(name))))
            } else {
                goes_on(Machine { globals: self.globals.insert(name, self.top(0)), ..self })
            },
        }
    }

    /// Pop the top of the stack and define a global variable with that value.
    pub open spec fn op_define_global(self, k: u8) -> Outcome {
        match self.string_constant(k) {
            Err(fault) => Err((self, fault)),
            Ok(name) => if self.stack.len() == 0 {
                Err((self, Fault::StackUnderflow))
            } else {
                goes_on(
                    Machine {
                        globals: self.globals.insert(name, self.top(0)),
                        stack: self.stack.drop_last(),
                        ..self
                    },
                )
            },
        }
    }

    /// Get a variable through an upvalue of the closure that is being run.
    pub open spec fn op_get_upvalue(self, slot: u8) -> Outcome {
        let upvalues = self.upvalues_of(self.frame().closure);
        if slot >= upvalues.len() {
            Err((self, Fault::MalformedChunk))
        } else {
            match self.upvalue_value(upvalues[slot as int]) {
                None => Err((self, Fault::StackUnderflow)),
                Some(value) => self.pushing(value),
            }
        }
    }

    /// Set a variable through an upvalue of the closure that is being run to the value
    /// at the top of the stack, which stays there.
    pub open spec fn op_set_upvalue(self, slot: u8) -> Outcome {
        let upvalues = self.upvalues_of(self.frame().closure);
        if self.stack.len() == 0 {
            Err((self, Fault::StackUnderflow))
        } else if slot >= upvalues.len() {
            Err((self, Fault::MalformedChunk))
        } else {
            match self.upvalue_written(upvalues[slot as int], self.top(0)) {
                None => Err((self, Fault::StackUnderflow)),
                Some(after) => goes_on(after),
            }
        }
    }

    /// Compare the two values at the top of the stack for equality, or for inequality
    /// where `negate` is set.
    pub open spec fn op_equal(self, negate: bool) -> Outcome {
        if self.stack.len() < 2 {
            Err((self, Fault::StackUnderflow))
        } else {
            goes_on(self.replacing_two(Value::Bool(self.top(1).equal_to(self.top(0)) != negate)))
        }
    }

    /// What an ordering comparison of two numbers gives.
    pub open spec fn ordering(op: Opcode, a: u64, b: u64) -> bool {
        match op {
            Opcode::GT => number_lt(b, a),
            Opcode::GE => number_le(b, a),
            Opcode::LT => number_lt(a, b),
            _ => number_le(a, b),
        }
    }

    /// Compare the two numbers at the top of the stack; `op` is one of `GT`, `GE`, `LT`
    /// and `LE`. Where one of them is no number, the upper one has been popped.
    pub open spec fn op_order(self, op: Opcode) -> Outcome {
        if self.stack.len() < 2 {
            Err((self, Fault::StackUnderflow))
        } else {
            match self.top(1).number_pair(self.top(0)) {
                None => Err((self.popped(), Fault::Value(ValueError::OperandsMustBeNumbers))),
                Some((a, b)) => goes_on(self.replacing_two(Value::Bool(Self::ordering(op, a, b)))),
            }
        }
    }

    /// Hand the two numbers at the top of the stack out for an arithmetic operation; `op`
    /// is one of `Sub`, `Mul` and `Div`. Where one of them is no number, the upper one
    /// has been popped.
    pub open spec fn op_arithmetic(self, op: Opcode) -> Outcome {
        if self.stack.len() < 2 {
            Err((self, Fault::StackUnderflow))
        } else {
            match self.top(1).number_pair(self.top(0)) {
                None => Err((self.popped(), Fault::Value(ValueError::OperandsMustBeNumbers))),
                Some((a, b)) => Ok(
                    (
                        self.with_stack(self.stack.drop_last().drop_last()),
                        Signal::Arithmetic(op, a, b),
                    ),
                ),
            }
        }
    }

    /// Replace the value at the top of the stack by the negation of its truthiness.
    pub open spec fn op_not(self) -> Outcome {
        if self.stack.len() == 0 {
            Err((self, Fault::StackUnderflow))
        } else {
            goes_on(self.replacing_top(Value::Bool(!self.top(0).truthy())))
        }
    }

    /// Negate the number at the top of the stack.
    pub open spec fn op_neg(self) -> Outcome {
        if self.stack.len() == 0 {
            Err((self, Fault::StackUnderflow))
        } else {
            match self.top(0) {
                Value::Number(bits) => goes_on(self.replacing_top(Value::Number(number_neg(bits)))),
                _ => Err((self, Fault::Value(ValueError::OperandMustBeNumber))),
            }
        }
    }

    /// Pop the top of the stack and hand it out to be printed.
    pub open spec fn op_print(self) -> Outcome {
        if self.stack.len() == 0 {
            Err((self, Fault::StackUnderflow))
        } else {
            Ok((self.with_stack(self.stack.drop_last()), Signal::Print(self.top(0))))
        }
    }

    /// Jump forward over `offset` bytes.
    pub open spec fn op_jump(self, offset: u16) -> Outcome {
        if self.frame().ip + offset > self.code().len() {
            Err((self, Fault::MalformedChunk))
        } else {
            goes_on(self.advanced(offset as int))
        }
    }

    /// Jump forward over `offset` bytes if the truthiness of the value at the top of the
    /// stack, which stays there, is `when`.
    pub open spec fn op_jump_if(self, when: bool, offset: u16) -> Outcome {
        if self.stack.len() == 0 {
            Err((self, Fault::StackUnderflow))
        } else if self.top(0).truthy() == when {
            self.op_jump(offset)
        } else {
            goes_on(self)
        }
    }

    /// Jump backward over `offset` bytes.
    pub open spec fn op_loop(self, offset: u16) -> Outcome {
        if offset > self.frame().ip {
            Err((self, Fault::MalformedChunk))
        } else {
            goes_on(self.advanced(-(offset as int)))
        }
    }
}

impl Machine {
    /// Setting the instruction pointer touches nothing but the instruction pointer of
    /// the innermost frame.
    pub proof fn lemma_with_ip(self, ip: usize)
        requires
            self.frames.len() > 0,
        ensures
            self.with_ip(ip).frames.len() == self.frames.len(),
            self.with_ip(ip).frame() == (CallFrame { ip, ..self.frame() }),
            self.with_ip(ip).code() == self.code(),
            self.with_ip(ip).constants() == self.constants(),
            self.with_ip(ip).stack == self.stack,
            self.with_ip(ip).heap == self.heap,
            self.with_ip(ip).globals == self.globals,
            self.with_ip(ip).open_upvalues == self.open_upvalues,
            forall|other: usize| self.with_ip(ip).with_ip(other) == self.with_ip(other),
            self.with_ip(self.frame().ip) == self,
    {
        assert forall|other: usize| self.with_ip(ip).with_ip(other) == self.with_ip(other) by {
            assert(self.with_ip(ip).with_ip(other).frames =~= self.with_ip(other).frames);
        }
        assert(self.with_ip(self.frame().ip).frames =~= self.frames);
    }
}

/// The machine has come to `post` with the result `r`, as `expected`: the same state,
/// and the same signal or the same error.
pub open spec fn is(expected: Outcome, post: Machine, r: Result<Signal, Fault>) -> bool {
    match expected {
        Ok((machine, signal)) => r == Ok::<Signal, Fault>(signal) && post == machine,
        Err((machine, fault)) => r == Err::<Signal, Fault>(fault) && post == machine,
    }
}

/// The machine has come to `post` with the result `r`: it ends in the error `fault` and is
/// left in the state `at`.
pub open spec fn fails(at: Machine, post: Machine, r: Result<Signal, Fault>, fault: Fault) -> bool {
    r == Err::<Signal, Fault>(fault) && post == at
}

impl Machine {
    /// The machine after an object that holds `o` has been allocated under `h`.
    pub open spec fn allocated(self, o: ObjectView, h: usize) -> Machine {
        Machine {
            heap: self.before_allocation().heap.insert(h, o),
            ..self.before_allocation()
        }
    }

    /// No object is under `h` at the point where the next object is allocated.
    pub open spec fn fresh(self, h: usize) -> bool {
        !self.before_allocation().heap.contains_key(h)
    }

    /// Call the closure under `closure` with the `argc` arguments at the top of the
    /// stack: start a frame whose slots begin at the value below the arguments.
    pub open spec fn call_closure(self, closure: usize, argc: u8) -> Outcome {
        let arity = self.function_of(closure).arity;
        if argc != arity {
            Err((self, Fault::InvalidArgumentsCount { arity, argc }))
        } else if self.stack.len() < argc + 1 {
            Err((self, Fault::StackUnderflow))
        } else if self.frames.len() >= VM_FRAMES_MAX {
            Err((self, Fault::StackOverflow))
        } else {
            goes_on(
                Machine {
                    frames: self.frames.push(
                        CallFrame {
                            closure,
                            ip: 0,
                            slot: (self.stack.len() - argc - 1) as usize,
                        },
                    ),
                    ..self
                },
            )
        }
    }

    /// The machine with the value `argc` places below the top of the stack replaced.
    pub open spec fn placed(self, argc: u8, value: Value) -> Machine {
        self.with_stack(self.stack.update(self.stack.len() - 1 - argc, value))
    }

    /// Call a native function with the `argc` arguments at the top of the stack: the
    /// callee and the arguments are replaced by what the function returns; a function
    /// that is called with another number of arguments is not run.
    pub open spec fn call_native(
        self,
        native: ObjNativeFun,
        argc: u8,
        post: Machine,
        r: Result<Signal, Fault>,
    ) -> bool {
        if argc != native.arity {
            fails(self, post, r, Fault::InvalidArgumentsCount { arity: native.arity, argc })
        } else if self.stack.len() < argc + 1 {
            fails(self, post, r, Fault::StackUnderflow)
        } else {
            exists|value: Value|
                yields(native.native, value) && #[trigger] is(
                    goes_on(
                        self.with_stack(
                            self.stack.subrange(0, self.stack.len() - argc - 1).push(value),
                        ),
                    ),
                    post,
                    r,
                )
        }
    }

    /// The method of the class under `class` whose name has the given text.
    pub open spec fn method_named(self, class: usize, text: Seq<char>) -> Option<usize> {
        let methods = self.heap[class]->Class_methods;
        if exists|k: usize| #[trigger]
            methods.contains_key(k) && self.heap[k] == ObjectView::String(text) {
            let k = choose|k: usize| #[trigger]
                methods.contains_key(k) && self.heap[k] == ObjectView::String(text);
            Some(methods[k])
        } else {
            None
        }
    }

    /// What calling the class under `class` goes on with once the instance under `h`
    /// has taken the place of the class on the stack: the initializer of the class, if
    /// it has one; without one the class takes no arguments.
    pub open spec fn initialize(self, class: usize, argc: u8) -> Outcome {
        match self.method_named(class, "init"@) {
            Some(init) => self.call_closure(init, argc),
            None => if argc != 0 {
                Err((self, Fault::InvalidArgumentsCount { arity: 0, argc }))
            } else {
                goes_on(self)
            },
        }
    }

    /// Call the class under `class` with the `argc` arguments at the top of the stack:
    /// a new instance takes the place of the class on the stack, and its initializer
    /// is called.
    pub open spec fn call_class(
        self,
        class: usize,
        argc: u8,
        post: Machine,
        r: Result<Signal, Fault>,
    ) -> bool {
        if self.stack.len() < argc + 1 {
            fails(self, post, r, Fault::StackUnderflow)
        } else {
            exists|h: usize|
                self.fresh(h) && #[trigger] is(
                    self.allocated(
                        ObjectView::Instance { class, fields: Map::empty() },
                        h,
                    ).placed(argc, Value::Object(h)).initialize(class, argc),
                    post,
                    r,
                )
        }
    }

    /// Call the value `argc` places below the top of the stack with the `argc`
    /// arguments above it.
    pub open spec fn call_value(self, argc: u8, post: Machine, r: Result<Signal, Fault>) -> bool {
        if self.stack.len() < argc + 1 {
            fails(self, post, r, Fault::StackUnderflow)
        } else {
            match self.top(argc as int) {
                Value::Object(h) => match self.heap[h] {
                    ObjectView::Closure { .. } => is(self.call_closure(h, argc), post, r),
                    ObjectView::NativeFun(native) => self.call_native(native, argc, post, r),
                    ObjectView::Class { .. } => self.call_class(h, argc, post, r),
                    ObjectView::BoundMethod(bound) => is(
                        self.placed(argc, bound.receiver).call_closure(bound.method, argc),
                        post,
                        r,
                    ),
                    _ => fails(self, post, r, Fault::InvalidCallee),
                },
                _ => fails(self, post, r, Fault::InvalidCallee),
            }
        }
    }

    /// Call the method called `name` of the class under `class`.
    pub open spec fn invoke_from_class(self, class: usize, name: usize, argc: u8) -> Outcome {
        let methods = self.heap[class]->Class_methods;
        if !methods.contains_key(name) {
            Err((self, Fault::UndefinedProperty(self.text(name))))
        } else {
            self.call_closure(methods[name], argc)
        }
    }

    /// Invoke the property named by the constant `k` on the receiver `argc` places below
    /// the top of the stack: a field of that name is called as a value; otherwise the
    /// method of that name of the receiver's class is called.
    pub open spec fn op_invoke(self, k: u8, argc: u8, post: Machine, r: Result<Signal, Fault>) -> bool {
        match self.string_constant(k) {
            Err(fault) => fails(self, post, r, fault),
            Ok(name) => if self.stack.len() < argc + 1 {
                fails(self, post, r, Fault::StackUnderflow)
            } else {
                match self.top(argc as int) {
                    Value::Object(h) => match self.heap[h] {
                        ObjectView::Instance { class, fields } => if fields.contains_key(name) {
                            self.placed(argc, fields[name]).call_value(argc, post, r)
                        } else {
                            is(self.invoke_from_class(class, name, argc), post, r)
                        },
                        _ => fails(self, post, r, Fault::OnlyInstancesHaveMethods),
                    },
                    _ => fails(self, post, r, Fault::OnlyInstancesHaveMethods),
                }
            },
        }
    }

    /// The class that the value is, if it is one.
    pub open spec fn as_class(self, value: Value) -> Option<usize> {
        match value {
            Value::Object(h) => if has_kind(self.heap, h, ObjectKind::Class) {
                Some(h)
            } else {
                None
            },
            _ => None,
        }
    }

    /// The instance that the value is, if it is one.
    pub open spec fn as_instance(self, value: Value) -> Option<usize> {
        match value {
            Value::Object(h) => if has_kind(self.heap, h, ObjectKind::Instance) {
                Some(h)
            } else {
                None
            },
            _ => None,
        }
    }

    /// The closure that the value is, if it is one.
    pub open spec fn as_closure(self, value: Value) -> Option<usize> {
        match value {
            Value::Object(h) => if has_kind(self.heap, h, ObjectKind::Closure) {
                Some(h)
            } else {
                None
            },
            _ => None,
        }
    }

    /// The string that the value is, if it is one.
    pub open spec fn as_string(self, value: Value) -> Option<usize> {
        match value {
            Value::Object(h) => if has_kind(self.heap, h, ObjectKind::String) {
                Some(h)
            } else {
                None
            },
            _ => None,
        }
    }

    /// Pop the superclass off the stack and call its method named by the constant `k`
    /// on the receiver below the arguments. What was popped stays popped where it is no
    /// class or has no such method, and where the call fails.
    pub open spec fn op_super_invoke(self, k: u8, argc: u8) -> Outcome {
        match self.string_constant(k) {
            Err(fault) => Err((self, fault)),
            Ok(name) => if self.stack.len() == 0 {
                Err((self, Fault::StackUnderflow))
            } else {
                match self.as_class(self.top(0)) {
                    None => Err((self.popped(), Fault::Object(ObjectError::InvalidCast))),
                    Some(superclass) => self.popped().invoke_from_class(
                        superclass,
                        name,
                        argc,
                    ),
                }
            },
        }
    }

    /// Close the upvalue for the variable at the top of the stack and pop the variable.
    pub open spec fn op_close_upvalue(self) -> Outcome {
        if self.stack.len() == 0 {
            Err((self, Fault::StackUnderflow))
        } else {
            let last = (self.stack.len() - 1) as usize;
            if !self.can_close(last) {
                Err((self, Fault::StackUnderflow))
            } else {
                let after = self.closed_from(last);
                goes_on(after.with_stack(after.stack.drop_last()))
            }
        }
    }

    /// Return from the call in progress: the result is popped, the upvalues of the
    /// frame are closed and the frame is dropped. If it was the outermost frame, the
    /// closure of the program is popped and the program is done; otherwise the result
    /// takes the place of the slots of the frame.
    pub open spec fn op_ret(self) -> Outcome {
        if self.stack.len() == 0 {
            Err((self, Fault::StackUnderflow))
        } else {
            let result = self.top(0);
            let slot = self.frame().slot;
            let popped = self.with_stack(self.stack.drop_last());
            if !popped.can_close(slot) {
                Err((popped, Fault::StackUnderflow))
            } else {
                let after = popped.closed_from(slot);
                let returned = Machine { frames: after.frames.drop_last(), ..after };
                if returned.frames.len() == 0 {
                    if returned.stack.len() == 0 {
                        Err((returned, Fault::StackUnderflow))
                    } else {
                        Ok((returned.with_stack(returned.stack.drop_last()), Signal::Done))
                    }
                } else if slot > returned.stack.len() {
                    Err((returned, Fault::StackUnderflow))
                } else {
                    goes_on(
                        returned.with_stack(returned.stack.subrange(0, slot as int).push(result)),
                    )
                }
            }
        }
    }

    /// Create a class with the name that the constant `k` gives and push it.
    pub open spec fn op_class(self, k: u8, post: Machine, r: Result<Signal, Fault>) -> bool {
        match self.string_constant(k) {
            Err(fault) => fails(self, post, r, fault),
            Ok(name) => exists|h: usize|
                self.fresh(h) && #[trigger] is(
                    self.allocated(ObjectView::Class { name, methods: Map::empty() }, h).pushing(
                        Value::Object(h),
                    ),
                    post,
                    r,
                ),
        }
    }

    /// Copy the methods of the superclass below the top of the stack into the subclass
    /// at the top, and pop the subclass.
    pub open spec fn op_inherit(self) -> Outcome {
        if self.stack.len() < 2 {
            Err((self, Fault::StackUnderflow))
        } else {
            match self.as_class(self.top(1)) {
                None => Err((self, Fault::InvalidSuperclass)),
                Some(superclass) => match self.as_class(self.top(0)) {
                    None => Err((self, Fault::Object(ObjectError::InvalidCast))),
                    Some(subclass) => goes_on(
                        Machine {
                            heap: self.heap.insert(
                                subclass,
                                ObjectView::Class {
                                    name: self.heap[subclass]->Class_name,
                                    methods: self.heap[subclass]->Class_methods.union_prefer_right(
                                        self.heap[superclass]->Class_methods,
                                    ),
                                },
                            ),
                            stack: self.stack.drop_last(),
                            ..self
                        },
                    ),
                },
            }
        }
    }

    /// Pop the closure at the top of the stack and store it in the class below it as
    /// the method that the constant `k` names. What was popped stays popped where it is
    /// no closure or what is below it is no class.
    pub open spec fn op_method(self, k: u8) -> Outcome {
        match self.string_constant(k) {
            Err(fault) => Err((self, fault)),
            Ok(name) => if self.stack.len() == 0 {
                Err((self, Fault::StackUnderflow))
            } else {
                match self.as_closure(self.top(0)) {
                    None => Err((self.popped(), Fault::Object(ObjectError::InvalidCast))),
                    Some(closure) => if self.stack.len() < 2 {
                        Err((self.popped(), Fault::StackUnderflow))
                    } else {
                        match self.as_class(self.top(1)) {
                            None => Err((self.popped(), Fault::Object(ObjectError::InvalidCast))),
                            Some(class) => goes_on(
                                Machine {
                                    heap: self.heap.insert(
                                        class,
                                        ObjectView::Class {
                                            name: self.heap[class]->Class_name,
                                            methods: self.heap[class]->Class_methods.insert(
                                                name,
                                                closure,
                                            ),
                                        },
                                    ),
                                    stack: self.stack.drop_last(),
                                    ..self
                                },
                            ),
                        }
                    },
                }
            },
        }
    }

    /// Replace the instance at the top of the stack by its property that the constant
    /// `k` names: the field of that name, or else the method of that name of its class,
    /// bound to the instance.
    pub open spec fn op_get_property(self, k: u8, post: Machine, r: Result<Signal, Fault>) -> bool {
        match self.string_constant(k) {
            Err(fault) => fails(self, post, r, fault),
            Ok(name) => if self.stack.len() == 0 {
                fails(self, post, r, Fault::StackUnderflow)
            } else {
                match self.as_instance(self.top(0)) {
                    None => fails(self, post, r, Fault::OnlyInstancesHaveProperties),
                    Some(instance) => {
                        let fields = self.heap[instance]->Instance_fields;
                        let methods = self.heap[self.heap[instance]->Instance_class]->Class_methods;
                        if fields.contains_key(name) {
                            is(goes_on(self.replacing_top(fields[name])), post, r)
                        } else if methods.contains_key(name) {
                            exists|h: usize|
                                self.fresh(h) && #[trigger] is(
                                    goes_on(
                                        self.allocated(
                                            ObjectView::BoundMethod(
                                                ObjBoundMethod {
                                                    receiver: self.top(0),
                                                    method: methods[name],
                                                },
                                            ),
                                            h,
                                        ).replacing_top(Value::Object(h)),
                                    ),
                                    post,
                                    r,
                                )
                        } else {
                            fails(self, post, r, Fault::UndefinedProperty(self.text(name)))
                        }
                    },
                }
            },
        }
    }

    /// Store the value at the top of the stack as the field that the constant `k` names
    /// of the instance below it; the value takes the place of both. Where what is below
    /// it is no instance, the value has been popped.
    pub open spec fn op_set_property(self, k: u8) -> Outcome {
        match self.string_constant(k) {
            Err(fault) => Err((self, fault)),
            Ok(name) => if self.stack.len() < 2 {
                Err((self, Fault::StackUnderflow))
            } else {
                match self.as_instance(self.top(1)) {
                    None => Err((self.popped(), Fault::OnlyInstancesHaveFields)),
                    Some(instance) => goes_on(
                        Machine {
                            heap: self.heap.insert(
                                instance,
                                ObjectView::Instance {
                                    class: self.heap[instance]->Instance_class,
                                    fields: self.heap[instance]->Instance_fields.insert(
                                        name,
                                        self.top(0),
                                    ),
                                },
                            ),
                            ..self
                        }.replacing_two(self.top(0)),
                    ),
                }
            },
        }
    }

    /// Replace the superclass at the top of the stack and the receiver below it by the
    /// method of the superclass that the constant `k` names, bound to the receiver. What
    /// is at the top has been popped where it is no class or has no such method.
    pub open spec fn op_get_super(self, k: u8, post: Machine, r: Result<Signal, Fault>) -> bool {
        match self.string_constant(k) {
            Err(fault) => fails(self, post, r, fault),
            Ok(name) => if self.stack.len() == 0 {
                fails(self, post, r, Fault::StackUnderflow)
            } else {
                match self.as_class(self.top(0)) {
                    None => fails(self.popped(), post, r, Fault::Object(ObjectError::InvalidCast)),
                    Some(superclass) => {
                        let methods = self.heap[superclass]->Class_methods;
                        if !methods.contains_key(name) {
                            fails(self.popped(), post, r, Fault::UndefinedProperty(self.text(name)))
                        } else if self.stack.len() < 2 {
                            fails(self.popped(), post, r, Fault::StackUnderflow)
                        } else {
                            exists|h: usize|
                                self.fresh(h) && #[trigger] is(
                                    goes_on(
                                        self.allocated(
                                            ObjectView::BoundMethod(
                                                ObjBoundMethod {
                                                    receiver: self.top(1),
                                                    method: methods[name],
                                                },
                                            ),
                                            h,
                                        ).replacing_two(Value::Object(h)),
                                    ),
                                    post,
                                    r,
                                )
                        }
                    },
                }
            },
        }
    }

    /// Add the two values at the top of the stack: two numbers are handed out for the
    /// addition; two strings are replaced by the interned string of their texts joined.
    pub open spec fn op_add(self, post: Machine, r: Result<Signal, Fault>) -> bool {
        if self.stack.len() < 2 {
            fails(self, post, r, Fault::StackUnderflow)
        } else {
            match self.top(1).number_pair(self.top(0)) {
                Some((a, b)) => is(
                    Ok(
                        (
                            self.with_stack(self.stack.drop_last().drop_last()),
                            Signal::Arithmetic(Opcode::Add, a, b),
                        ),
                    ),
                    post,
                    r,
                ),
                None => match (self.as_string(self.top(1)), self.as_string(self.top(0))) {
                    (Some(lhs), Some(rhs)) => exists|h: usize, mid: Machine|
                        #[trigger] self.interns(mid, self.text(lhs) + self.text(rhs), h) && is(
                            goes_on(mid.replacing_two(Value::Object(h))),
                            post,
                            r,
                        ),
                    _ => fails(
                        self,
                        post,
                        r,
                        Fault::Value(ValueError::OperandsMustBeNumbersOrStrings),
                    ),
                },
            }
        }
    }
}

impl Machine {
    /// The function that the value is, if it is one.
    pub open spec fn as_fun(self, value: Value) -> Option<usize> {
        match value {
            Value::Object(h) => if has_kind(self.heap, h, ObjectKind::Fun) {
                Some(h)
            } else {
                None
            },
            _ => None,
        }
    }

    /// The machine after a new open upvalue for the stack slot `location` has been
    /// allocated under `u` and put on the list of open upvalues.
    pub open spec fn captured_as(self, u: usize, location: usize) -> Machine {
        let base = self.before_allocation();
        Machine {
            heap: base.heap.insert(u, ObjectView::Upvalue(ObjUpvalue::Open(location))),
            open_upvalues: base.open_upvalues.push(u),
            ..base
        }
    }

    /// `post` is what the machine becomes when the stack slot `location` is captured:
    /// nothing changes if the list of open upvalues holds an upvalue for the slot;
    /// otherwise a new one is allocated.
    pub open spec fn capture_step(self, post: Machine, location: usize) -> bool {
        match self.find_open(location) {
            Some(_) => post == self,
            None => exists|u: usize| self.fresh(u) && #[trigger] self.captured_as(u, location) == post,
        }
    }

    /// The state at place `i + 1` of `states` is what the state at place `i` becomes
    /// when pair `i` is worked off: a pair is a flag, 1 for a local variable of the
    /// frame whose slots start at `base`, and an index; a local variable is captured.
    pub open spec fn capture_at(
        states: Seq<Machine>,
        base: usize,
        pairs: Seq<(u8, u8)>,
        i: int,
    ) -> bool {
        if pairs[i].0 == 1 {
            states[i].capture_step(states[i + 1], (base + pairs[i].1) as usize)
        } else {
            states[i + 1] == states[i]
        }
    }

    /// `states` are the states that the machine goes through when the local variables
    /// that `pairs` name are captured one after the other.
    pub open spec fn captures_along(
        self,
        states: Seq<Machine>,
        base: usize,
        pairs: Seq<(u8, u8)>,
    ) -> bool {
        &&& states.len() == pairs.len() + 1
        &&& states[0] == self
        &&& forall|i: int| 0 <= i < pairs.len() ==> #[trigger] Self::capture_at(states, base, pairs, i)
    }

    /// `post` is what the machine becomes when the local variables that `pairs` name
    /// are captured one after the other.
    pub open spec fn captures(self, post: Machine, base: usize, pairs: Seq<(u8, u8)>) -> bool {
        exists|states: Seq<Machine>| #[trigger]
            self.captures_along(states, base, pairs) && states.last() == post
    }

    /// The upvalues of a closure made from `pairs`: for a local variable the open
    /// upvalue of its stack slot, otherwise the upvalue of the enclosing closure at
    /// the index.
    pub open spec fn closure_upvalues(
        self,
        enclosing: Seq<usize>,
        base: usize,
        pairs: Seq<(u8, u8)>,
    ) -> Seq<usize> {
        Seq::new(
            pairs.len(),
            |i: int|
                if pairs[i].0 == 1 {
                    self.find_open((base + pairs[i].1) as usize).unwrap()
                } else {
                    enclosing[pairs[i].1 as int]
                },
        )
    }

    /// A pair asks for an upvalue that the enclosing closure does not have.
    pub open spec fn bad_pair(enclosing: Seq<usize>, pair: (u8, u8)) -> bool {
        pair.0 != 1 && pair.1 >= enclosing.len()
    }

    /// Create a closure of the function that the constant `k` names, with the upvalues
    /// that `pairs` name, and push it.
    pub open spec fn op_closure(
        self,
        k: u8,
        pairs: Seq<(u8, u8)>,
        post: Machine,
        r: Result<Signal, Fault>,
    ) -> bool {
        if k >= self.constants().len() {
            fails(self, post, r, Fault::MalformedChunk)
        } else {
            match self.as_fun(self.constants()[k as int]) {
                None => fails(self, post, r, Fault::Object(ObjectError::InvalidCast)),
                Some(f) => {
                    let enclosing = self.upvalues_of(self.frame().closure);
                    let base = self.frame().slot;
                    if pairs.len() != self.heap[f]->Fun_0.upvalue_count || (exists|i: int|
                        0 <= i < pairs.len() && Self::bad_pair(enclosing, #[trigger] pairs[i])) {
                        fails(self, post, r, Fault::MalformedChunk)
                    } else {
                        exists|mid: Machine, h: usize|
                            self.captures(mid, base, pairs) && mid.fresh(h) && #[trigger] is(
                                mid.allocated(
                                    ObjectView::Closure {
                                        fun: f,
                                        upvalues: mid.closure_upvalues(enclosing, base, pairs),
                                    },
                                    h,
                                ).pushing(Value::Object(h)),
                                post,
                                r,
                            )
                    }
                },
            }
        }
    }
}

/// The number of operand bytes that follow an opcode; the pairs that follow the operand
/// of `Closure` are not counted.
pub open spec fn operand_bytes(op: Opcode) -> int {
    match op {
        Opcode::Const
        | Opcode::GetLocal
        | Opcode::SetLocal
        | Opcode::GetGlobal
        | Opcode::SetGlobal
        | Opcode::DefineGlobal
        | Opcode::GetUpvalue
        | Opcode::SetUpvalue
        | Opcode::GetProperty
        | Opcode::SetProperty
        | Opcode::GetSuper
        | Opcode::Call
        | Opcode::Closure
        | Opcode::Class
        | Opcode::Method => 1,
        Opcode::Jump
        | Opcode::JumpIfTrue
        | Opcode::JumpIfFalse
        | Opcode::Loop
        | Opcode::Invoke
        | Opcode::SuperInvoke => 2,
        _ => 0,
    }
}

/// The number that two operand bytes give, the high byte first.
pub open spec fn short(a: u8, b: u8) -> u16 {
    (a * 256 + b) as u16
}

impl Machine {
    /// Moving the instruction pointer on within the instruction stream moves it on byte
    /// by byte.
    pub proof fn lemma_advanced(self, a: int, b: int)
        requires
            self.ok(),
            self.frames.len() > 0,
            0 <= a,
            0 <= b,
            self.can_fetch(a),
        ensures
            self.code().len() <= usize::MAX,
            self.advanced(a).ok(),
            self.advanced(a).frames.len() == self.frames.len(),
            self.advanced(a).frame().ip == self.frame().ip + a,
            self.advanced(a).frame().slot == self.frame().slot,
            self.advanced(a).frame().closure == self.frame().closure,
            self.advanced(a).code() == self.code(),
            self.advanced(a).constants() == self.constants(),
            self.advanced(a).can_fetch(b) == self.can_fetch(a + b),
            self.advanced(a).operand(b) == self.operand(a + b),
            self.can_fetch(a + b) ==> self.advanced(a).advanced(b) == self.advanced(a + b),
            self.advanced(0) == self,
    {
        let closure = self.frame().closure;
        assert(has_kind(self.heap, closure, ObjectKind::Closure));
        assert(valid_at(self.heap, closure));
        assert(valid_at(self.heap, self.heap[closure]->Closure_fun));
        self.lemma_with_ip((self.frame().ip + a) as usize);
        let after = self.advanced(a);
        assert forall|i: int| 0 <= i < after.frames.len() implies has_kind(
            after.heap,
            (#[trigger] after.frames[i]).closure,
            ObjectKind::Closure,
        ) && after.frames[i].slot <= VM_STACK_SIZE by {
            assert(has_kind(self.heap, self.frames[i].closure, ObjectKind::Closure));
        }
        assert forall|i: int| 0 <= i < after.open_upvalues.len() implies after.open_slot(
            #[trigger] after.open_upvalues[i],
        ) is Some by {
            assert(self.open_slot(self.open_upvalues[i]) is Some);
        }
    }

    /// What an instruction other than `Closure` does, once its operands `a` and `b`
    /// have been read.
    pub open spec fn execute(
        self,
        op: Opcode,
        a: u8,
        b: u8,
        post: Machine,
        r: Result<Signal, Fault>,
    ) -> bool {
        match op {
            Opcode::Const => is(self.op_const(a), post, r),
            Opcode::Nil => is(self.pushing(Value::Nil), post, r),
            Opcode::True => is(self.pushing(Value::Bool(true)), post, r),
            Opcode::False => is(self.pushing(Value::Bool(false)), post, r),
            Opcode::Pop => is(self.op_pop(), post, r),
            Opcode::GetLocal => is(self.op_get_local(a), post, r),
            Opcode::SetLocal => is(self.op_set_local(a), post, r),
            Opcode::GetGlobal => is(self.op_get_global(a), post, r),
            Opcode::SetGlobal => is(self.op_set_global(a), post, r),
            Opcode::DefineGlobal => is(self.op_define_global(a), post, r),
            Opcode::GetUpvalue => is(self.op_get_upvalue(a), post, r),
            Opcode::SetUpvalue => is(self.op_set_upvalue(a), post, r),
            Opcode::GetProperty => self.op_get_property(a, post, r),
            Opcode::SetProperty => is(self.op_set_property(a), post, r),
            Opcode::GetSuper => self.op_get_super(a, post, r),
            Opcode::NE => is(self.op_equal(true), post, r),
            Opcode::EQ => is(self.op_equal(false), post, r),
            Opcode::GT | Opcode::GE | Opcode::LT | Opcode::LE => is(self.op_order(op), post, r),
            Opcode::Add => self.op_add(post, r),
            Opcode::Sub | Opcode::Mul | Opcode::Div => is(self.op_arithmetic(op), post, r),
            Opcode::Not => is(self.op_not(), post, r),
            Opcode::Neg => is(self.op_neg(), post, r),
            Opcode::Print => is(self.op_print(), post, r),
            Opcode::Jump => is(self.op_jump(short(a, b)), post, r),
            Opcode::JumpIfTrue => is(self.op_jump_if(true, short(a, b)), post, r),
            Opcode::JumpIfFalse => is(self.op_jump_if(false, short(a, b)), post, r),
            Opcode::Loop => is(self.op_loop(short(a, b)), post, r),
            Opcode::Call => self.call_value(a, post, r),
            Opcode::Invoke => self.op_invoke(a, b, post, r),
            Opcode::SuperInvoke => is(self.op_super_invoke(a, b), post, r),
            Opcode::Closure => false,
            Opcode::CloseUpvalue => is(self.op_close_upvalue(), post, r),
            Opcode::Ret => is(self.op_ret(), post, r),
            Opcode::Class => self.op_class(a, post, r),
            Opcode::Inherit => is(self.op_inherit(), post, r),
            Opcode::Method => is(self.op_method(a), post, r),
        }
    }

    /// The pairs that follow the operand of a `Closure` instruction.
    pub open spec fn pairs(self, count: int) -> Seq<(u8, u8)> {
        Seq::new(count as nat, |i: int| (self.operand(2 * i), self.operand(2 * i + 1)))
    }

    /// What a `Closure` instruction does, once its operand `k` has been read: it reads
    /// a pair for each upvalue of the function that the constant `k` names, and
    /// creates the closure. Where the instruction stream does not hold all the pairs,
    /// none is read.
    pub open spec fn closure_step(self, k: u8, post: Machine, r: Result<Signal, Fault>) -> bool {
        if k >= self.constants().len() {
            fails(self, post, r, Fault::MalformedChunk)
        } else {
            match self.as_fun(self.constants()[k as int]) {
                None => fails(self, post, r, Fault::Object(ObjectError::InvalidCast)),
                Some(f) => {
                    let count = self.heap[f]->Fun_0.upvalue_count as int;
                    if !self.can_fetch(2 * count) {
                        fails(self, post, r, Fault::MalformedChunk)
                    } else {
                        self.advanced(2 * count).op_closure(k, self.pairs(count), post, r)
                    }
                },
            }
        }
    }

    /// What the next instruction does: `post` is the state that it leaves, `r` what it
    /// asks of the host, or the runtime error that it ends in. A byte that is no opcode,
    /// and an opcode whose operands the instruction stream does not hold, end in an
    /// error with that byte read and nothing else.
    pub open spec fn step(self, post: Machine, r: Result<Signal, Fault>) -> bool {
        if !self.can_fetch(1) {
            fails(self, post, r, Fault::MalformedChunk)
        } else {
            match Opcode::decode(self.operand(0)) {
                None => fails(self.advanced(1), post, r, Fault::InvalidOpcode(self.operand(0))),
                Some(op) => {
                    let n = operand_bytes(op);
                    if !self.can_fetch(1 + n) {
                        fails(self.advanced(1), post, r, Fault::MalformedChunk)
                    } else if op == Opcode::Closure {
                        self.advanced(2).closure_step(self.operand(1), post, r)
                    } else {
                        self.advanced(1 + n).execute(op, self.operand(1), self.operand(2), post, r)
                    }
                },
            }
        }
    }
}

impl Machine {
    /// The state at place `i + 1` of `states` is what the instruction that is run in
    /// the state at place `i` leaves, and the instruction asks nothing of the host.
    pub open spec fn step_at(states: Seq<Machine>, i: int) -> bool {
        states[i].step(states[i + 1], Ok::<Signal, Fault>(Signal::Continue))
    }

    /// `states` are the states that the machine goes through while it runs instructions
    /// that ask nothing of the host.
    pub open spec fn runs_along(self, states: Seq<Machine>) -> bool {
        &&& states.len() > 0
        &&& states[0] == self
        &&& forall|i: int| 0 <= i < states.len() - 1 ==> #[trigger] Self::step_at(states, i)
    }

    /// What running at most `steps` instructions comes to: the machine runs
    /// instructions until one asks something of the host or ends in an error, and
    /// `r` is what that instruction came to; or it runs `steps` instructions that ask
    /// nothing, and `r` is `Continue`.
    pub open spec fn runs(self, steps: int, post: Machine, r: Result<Signal, Fault>) -> bool {
        exists|states: Seq<Machine>| #[trigger]
            self.runs_along(states) && ((states.len() - 1 == steps && states.last() == post && r
                == Ok::<Signal, Fault>(Signal::Continue)) || (states.len() - 1 < steps && r
                != Ok::<Signal, Fault>(Signal::Continue) && states.last().step(post, r)))
    }

    /// What starting a program comes to: the function of the program is put into the
    /// heap, a closure of it is allocated and pushed, and the closure is called without
    /// arguments.
    pub open spec fn starts(self, fun: FunView, post: Machine, r: Result<Signal, Fault>) -> bool {
        if !object_ok(self.heap, ObjectView::Fun(fun)) {
            fails(self, post, r, Fault::Object(ObjectError::InvalidCast))
        } else if fun.upvalue_count != 0 {
            fails(self, post, r, Fault::MalformedChunk)
        } else if self.stack.len() >= VM_STACK_SIZE {
            fails(self, post, r, Fault::StackOverflow)
        } else {
            exists|f: usize, c: usize|
                !self.heap.contains_key(f) && self.defined(fun, f).fresh(c) && #[trigger] is(
                    self.defined(fun, f).allocated(
                        ObjectView::Closure { fun: f, upvalues: Seq::empty() },
                        c,
                    ).replacing_top(Value::Object(c)).call_closure(c, 0),
                    post,
                    r,
                )
        }
    }

    /// The machine after the function of a program has been put into the heap under
    /// `f` and pushed.
    pub open spec fn defined(self, fun: FunView, f: usize) -> Machine {
        Machine {
            heap: self.heap.insert(f, ObjectView::Fun(fun)),
            stack: self.stack.push(Value::Object(f)),
            ..self
        }
    }

    /// What interpreting a program for at most `steps` instructions comes to: the
    /// program is started and then run, unless starting it ends in an error.
    pub open spec fn interprets(
        self,
        fun: FunView,
        steps: int,
        post: Machine,
        r: Result<Signal, Fault>,
    ) -> bool {
        ||| exists|mid: Machine| #[trigger]
            self.starts(fun, mid, Ok::<Signal, Fault>(Signal::Continue)) && mid.runs(
                steps,
                post,
                r,
            )
        ||| r is Err && self.starts(fun, post, r)
    }

    /// What the host sees of a function: `<script>` for the function of a program,
    /// else its name.
    pub open spec fn function_label(self, f: usize) -> Seq<char> {
        match self.heap[f]->Fun_0.name {
            None => "<script>"@,
            Some(name) => "<fn "@ + self.text(name) + ">"@,
        }
    }

    /// What the host sees of the object under `h`.
    pub open spec fn rendered(self, h: usize) -> Seq<char> {
        match self.heap[h] {
            ObjectView::String(text) => text,
            ObjectView::Upvalue(_) => "upvalue"@,
            ObjectView::Closure { fun, .. } => self.function_label(fun),
            ObjectView::Fun(_) => self.function_label(h),
            ObjectView::NativeFun(_) => "<native fn>"@,
            ObjectView::Class { name, .. } => self.text(name),
            ObjectView::Instance { class, .. } => self.text(self.heap[class]->Class_name)
                + " instance"@,
            ObjectView::BoundMethod(bound) => self.function_label(
                self.heap[bound.method]->Closure_fun,
            ),
        }
    }
}

impl Machine {
    /// `line` and `name` are what the trace shows of the call `frame`: the source line
    /// of the instruction before the instruction pointer, where there is one, and the
    /// name of the function that was called.
    pub open spec fn traced(
        self,
        frame: CallFrame,
        line: Option<usize>,
        name: Option<Seq<char>>,
    ) -> bool {
        let fun = self.function_of(frame.closure);
        &&& line == (if 0 < frame.ip <= fun.lines.len() {
            Some(fun.lines[frame.ip - 1])
        } else {
            None
        })
        &&& name == (match fun.name {
            Some(n) => Some(self.text(n)),
            None => None,
        })
    }
}

} // verus!
