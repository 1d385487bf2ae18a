//! The instructions of the virtual machine, each with the proof that it does what the
//! semantics say.

use vstd::prelude::*;

use crate::graph::{has_kind, object_ok, value_ok};
use crate::machine::{Fault, Machine};
use crate::object::{ObjClosure, ObjFun, Object, ObjectError, ObjectKind, ObjectView};
use crate::opcode::Opcode;
use crate::semantics::{Outcome, Signal, is};
use crate::value::Value;
use crate::vm::{RuntimeError, VirtualMachine};

verus! {

/// A result with its error as a mathematical value.
pub open spec fn observed(r: Result<Signal, RuntimeError>) -> Result<Signal, Fault> {
    match r {
        Ok(signal) => Ok(signal),
        Err(e) => Err(e@),
    }
}

/// The machine has come to `post` with the result `r`, as `expected`: the same state,
/// and the same signal or the same error.
pub open spec fn agrees(expected: Outcome, post: Machine, r: Result<Signal, RuntimeError>) -> bool {
    is(expected, post, observed(r))
}

impl VirtualMachine {
    /// The closure object under `closure`.
    pub(crate) fn closure(&self, closure: usize) -> (r: Option<&ObjClosure>)
        requires
            self.wf(),
            has_kind(self@.heap, closure, ObjectKind::Closure),
        ensures
            r matches Some(c) && self@.heap[closure] == (ObjectView::Closure {
                fun: c.fun,
                upvalues: c.upvalues@,
            }) && object_ok(self@.heap, self@.heap[closure]),
    {
        match self.object(closure) {
            Some(object) => match object.as_closure() {
                Ok(c) => Some(c),
                Err(_) => None,
            },
            None => None,
        }
    }

    /// The function of the closure under `closure`.
    pub(crate) fn function(&self, closure: usize) -> (r: Option<&ObjFun>)
        requires
            self.wf(),
            has_kind(self@.heap, closure, ObjectKind::Closure),
        ensures
            r matches Some(f) && f@ == self@.function_of(closure) && f.chunk.wf() && object_ok(
                self@.heap,
                ObjectView::Fun(f@),
            ),
    {
        match self.closure(closure) {
            Some(c) => match self.object(c.fun) {
                Some(object) => match object.as_fun() {
                    Ok(f) => Some(f),
                    Err(_) => None,
                },
                None => None,
            },
            None => None,
        }
    }

    /// The text of the string under `h`.
    pub(crate) fn text(&self, h: usize) -> (text: String)
        requires
            self.wf(),
            has_kind(self@.heap, h, ObjectKind::String),
        ensures
            text@ == self@.text(h),
    {
        match self.object(h) {
            Some(Object::String(s)) => s.clone(),
            _ => String::new(),
        }
    }

    /// Read the next byte of the instruction stream.
    pub(crate) fn read_byte(&mut self) -> (r: Result<u8, RuntimeError>)
        requires
            old(self).wf(),
        ensures
            final(self).wf(),
            match r {
                Ok(byte) => old(self)@.can_fetch(1) && byte == old(self)@.operand(0)
                    && final(self)@ == old(self)@.advanced(1),
                Err(e) => e@ == Fault::MalformedChunk && !old(self)@.can_fetch(1) && final(self)@
                    == old(self)@,
            },
    {
        let frame = match self.frame() {
            Ok(frame) => frame,
            Err(e) => {
                return Err(e);
            },
        };
        let (byte, len) = match self.function(frame.closure) {
            Some(f) => (f.chunk.byte_at(frame.ip), f.chunk.len()),
            None => (None, 0),
        };
        match byte {
            Some(byte) => {
                assert(frame.ip < len);
                self.set_ip(frame.ip + 1);
                Ok(byte)
            },
            None => Err(RuntimeError::MalformedChunk),
        }
    }

    /// Whether the instruction stream holds `n` more bytes to read.
    pub(crate) fn can_read(&self, n: usize) -> (yes: bool)
        requires
            self.wf(),
        ensures
            yes == self@.can_fetch(n as int),
    {
        match self.frame() {
            Ok(frame) => {
                let len = match self.function(frame.closure) {
                    Some(f) => f.chunk.len(),
                    None => 0,
                };
                frame.ip <= len && n <= len - frame.ip
            },
            Err(_) => false,
        }
    }

    /// Read the next two bytes of the instruction stream as a number, the high byte
    /// first. Where fewer than two are left, none is read.
    pub(crate) fn read_short(&mut self) -> (r: Result<u16, RuntimeError>)
        requires
            old(self).wf(),
        ensures
            final(self).wf(),
            match r {
                Ok(short) => old(self)@.can_fetch(2) && short == old(self)@.operand(0) * 256
                    + old(self)@.operand(1) && final(self)@ == old(self)@.advanced(2),
                Err(e) => e@ == Fault::MalformedChunk && !old(self)@.can_fetch(2) && final(self)@
                    == old(self)@,
            },
    {
        if !self.can_read(2) {
            return Err(RuntimeError::MalformedChunk);
        }
        proof {
            self.lemma_wf();
            old(self)@.lemma_advanced(1, 1);
            old(self)@.lemma_advanced(0, 1);
            old(self)@.lemma_advanced(0, 2);
        }
        let hi = self.read_byte()?;
        let lo = self.read_byte()?;
        Ok(hi as u16 * 256 + lo as u16)
    }

    /// The constant `k` of the function that is being run.
    pub(crate) fn constant(&self, k: u8) -> (r: Result<Value, RuntimeError>)
        requires
            self.wf(),
            self@.frames.len() > 0,
        ensures
            match r {
                Ok(value) => k < self@.constants().len() && value == self@.constants()[k as int]
                    && value_ok(self@.heap, value),
                Err(e) => e@ == Fault::MalformedChunk && k >= self@.constants().len(),
            },
    {
        let frame = match self.frame() {
            Ok(frame) => frame,
            Err(e) => {
                return Err(e);
            },
        };
        let value = match self.function(frame.closure) {
            Some(f) => f.chunk.constant_at(k as usize),
            None => None,
        };
        match value {
            Some(value) => Ok(value),
            None => Err(RuntimeError::MalformedChunk),
        }
    }

    /// The string that the constant `k` of the function that is being run names.
    pub(crate) fn string_constant(&self, k: u8) -> (r: Result<usize, RuntimeError>)
        requires
            self.wf(),
            self@.frames.len() > 0,
        ensures
            match r {
                Ok(name) => self@.string_constant(k) == Ok::<usize, Fault>(name) && has_kind(
                    self@.heap,
                    name,
                    ObjectKind::String,
                ),
                Err(e) => self@.string_constant(k) == Err::<usize, Fault>(e@),
            },
    {
        match self.constant(k)? {
            Value::Object(h) => match self.object(h) {
                Some(Object::String(_)) => Ok(h),
                _ => Err(RuntimeError::Object(ObjectError::InvalidCast)),
            },
            _ => Err(RuntimeError::Object(ObjectError::InvalidCast)),
        }
    }

    /// Push a value and go on.
    pub(crate) fn pushing(&mut self, value: Value) -> (r: Result<Signal, RuntimeError>)
        requires
            old(self).wf(),
            value_ok(old(self)@.heap, value),
        ensures
            final(self).wf(),
            agrees(old(self)@.pushing(value), final(self)@, r),
    {
        self.stack_push(value)?;
        Ok(Signal::Continue)
    }

    /// Load a constant.
    pub(crate) fn op_const(&mut self, k: u8) -> (r: Result<Signal, RuntimeError>)
        requires
            old(self).wf(),
            old(self)@.frames.len() > 0,
        ensures
            final(self).wf(),
            agrees(old(self)@.op_const(k), final(self)@, r),
    {
        let value = self.constant(k)?;
        self.pushing(value)
    }

    /// Pop the top of the stack.
    pub(crate) fn op_pop(&mut self) -> (r: Result<Signal, RuntimeError>)
        requires
            old(self).wf(),
        ensures
            final(self).wf(),
            agrees(old(self)@.op_pop(), final(self)@, r),
    {
        self.stack_pop()?;
        Ok(Signal::Continue)
    }

    /// Get a local variable.
    pub(crate) fn op_get_local(&mut self, slot: u8) -> (r: Result<Signal, RuntimeError>)
        requires
            old(self).wf(),
            old(self)@.frames.len() > 0,
        ensures
            final(self).wf(),
            agrees(old(self)@.op_get_local(slot), final(self)@, r),
    {
        let frame = self.frame()?;
        proof {
            self.lemma_wf();
        }
        if frame.slot >= self.stack_len() {
            return Err(RuntimeError::StackUnderflow);
        }
        let value = self.stack_get(frame.slot + slot as usize)?;
        self.pushing(value)
    }

    /// Set a local variable to the value at the top of the stack.
    pub(crate) fn op_set_local(&mut self, slot: u8) -> (r: Result<Signal, RuntimeError>)
        requires
            old(self).wf(),
            old(self)@.frames.len() > 0,
        ensures
            final(self).wf(),
            agrees(old(self)@.op_set_local(slot), final(self)@, r),
    {
        let frame = self.frame()?;
        proof {
            self.lemma_wf();
        }
        if frame.slot >= self.stack_len() {
            return Err(RuntimeError::StackUnderflow);
        }
        let value = self.stack_top(0)?;
        self.stack_set(frame.slot + slot as usize, value)?;
        Ok(Signal::Continue)
    }

    /// Get a global variable.
    pub(crate) fn op_get_global(&mut self, k: u8) -> (r: Result<Signal, RuntimeError>)
        requires
            old(self).wf(),
            old(self)@.frames.len() > 0,
        ensures
            final(self).wf(),
            agrees(old(self)@.op_get_global(k), final(self)@, r),
    {
        let name = self.string_constant(k)?;
        match self.global_get(name) {
            Some(value) => self.pushing(value),
            None => Err(RuntimeError::UndefinedVariable(self.text(name))),
        }
    }

    /// Set a global variable that exists to the value at the top of the stack.
    pub(crate) fn op_set_global(&mut self, k: u8) -> (r: Result<Signal, RuntimeError>)
        requires
            old(self).wf(),
            old(self)@.frames.len() > 0,
        ensures
            final(self).wf(),
            agrees(old(self)@.op_set_global(k), final(self)@, r),
    {
        let name = self.string_constant(k)?;
        let value = self.stack_top(0)?;
        if self.global_get(name).is_none() {
            return Err(RuntimeError::UndefinedVariable(self.text(name)));
        }
        self.global_set(name, value);
        Ok(Signal::Continue)
    }

    /// Pop the top of the stack and define a global variable with that value.
    pub(crate) fn op_define_global(&mut self, k: u8) -> (r: Result<Signal, RuntimeError>)
        requires
            old(self).wf(),
            old(self)@.frames.len() > 0,
        ensures
            final(self).wf(),
            agrees(old(self)@.op_define_global(k), final(self)@, r),
    {
        let name = self.string_constant(k)?;
        let value = self.stack_pop()?;
        self.global_set(name, value);
        Ok(Signal::Continue)
    }

    /// The upvalue `slot` of the closure that is being run.
    pub(crate) fn current_upvalue(&self, slot: u8) -> (r: Result<usize, RuntimeError>)
        requires
            self.wf(),
            self@.frames.len() > 0,
        ensures
            match r {
                Ok(u) => slot < self@.upvalues_of(self@.frame().closure).len() && u
                    == self@.upvalues_of(self@.frame().closure)[slot as int] && has_kind(
                    self@.heap,
                    u,
                    ObjectKind::Upvalue,
                ),
                Err(e) => e@ == Fault::MalformedChunk && slot >= self@.upvalues_of(
                    self@.frame().closure,
                ).len(),
            },
    {
        let frame = self.frame()?;
        match self.closure(frame.closure) {
            Some(c) => if (slot as usize) < c.upvalues.len() {
                Ok(c.upvalues[slot as usize])
            } else {
                Err(RuntimeError::MalformedChunk)
            },
            None => Err(RuntimeError::MalformedChunk),
        }
    }

    /// Get a variable through an upvalue of the closure that is being run.
    pub(crate) fn op_get_upvalue(&mut self, slot: u8) -> (r: Result<Signal, RuntimeError>)
        requires
            old(self).wf(),
            old(self)@.frames.len() > 0,
        ensures
            final(self).wf(),
            agrees(old(self)@.op_get_upvalue(slot), final(self)@, r),
    {
        let u = self.current_upvalue(slot)?;
        let value = self.upvalue_get(u)?;
        self.pushing(value)
    }

    /// Set a variable through an upvalue of the closure that is being run to the value
    /// at the top of the stack.
    pub(crate) fn op_set_upvalue(&mut self, slot: u8) -> (r: Result<Signal, RuntimeError>)
        requires
            old(self).wf(),
            old(self)@.frames.len() > 0,
        ensures
            final(self).wf(),
            agrees(old(self)@.op_set_upvalue(slot), final(self)@, r),
    {
        let value = self.stack_top(0)?;
        let u = self.current_upvalue(slot)?;
        self.upvalue_set(u, value)?;
        Ok(Signal::Continue)
    }

    /// The two values at the top of the stack, the lower one first.
    pub(crate) fn operands(&self) -> (r: Result<(Value, Value), RuntimeError>)
        requires
            self.wf(),
        ensures
            match r {
                Ok((lhs, rhs)) => self@.stack.len() >= 2 && lhs == self@.top(1) && rhs
                    == self@.top(0) && value_ok(self@.heap, lhs) && value_ok(self@.heap, rhs),
                Err(e) => e@ == Fault::StackUnderflow && self@.stack.len() < 2,
            },
    {
        let lhs = self.stack_top(1)?;
        let rhs = self.stack_top(0)?;
        Ok((lhs, rhs))
    }

    /// Replace the two values at the top of the stack by one that is no object.
    pub(crate) fn replace_two(&mut self, value: Value)
        requires
            old(self).wf(),
            old(self)@.stack.len() >= 2,
            value_ok(old(self)@.heap, value),
        ensures
            final(self).wf(),
            final(self)@ == old(self)@.replacing_two(value),
    {
        proof {
            self.lemma_wf();
        }
        let _ = self.stack_pop();
        let _ = self.stack_pop();
        let _ = self.stack_push(value);
    }

    /// Replace the value at the top of the stack.
    pub(crate) fn replace_top(&mut self, value: Value)
        requires
            old(self).wf(),
            old(self)@.stack.len() >= 1,
            value_ok(old(self)@.heap, value),
        ensures
            final(self).wf(),
            final(self)@ == old(self)@.replacing_top(value),
    {
        proof {
            self.lemma_wf();
        }
        let _ = self.stack_pop();
        let _ = self.stack_push(value);
    }

    /// Compare the two values at the top of the stack for equality, or for inequality
    /// where `negate` is set.
    pub(crate) fn op_equal(&mut self, negate: bool) -> (r: Result<Signal, RuntimeError>)
        requires
            old(self).wf(),
        ensures
            final(self).wf(),
            agrees(old(self)@.op_equal(negate), final(self)@, r),
    {
        let (lhs, rhs) = self.operands()?;
        self.replace_two(Value::Bool(lhs.equals(&rhs) != negate));
        Ok(Signal::Continue)
    }

    /// Compare the two numbers at the top of the stack; `op` is one of `GT`, `GE`, `LT`
    /// and `LE`.
    pub(crate) fn op_order(&mut self, op: Opcode) -> (r: Result<Signal, RuntimeError>)
        requires
            old(self).wf(),
        ensures
            final(self).wf(),
            agrees(old(self)@.op_order(op), final(self)@, r),
    {
        let (lhs, rhs) = self.operands()?;
        let outcome = match op {
            Opcode::GT => lhs.gt(&rhs),
            Opcode::GE => lhs.ge(&rhs),
            Opcode::LT => lhs.lt(&rhs),
            _ => lhs.le(&rhs),
        };
        match outcome {
            Ok(b) => {
                self.replace_two(Value::Bool(b));
                Ok(Signal::Continue)
            },
            Err(e) => {
                let _ = self.stack_pop();
                Err(RuntimeError::Value(e))
            },
        }
    }

    /// Hand the two numbers at the top of the stack out for an arithmetic operation.
    pub(crate) fn op_arithmetic(&mut self, op: Opcode) -> (r: Result<Signal, RuntimeError>)
        requires
            old(self).wf(),
        ensures
            final(self).wf(),
            agrees(old(self)@.op_arithmetic(op), final(self)@, r),
    {
        let (lhs, rhs) = self.operands()?;
        match lhs.numbers(&rhs) {
            Ok((a, b)) => {
                let _ = self.stack_pop();
                let _ = self.stack_pop();
                Ok(Signal::Arithmetic(op, a, b))
            },
            Err(e) => {
                let _ = self.stack_pop();
                Err(RuntimeError::Value(e))
            },
        }
    }

    /// Replace the value at the top of the stack by the negation of its truthiness.
    pub(crate) fn op_not(&mut self) -> (r: Result<Signal, RuntimeError>)
        requires
            old(self).wf(),
        ensures
            final(self).wf(),
            agrees(old(self)@.op_not(), final(self)@, r),
    {
        let value = self.stack_top(0)?;
        self.replace_top(value.not());
        Ok(Signal::Continue)
    }

    /// Negate the number at the top of the stack.
    pub(crate) fn op_neg(&mut self) -> (r: Result<Signal, RuntimeError>)
        requires
            old(self).wf(),
        ensures
            final(self).wf(),
            agrees(old(self)@.op_neg(), final(self)@, r),
    {
        let value = self.stack_top(0)?;
        match value.neg() {
            Ok(negated) => {
                self.replace_top(negated);
                Ok(Signal::Continue)
            },
            Err(e) => Err(RuntimeError::Value(e)),
        }
    }

    /// Pop the top of the stack and hand it out to be printed.
    pub(crate) fn op_print(&mut self) -> (r: Result<Signal, RuntimeError>)
        requires
            old(self).wf(),
        ensures
            final(self).wf(),
            agrees(old(self)@.op_print(), final(self)@, r),
            r matches Ok(Signal::Print(value)) ==> value_ok(final(self)@.heap, value),
    {
        let value = self.stack_pop()?;
        Ok(Signal::Print(value))
    }

    /// Jump forward over `offset` bytes.
    pub(crate) fn op_jump(&mut self, offset: u16) -> (r: Result<Signal, RuntimeError>)
        requires
            old(self).wf(),
            old(self)@.frames.len() > 0,
        ensures
            final(self).wf(),
            agrees(old(self)@.op_jump(offset), final(self)@, r),
    {
        let frame = self.frame()?;
        let len = match self.function(frame.closure) {
            Some(f) => f.chunk.len(),
            None => 0,
        };
        if frame.ip > len || len - frame.ip < offset as usize {
            return Err(RuntimeError::MalformedChunk);
        }
        self.set_ip(frame.ip + offset as usize);
        Ok(Signal::Continue)
    }

    /// Jump forward over `offset` bytes if the truthiness of the value at the top of the
    /// stack is `when`.
    pub(crate) fn op_jump_if(&mut self, when: bool, offset: u16) -> (r: Result<
        Signal,
        RuntimeError,
    >)
        requires
            old(self).wf(),
            old(self)@.frames.len() > 0,
        ensures
            final(self).wf(),
            agrees(old(self)@.op_jump_if(when, offset), final(self)@, r),
    {
        let value = self.stack_top(0)?;
        if value.is_truthy() == when {
            self.op_jump(offset)
        } else {
            Ok(Signal::Continue)
        }
    }

    /// Jump backward over `offset` bytes.
    pub(crate) fn op_loop(&mut self, offset: u16) -> (r: Result<Signal, RuntimeError>)
        requires
            old(self).wf(),
            old(self)@.frames.len() > 0,
        ensures
            final(self).wf(),
            agrees(old(self)@.op_loop(offset), final(self)@, r),
    {
        let frame = self.frame()?;
        if offset as usize > frame.ip {
            return Err(RuntimeError::MalformedChunk);
        }
        self.set_ip(frame.ip - offset as usize);
        Ok(Signal::Continue)
    }
}

} // verus!
