//! The interpreter loop: one instruction at a time.

use vstd::prelude::*;

use crate::graph::value_ok;
use crate::interp::observed;
use crate::machine::{Fault, Machine};
use crate::object::{Object, ObjectError};
use crate::opcode::Opcode;
use crate::semantics::{Signal, operand_bytes};
use crate::value::Value;
use crate::vm::{RuntimeError, VirtualMachine};

verus! {

/// The number of operand bytes that follow an opcode; the pairs that follow the operand
/// of `Closure` are not counted.
pub fn operand_count(op: Opcode) -> (n: u8)
    ensures
        n == operand_bytes(op),
{
    match op {
        Opcode::Const
        | Opcode::GetLocal
        | Opcode::SetLocal
        | Opcode::GetGlobal
        | Opcode::SetGlobal
        | Opcode::DefineGlobal
        | Opcode::GetUpvalue
        | Opcode::SetUpvalue
        | Opcode::GetProperty
        | Opcode::SetProperty
        | Opcode::GetSuper
        | Opcode::Call
        | Opcode::Closure
        | Opcode::Class
        | Opcode::Method => 1,
        Opcode::Jump
        | Opcode::JumpIfTrue
        | Opcode::JumpIfFalse
        | Opcode::Loop
        | Opcode::Invoke
        | Opcode::SuperInvoke => 2,
        _ => 0,
    }
}

impl VirtualMachine {
    /// Run an instruction other than `Closure` whose operands `a` and `b` have been
    /// read.
    pub(crate) fn execute(&mut self, op: Opcode, a: u8, b: u8) -> (r: Result<Signal, RuntimeError>)
        requires
            old(self).wf(),
            old(self)@.frames.len() > 0,
            op != Opcode::Closure,
        ensures
            final(self).wf(),
            old(self)@.execute(op, a, b, final(self)@, observed(r)),
            r matches Ok(Signal::Print(value)) ==> value_ok(final(self)@.heap, value),
    {
        let offset: u16 = a as u16 * 256 + b as u16;
        match op {
            Opcode::Const => self.op_const(a),
            Opcode::Nil => self.pushing(Value::Nil),
            Opcode::True => self.pushing(Value::Bool(true)),
            Opcode::False => self.pushing(Value::Bool(false)),
            Opcode::Pop => self.op_pop(),
            Opcode::GetLocal => self.op_get_local(a),
            Opcode::SetLocal => self.op_set_local(a),
            Opcode::GetGlobal => self.op_get_global(a),
            Opcode::SetGlobal => self.op_set_global(a),
            Opcode::DefineGlobal => self.op_define_global(a),
            Opcode::GetUpvalue => self.op_get_upvalue(a),
            Opcode::SetUpvalue => self.op_set_upvalue(a),
            Opcode::GetProperty => self.op_get_property(a),
            Opcode::SetProperty => self.op_set_property(a),
            Opcode::GetSuper => self.op_get_super(a),
            Opcode::NE => self.op_equal(true),
            Opcode::EQ => self.op_equal(false),
            Opcode::GT => self.op_order(Opcode::GT),
            Opcode::GE => self.op_order(Opcode::GE),
            Opcode::LT => self.op_order(Opcode::LT),
            Opcode::LE => self.op_order(Opcode::LE),
            Opcode::Add => self.op_add(),
            Opcode::Sub => self.op_arithmetic(Opcode::Sub),
            Opcode::Mul => self.op_arithmetic(Opcode::Mul),
            Opcode::Div => self.op_arithmetic(Opcode::Div),
            Opcode::Not => self.op_not(),
            Opcode::Neg => self.op_neg(),
            Opcode::Print => self.op_print(),
            Opcode::Jump => self.op_jump(offset),
            Opcode::JumpIfTrue => self.op_jump_if(true, offset),
            Opcode::JumpIfFalse => self.op_jump_if(false, offset),
            Opcode::Loop => self.op_loop(offset),
            Opcode::Call => self.call_value(a),
            Opcode::Invoke => self.op_invoke(a, b),
            Opcode::SuperInvoke => self.op_super_invoke(a, b),
            Opcode::Closure => Err(RuntimeError::MalformedChunk),
            Opcode::CloseUpvalue => self.op_close_upvalue(),
            Opcode::Ret => self.op_ret(),
            Opcode::Class => self.op_class(a),
            Opcode::Inherit => self.op_inherit(),
            Opcode::Method => self.op_method(a),
        }
    }

    /// Run a `Closure` instruction whose operand `k` has been read.
    pub(crate) fn closure_step(&mut self, k: u8) -> (r: Result<Signal, RuntimeError>)
        requires
            old(self).wf(),
            old(self)@.frames.len() > 0,
            old(self)@.can_fetch(0),
        ensures
            final(self).wf(),
            old(self)@.closure_step(k, final(self)@, observed(r)),
    {
        let ghost before = self@;
        let constant = self.constant(k)?;
        let ghost f = constant->Object_0;
        let count = match constant {
            Value::Object(h) => match self.object(h) {
                Some(Object::Fun(fun)) => fun.upvalue_count,
                _ => {
                    return Err(RuntimeError::Object(ObjectError::InvalidCast));
                },
            },
            _ => {
                return Err(RuntimeError::Object(ObjectError::InvalidCast));
            },
        };
        proof {
            self.lemma_wf();
            before.lemma_advanced(0, 0);
        }
        if !self.can_read(2 * (count as usize)) {
            return Err(RuntimeError::MalformedChunk);
        }
        let mut pairs: Vec<(u8, u8)> = Vec::new();
        let mut i: u8 = 0;
        while i < count
            invariant
                i <= count,
                self.wf(),
                before.ok(),
                before.frames.len() > 0,
                before == old(self)@,
                before.can_fetch(2 * count),
                k < before.constants().len(),
                before.as_fun(before.constants()[k as int]) == Some(f),
                count == before.heap[f]->Fun_0.upvalue_count,
                self@ == before.advanced(2 * i),
                pairs@.len() == i,
                forall|j: int|
                    0 <= j < i ==> (#[trigger] pairs@[j]) == (
                        before.operand(2 * j),
                        before.operand(2 * j + 1),
                    ),
            decreases count - i,
        {
            proof {
                before.lemma_advanced(2 * i, 1);
                before.lemma_advanced(2 * i, 2);
                if before.can_fetch(2 * i + 1) {
                    before.lemma_advanced(2 * i + 1, 1);
                }
                before.lemma_advanced(2 * i, 0);
            }
            let flag = self.read_byte()?;
            proof {
                before.lemma_advanced(2 * i, 1);
                before.lemma_advanced(2 * i + 1, 1);
                before.lemma_advanced(2 * i + 1, 0);
            }
            let index = self.read_byte()?;
            pairs.push((flag, index));
            i += 1;
        }
        proof {
            assert(pairs@ =~= before.pairs(count as int));
        }
        self.op_closure(k, &pairs)
    }

    /// Run the next instruction.
    pub fn step(&mut self) -> (r: Result<Signal, RuntimeError>)
        requires
            old(self).wf(),
        ensures
            final(self).wf(),
            old(self)@.step(final(self)@, observed(r)),
            r matches Ok(Signal::Print(value)) ==> value_ok(final(self)@.heap, value),
    {
        let ghost before = self@;
        proof {
            self.lemma_wf();
        }
        let byte = self.read_byte()?;
        let op = match Opcode::try_from(byte) {
            Ok(op) => op,
            Err(byte) => {
                return Err(RuntimeError::InvalidOpcode(byte));
            },
        };
        let n = operand_count(op);
        proof {
            before.lemma_advanced(1, 0);
            before.lemma_advanced(1, 1);
            before.lemma_advanced(1, 2);
            before.lemma_advanced(0, 1);
            before.lemma_advanced(0, 2);
            before.lemma_advanced(0, 3);
        }
        let (a, b) = if n >= 2 {
            let operands = match self.read_short() {
                Ok(operands) => operands,
                Err(e) => {
                    return Err(e);
                },
            };
            ((operands / 256) as u8, (operands % 256) as u8)
        } else if n >= 1 {
            match self.read_byte() {
                Ok(byte) => (byte, 0),
                Err(e) => {
                    return Err(e);
                },
            }
        } else {
            (0, 0)
        };
        if let Opcode::Closure = op {
            let r = self.closure_step(a);
            return r;
        }
        proof {
            assert(self@ == before.advanced(1 + n));
            if n >= 1 {
                assert(a == before.operand(1));
            }
            if n >= 2 {
                assert(b == before.operand(2));
            }
        }
        let r = self.execute(op, a, b);
        proof {
            Self::lemma_execute_operands(before, op, a, b, self@, observed(r));
        }
        r
    }

    /// An instruction does not look at the operand bytes that it does not have.
    proof fn lemma_execute_operands(
        before: Machine,
        op: Opcode,
        a: u8,
        b: u8,
        post: Machine,
        r: Result<Signal, Fault>,
    )
        requires
            op != Opcode::Closure,
            operand_bytes(op) >= 1 ==> a == before.operand(1),
            operand_bytes(op) >= 2 ==> b == before.operand(2),
            before.advanced(1 + operand_bytes(op)).execute(op, a, b, post, r),
        ensures
            before.advanced(1 + operand_bytes(op)).execute(
                op,
                before.operand(1),
                before.operand(2),
                post,
                r,
            ),
    {
    }
}

} // verus!
