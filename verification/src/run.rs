//! Running a program: starting it, running its instructions until one asks something of
//! the host, and what the host sees of values and of the calls in progress.

use vstd::prelude::*;

use crate::graph::{has_kind, valid_at, value_ok};
use crate::interp::observed;
use crate::machine::{CallFrame, Fault, Machine, VM_STACK_SIZE};
use crate::object::{ObjClosure, ObjFun, Object, ObjectError, ObjectKind, ObjectView};
use crate::semantics::{Signal, fails, is};
use crate::value::Value;
use crate::vm::{RuntimeError, VirtualMachine};

verus! {

/// What the host sees of a value.
#[derive(Debug)]
pub enum Displayed {
    /// `nil`.
    Nil,
    /// A boolean.
    Bool(bool),
    /// A number, as its binary64 bit pattern: formatting it is left to the host.
    Number(u64),
    /// An object, as its text.
    Text(String),
}

/// A line of the trace of the calls in progress.
#[derive(Debug)]
pub struct TraceLine {
    /// The source line of the instruction that the call is at, if it is known.
    pub line: Option<usize>,
    /// The name of the function that was called; the program itself has none.
    pub function: Option<String>,
}

impl VirtualMachine {
    /// What the host sees of a function.
    fn function_label(&self, f: usize) -> (text: String)
        requires
            self.wf(),
            has_kind(self@.heap, f, ObjectKind::Fun),
        ensures
            text@ == self@.function_label(f),
    {
        let name = match self.object(f) {
            Some(Object::Fun(fun)) => fun.name,
            _ => None,
        };
        match name {
            None => String::from_str("<script>"),
            Some(name) => {
                let text = self.text(name);
                String::from_str("<fn ").concat(text.as_str()).concat(">")
            },
        }
    }

    /// What the host sees of a value.
    pub fn display(&self, value: Value) -> (shown: Displayed)
        requires
            self.wf(),
            value_ok(self@.heap, value),
        ensures
            match value {
                Value::Nil => shown is Nil,
                Value::Bool(b) => shown matches Displayed::Bool(c) && c == b,
                Value::Number(bits) => shown matches Displayed::Number(n) && n == bits,
                Value::Object(h) => shown matches Displayed::Text(text) && text@ == self@.rendered(
                    h,
                ),
            },
    {
        match value {
            Value::Nil => Displayed::Nil,
            Value::Bool(b) => Displayed::Bool(b),
            Value::Number(bits) => Displayed::Number(bits),
            Value::Object(h) => {
                let text = match self.object(h) {
                    Some(Object::String(text)) => text.clone(),
                    Some(Object::Upvalue(_)) => String::from_str("upvalue"),
                    Some(Object::Closure(closure)) => self.function_label(closure.fun),
                    Some(Object::Fun(_)) => self.function_label(h),
                    Some(Object::NativeFun(_)) => String::from_str("<native fn>"),
                    Some(Object::Class(class)) => self.text(class.name),
                    Some(Object::Instance(instance)) => {
                        let name = match self.object(instance.class) {
                            Some(Object::Class(class)) => class.name,
                            _ => 0,
                        };
                        proof {
                            assert(valid_at(self@.heap, instance.class));
                        }
                        self.text(name).concat(" instance")
                    },
                    Some(Object::BoundMethod(bound)) => {
                        let fun = match self.object(bound.method) {
                            Some(Object::Closure(closure)) => closure.fun,
                            _ => 0,
                        };
                        self.function_label(fun)
                    },
                    None => String::new(),
                };
                Displayed::Text(text)
            },
        }
    }

    /// The calls in progress, innermost first: for each the source line of the
    /// instruction that it is at and the name of its function.
    pub fn trace_calls(&self) -> (trace: Vec<TraceLine>)
        requires
            self.wf(),
        ensures
            trace@.len() == self@.frames.len(),
            forall|i: int|
                0 <= i < trace@.len() ==> self@.traced(
                    self@.frames[self@.frames.len() - 1 - i],
                    (#[trigger] trace@[i]).line,
                    match trace@[i].function {
                        Some(name) => Some(name@),
                        None => None,
                    },
                ),
    {
        let mut trace: Vec<TraceLine> = Vec::new();
        let mut frames = self.frames_iter();
        let ghost n = self@.frames.len() as int;
        proof {
            self.lemma_wf();
            assert(self@.frames.take(n) =~= self@.frames);
        }
        while frames.len() > 0
            invariant
                self.wf(),
                self@.ok(),
                n == self@.frames.len(),
                frames.wf(),
                trace@.len() <= n,
                frames@ == self@.frames.take(n - trace@.len()),
                forall|j: int|
                    0 <= j < trace@.len() ==> self@.traced(
                        self@.frames[n - 1 - j],
                        (#[trigger] trace@[j]).line,
                        match trace@[j].function {
                            Some(name) => Some(name@),
                            None => None,
                        },
                    ),
            decreases frames@.len(),
        {
            let ghost done = trace@.len() as int;
            let frame = match frames.next_back() {
                Some(frame) => *frame,
                None => CallFrame { closure: 0, ip: 0, slot: 0 },
            };
            proof {
                assert(frame == self@.frames[n - 1 - done]);
                assert(self@.frames.take(n - done).drop_last() =~= self@.frames.take(n - done - 1));
                assert(has_kind(self@.heap, self@.frames[n - 1 - done].closure, ObjectKind::Closure));
            }
            let (line, name) = match self.function(frame.closure) {
                Some(fun) => {
                    proof {
                        fun.chunk.lemma_wf();
                    }
                    (
                        if frame.ip > 0 {
                            fun.chunk.get_line(frame.ip - 1)
                        } else {
                            None
                        },
                        fun.name,
                    )
                },
                None => (None, None),
            };
            let function = match name {
                Some(name) => Some(self.text(name)),
                None => None,
            };
            trace.push(TraceLine { line, function });
        }
        trace
    }

    /// Run at most `steps` instructions: until one asks something of the host or ends
    /// in an error. `Continue` comes back when `steps` instructions have been run and
    /// none of them asked anything.
    pub fn run(&mut self, steps: usize) -> (r: Result<Signal, RuntimeError>)
        requires
            old(self).wf(),
        ensures
            final(self).wf(),
            old(self)@.runs(steps as int, final(self)@, observed(r)),
            r matches Ok(Signal::Print(value)) ==> value_ok(final(self)@.heap, value),
    {
        let ghost before = self@;
        let ghost mut states: Seq<Machine> = seq![before];
        let mut done: usize = 0;
        while done < steps
            invariant
                done <= steps,
                self.wf(),
                before == old(self)@,
                before.runs_along(states),
                states.len() == done + 1,
                states.last() == self@,
            decreases steps - done,
        {
            let ghost earlier = states;
            let ghost m = self@;
            let r = self.step();
            match r {
                Ok(Signal::Continue) => {
                    proof {
                        states = earlier.push(self@);
                        assert forall|i: int| 0 <= i < states.len() - 1 implies #[trigger] Machine::step_at(
                            states,
                            i,
                        ) by {
                            if i < earlier.len() - 1 {
                                assert(Machine::step_at(earlier, i));
                                assert(states[i] == earlier[i]);
                                assert(states[i + 1] == earlier[i + 1]);
                            } else {
                                assert(states[i] == m);
                                assert(states[i + 1] == self@);
                            }
                        }
                    }
                    done += 1;
                },
                other => {
                    proof {
                        assert(before.runs_along(earlier));
                        assert(earlier.last() == m);
                        assert(m.step(self@, observed(other)));
                        assert(observed(other) != Ok::<Signal, Fault>(Signal::Continue));
                    }
                    return other;
                },
            }
        }
        Ok(Signal::Continue)
    }

    /// Push the number that the host has computed and run on. On a full stack nothing
    /// is pushed or run.
    pub fn resume_with(&mut self, number: u64, steps: usize) -> (r: Result<Signal, RuntimeError>)
        requires
            old(self).wf(),
        ensures
            final(self).wf(),
            if old(self)@.stack.len() >= VM_STACK_SIZE {
                fails(old(self)@, final(self)@, observed(r), Fault::StackOverflow)
            } else {
                old(self)@.with_stack(old(self)@.stack.push(Value::Number(number))).runs(
                    steps as int,
                    final(self)@,
                    observed(r),
                )
            },
            r matches Ok(Signal::Print(value)) ==> value_ok(final(self)@.heap, value),
    {
        self.stack_push(Value::Number(number))?;
        self.run(steps)
    }

    /// Start a program: put its function into the heap, allocate a closure of it, push
    /// the closure and call it.
    pub fn start(&mut self, fun: ObjFun) -> (r: Result<Signal, RuntimeError>)
        requires
            old(self).wf(),
            fun.chunk.wf(),
        ensures
            final(self).wf(),
            old(self)@.starts(fun@, final(self)@, observed(r)),
    {
        let ghost before = self@;
        let ghost view = fun@;
        if !self.accepts(&fun) {
            return Err(RuntimeError::Object(ObjectError::InvalidCast));
        }
        if fun.upvalue_count != 0 {
            return Err(RuntimeError::MalformedChunk);
        }
        if self.stack_len() >= VM_STACK_SIZE {
            return Err(RuntimeError::StackOverflow);
        }
        let f = match self.define_function(fun) {
            Ok(Value::Object(f)) => f,
            _ => 0,
        };
        let _ = self.stack_push(Value::Object(f));
        let ghost defined = self@;
        proof {
            assert(defined == before.defined(view, f));
            defined.lemma_stack_reachable(defined.stack.len() - 1, f);
        }
        let c = self.alloc_object(
            Object::Closure(ObjClosure { fun: f, upvalues: Vec::new() }),
        );
        let ghost allocated = self@;
        self.replace_top(Value::Object(c));
        let r = self.call_closure(c, 0);
        proof {
            let o = ObjectView::Closure { fun: f, upvalues: Seq::empty() };
            assert(allocated == defined.allocated(o, c));
            assert(is(
                before.defined(view, f).allocated(o, c).replacing_top(Value::Object(c)).call_closure(
                    c,
                    0,
                ),
                self@,
                observed(r),
            ));
        }
        r
    }

    /// Start a program and run at most `steps` of its instructions.
    pub fn interpret(&mut self, fun: ObjFun, steps: usize) -> (r: Result<Signal, RuntimeError>)
        requires
            old(self).wf(),
            fun.chunk.wf(),
        ensures
            final(self).wf(),
            old(self)@.interprets(fun@, steps as int, final(self)@, observed(r)),
            r matches Ok(Signal::Print(value)) ==> value_ok(final(self)@.heap, value),
    {
        let ghost view = fun@;
        match self.start(fun) {
            Ok(_) => {
                let ghost mid = self@;
                let r = self.run(steps);
                proof {
                    assert(old(self)@.starts(view, mid, Ok::<Signal, Fault>(Signal::Continue)));
                }
                r
            },
            Err(e) => Err(e),
        }
    }
}

} // verus!
