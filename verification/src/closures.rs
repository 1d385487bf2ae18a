//! The instruction that creates a closure.

use vstd::prelude::*;

use crate::graph::{has_kind, reachable, valid_at};
use crate::interp::observed;
use crate::machine::Machine;
use crate::object::{ObjClosure, Object, ObjectError, ObjectKind, ObjectView};
use crate::semantics::{Signal, is};
use crate::value::Value;
use crate::vm::{RuntimeError, VirtualMachine};

verus! {

impl VirtualMachine {
    /// Create a closure of the function that the constant `k` names, with the upvalues
    /// that `pairs` name, and push it.
    pub(crate) fn op_closure(&mut self, k: u8, pairs: &Vec<(u8, u8)>) -> (r: Result<
        Signal,
        RuntimeError,
    >)
        requires
            old(self).wf(),
            old(self)@.frames.len() > 0,
        ensures
            final(self).wf(),
            old(self)@.op_closure(k, pairs@, final(self)@, observed(r)),
    {
        let ghost before = self@;
        let constant = self.constant(k)?;
        let (f, count) = match constant {
            Value::Object(h) => match self.object(h) {
                Some(Object::Fun(fun)) => (h, fun.upvalue_count),
                _ => {
                    return Err(RuntimeError::Object(ObjectError::InvalidCast));
                },
            },
            _ => {
                return Err(RuntimeError::Object(ObjectError::InvalidCast));
            },
        };
        let frame = self.frame()?;
        let c = frame.closure;
        let n = pairs.len();
        if n != count as usize {
            return Err(RuntimeError::MalformedChunk);
        }
        let width = match self.closure(c) {
            Some(closure) => closure.upvalues.len(),
            None => 0,
        };
        let ghost enclosing = before.upvalues_of(c);
        let ghost fh = before.heap[c]->Closure_fun;
        let mut i: usize = 0;
        while i < n
            invariant
                i <= n,
                n == pairs@.len(),
                self.wf(),
                *self == *old(self),
                before == old(self)@,
                before.frames.len() > 0,
                k < before.constants().len(),
                before.as_fun(before.constants()[k as int]) == Some(f),
                n == before.heap[f]->Fun_0.upvalue_count,
                enclosing == before.upvalues_of(before.frame().closure),
                width == enclosing.len(),
                forall|j: int| 0 <= j < i ==> !Machine::bad_pair(enclosing, #[trigger] pairs@[j]),
            decreases n - i,
        {
            let pair = pairs[i];
            if pair.0 != 1 && pair.1 as usize >= width {
                proof {
                    assert(Machine::bad_pair(enclosing, pairs@[i as int]));
                }
                return Err(RuntimeError::MalformedChunk);
            }
            i += 1;
        }
        proof {
            self.lemma_wf();
            assert(valid_at(before.heap, c));
        }
        let ghost mut states: Seq<Machine> = seq![before];
        let mut i: usize = 0;
        while i < n
            invariant
                i <= n,
                n == pairs@.len(),
                self.wf(),
                before.ok(),
                before.frames.len() > 0,
                frame == before.frame(),
                c == frame.closure,
                fh == before.heap[c]->Closure_fun,
                k < before.constants().len(),
                before.constants()[k as int] == Value::Object(f),
                has_kind(before.heap, f, ObjectKind::Fun),
                self@.frames == before.frames,
                self@.stack == before.stack,
                has_kind(self@.heap, c, ObjectKind::Closure),
                self@.heap[c] == before.heap[c],
                self@.heap.contains_key(fh),
                self@.heap[fh] == before.heap[fh],
                self@.heap.contains_key(f),
                self@.heap[f] == before.heap[f],
                states.len() == i + 1,
                states[0] == before,
                states.last() == self@,
                forall|j: int|
                    0 <= j < i ==> #[trigger] Machine::capture_at(states, frame.slot, pairs@, j),
                forall|j: int|
                    0 <= j < i && (#[trigger] pairs@[j]).0 == 1 ==> self@.find_open(
                        (frame.slot + pairs@[j].1) as usize,
                    ) is Some,
            decreases n - i,
        {
            let pair = pairs[i];
            let ghost m = self@;
            let ghost earlier = states;
            proof {
                self.lemma_wf();
            }
            if pair.0 == 1 {
                let location = frame.slot + pair.1 as usize;
                proof {
                    m.lemma_frame_reachable(m.frames.len() - 1);
                    assert(valid_at(m.heap, c));
                    m.lemma_constant_reachable(m.frames.len() - 1, k as int, f);
                    m.lemma_allocation_keeps(c);
                    m.lemma_allocation_keeps(fh);
                    m.lemma_allocation_keeps(f);
                }
                let u = self.capture_upvalue(location);
                proof {
                    let post = self@;
                    if m.find_open(location) is None {
                        assert(m.captured_as(u, location) == post);
                    }
                    assert(m.capture_step(post, location));
                    assert forall|j: int|
                        0 <= j < i + 1 && (#[trigger] pairs@[j]).0 == 1 implies post.find_open(
                        (frame.slot + pairs@[j].1) as usize,
                    ) is Some by {
                        let loc = (frame.slot + pairs@[j].1) as usize;
                        if j == i {
                            let e = choose|e: int|
                                0 <= e < post.open_upvalues.len() && post.open_upvalues[e] == u;
                            assert(post.open_slot(post.open_upvalues[e]) == Some(location));
                        } else if m.find_open(location) is None {
                            assert(m.find_open(loc) is Some);
                            let e = choose|e: int|
                                0 <= e < m.open_upvalues.len() && m.open_slot(
                                    #[trigger] m.open_upvalues[e],
                                ) == Some(loc);
                            let v = m.open_upvalues[e];
                            assert(m.open_upvalues.contains(v));
                            m.lemma_open_reachable(v);
                            m.lemma_allocation_keeps(v);
                            assert(post.open_upvalues[e] == v);
                            assert(post.open_slot(post.open_upvalues[e]) == Some(loc));
                        }
                    }
                }
            }
            proof {
                states = earlier.push(self@);
                assert forall|j: int| 0 <= j < i + 1 implies #[trigger] Machine::capture_at(
                    states,
                    frame.slot,
                    pairs@,
                    j,
                ) by {
                    if j < i {
                        assert(Machine::capture_at(earlier, frame.slot, pairs@, j));
                        assert(states[j] == earlier[j]);
                        assert(states[j + 1] == earlier[j + 1]);
                    } else {
                        assert(states[j] == m);
                        assert(states[j + 1] == self@);
                    }
                }
            }
            i += 1;
        }
        let ghost mid = self@;
        proof {
            assert(before.captures_along(states, frame.slot, pairs@));
            assert(before.captures(mid, frame.slot, pairs@));
            self.lemma_wf();
            mid.lemma_frame_reachable(mid.frames.len() - 1);
            assert(valid_at(mid.heap, c));
        }
        let ghost expected = mid.closure_upvalues(enclosing, frame.slot, pairs@);
        let mut upvalues: Vec<usize> = Vec::new();
        let mut i: usize = 0;
        while i < n
            invariant
                i <= n,
                n == pairs@.len(),
                self.wf(),
                self@ == mid,
                mid.ok(),
                mid.frames.len() > 0,
                frame == mid.frame(),
                c == frame.closure,
                has_kind(mid.heap, c, ObjectKind::Closure),
                enclosing == mid.upvalues_of(c),
                width == enclosing.len(),
                expected == mid.closure_upvalues(enclosing, frame.slot, pairs@),
                forall|j: int| 0 <= j < n ==> !Machine::bad_pair(enclosing, #[trigger] pairs@[j]),
                forall|j: int|
                    0 <= j < n && (#[trigger] pairs@[j]).0 == 1 ==> mid.find_open(
                        (frame.slot + pairs@[j].1) as usize,
                    ) is Some,
                upvalues@.len() == i,
                forall|j: int|
                    0 <= j < i ==> (#[trigger] upvalues@[j]) == expected[j] && has_kind(
                        mid.heap,
                        upvalues@[j],
                        ObjectKind::Upvalue,
                    ) && reachable(mid.heap, mid.roots(), upvalues@[j]),
            decreases n - i,
        {
            let pair = pairs[i];
            proof {
                self.lemma_wf();
                mid.lemma_frame_reachable(mid.frames.len() - 1);
                assert(valid_at(mid.heap, c));
                assert(!Machine::bad_pair(enclosing, pairs@[i as int]));
            }
            let u = if pair.0 == 1 {
                let u = self.capture_upvalue(frame.slot + pair.1 as usize);
                proof {
                    mid.lemma_open_reachable(u);
                }
                u
            } else {
                match self.closure(c) {
                    Some(closure) => closure.upvalues[pair.1 as usize],
                    None => 0,
                }
            };
            upvalues.push(u);
            i += 1;
        }
        proof {
            assert(upvalues@ =~= expected);
            mid.lemma_constant_reachable(mid.frames.len() - 1, k as int, f);
            assert forall|b: usize|
                (ObjectView::Closure { fun: f, upvalues: upvalues@ }).refers_to(
                    b,
                ) implies reachable(mid.heap, mid.roots(), b) by {
                if b != f {
                    let j = choose|j: int| 0 <= j < upvalues@.len() && upvalues@[j] == b;
                    assert(reachable(mid.heap, mid.roots(), upvalues@[j]));
                }
            }
        }
        let h = self.alloc_object(Object::Closure(ObjClosure { fun: f, upvalues }));
        let ghost allocated = self@;
        let r = self.pushing(Value::Object(h));
        proof {
            let o = ObjectView::Closure { fun: f, upvalues: expected };
            assert(allocated == mid.allocated(o, h));
            assert(is(mid.allocated(o, h).pushing(Value::Object(h)), self@, observed(r)));
        }
        r
    }
}

} // verus!
