use vstd::prelude::*;

use crate::graph::{
    closed, edge, has_kind, holds_text, interning, lemma_reachable_edge_closed,
    lemma_reachable_live, lemma_restrict_closed, lemma_root_reachable, lemma_step_reachable,
    reachable, reachable_set, total_size, value_ok,
};
use crate::heap::{clamp, GC_HEAP_GROW_FACTOR};
use crate::object::{Native, ObjNativeFun, ObjUpvalue, ObjectError, ObjectKind, ObjectView};
use crate::value::{Value, ValueError};

verus! {

/// The most values that the operand stack can hold.
pub const VM_STACK_SIZE: usize = 256;

/// The most calls that can be in progress at a time.
pub const VM_FRAMES_MAX: usize = 64;

/// A record of one call in progress.
#[derive(Debug, Clone, Copy, PartialEq, Eq, Structural)]
pub struct CallFrame {
    /// The closure that is being run.
    pub closure: usize,
    /// The offset of the next byte to read in the chunk of the closure's function.
    pub ip: usize,
    /// The index of the operand stack at which the slots of the call start; slot 0
    /// holds the callee or the receiver.
    pub slot: usize,
}

/// A runtime error, with the text that it carries as a mathematical value.
pub enum Fault {
    /// A byte that names no opcode.
    InvalidOpcode(u8),
    /// An operation met values that it cannot work on.
    Value(ValueError),
    /// An operation met an object of a kind that it cannot work on.
    Object(ObjectError),
    /// The operand stack or the frame stack is full.
    StackOverflow,
    /// A property was read off a value that is no instance.
    OnlyInstancesHaveProperties,
    /// A field was written to a value that is no instance.
    OnlyInstancesHaveFields,
    /// No global variable has this name.
    UndefinedVariable(Seq<char>),
    /// The instance has neither a field nor a method of this name.
    UndefinedProperty(Seq<char>),
    /// A class was declared to inherit from a value that is no class.
    InvalidSuperclass,
    /// A value was called that is neither a function nor a class.
    InvalidCallee,
    /// A method was invoked on a value that is no instance.
    OnlyInstancesHaveMethods,
    /// A function was called with a number of arguments other than its arity.
    InvalidArgumentsCount { arity: u8, argc: u8 },
    /// An instruction needs more operands than the stack holds, or names a stack slot
    /// that is not in use.
    StackUnderflow,
    /// The instruction stream ends in the middle of an instruction, or an instruction
    /// names a constant, an upvalue or a jump target that its function does not have.
    MalformedChunk,
}

/// The state of the virtual machine, as mathematical values.
pub struct Machine {
    /// The operand stack, bottom first.
    pub stack: Seq<Value>,
    /// The calls in progress, outermost first.
    pub frames: Seq<CallFrame>,
    /// The upvalues that stand for variables which still live on the stack.
    pub open_upvalues: Seq<usize>,
    /// The global variables, each under the string that names it.
    pub globals: Map<usize, Value>,
    /// The objects of the heap.
    pub heap: Map<usize, ObjectView>,
    /// The number of allocated bytes above which a collection is due.
    pub threshold: usize,
}

impl Machine {
    /// The stack slot that the upvalue under `u` stands for, if it is open.
    pub open spec fn open_slot(self, u: usize) -> Option<usize> {
        if self.heap.contains_key(u) {
            match self.heap[u] {
                ObjectView::Upvalue(ObjUpvalue::Open(slot)) => Some(slot),
                _ => None,
            }
        } else {
            None
        }
    }

    /// Everything that the machine holds is in its heap and of the kind that its place
    /// asks for, both stacks are within their capacity, and every upvalue on the list
    /// of open upvalues is open, no two of them for the same stack slot.
    pub open spec fn ok(self) -> bool {
        &&& self.stack.len() <= VM_STACK_SIZE
        &&& self.frames.len() <= VM_FRAMES_MAX
        &&& closed(self.heap)
        &&& interning(self.heap)
        &&& forall|i: int| 0 <= i < self.stack.len() ==> value_ok(self.heap, #[trigger] self.stack[i])
        &&& forall|i: int|
            0 <= i < self.frames.len() ==> has_kind(
                self.heap,
                (#[trigger] self.frames[i]).closure,
                ObjectKind::Closure,
            ) && self.frames[i].slot <= VM_STACK_SIZE
        &&& forall|i: int|
            0 <= i < self.open_upvalues.len() ==> self.open_slot(#[trigger] self.open_upvalues[i])
                is Some
        &&& forall|i: int, j: int|
            0 <= i < j < self.open_upvalues.len() ==> self.open_slot(
                #[trigger] self.open_upvalues[i],
            ) != self.open_slot(#[trigger] self.open_upvalues[j])
        &&& forall|k: usize| #[trigger]
            self.globals.contains_key(k) ==> has_kind(self.heap, k, ObjectKind::String)
                && value_ok(self.heap, self.globals[k])
    }

    /// The handles that the machine holds outside the heap: the roots of a collection.
    pub open spec fn roots(self) -> Set<usize> {
        Set::new(
            |h: usize|
                self.stack.contains(Value::Object(h)) || (exists|i: int|
                    0 <= i < self.frames.len() && (#[trigger] self.frames[i]).closure == h)
                    || self.open_upvalues.contains(h) || self.globals.contains_key(h)
                    || (exists|k: usize| #[trigger]
                    self.globals.contains_key(k) && self.globals[k] == Value::Object(h)),
        )
    }

    /// The bytes that the collector counts as allocated.
    pub open spec fn bytes(self) -> usize {
        clamp(total_size(self.heap))
    }

    /// A collection is due when more bytes are allocated than the threshold allows.
    pub open spec fn gc_due(self) -> bool {
        self.bytes() > self.threshold
    }

    /// The machine after a collection: the heap keeps exactly the objects that can be
    /// reached from the roots, as they are, and the threshold of the next collection
    /// is set from what is left.
    pub open spec fn collected(self) -> Machine {
        let kept = self.heap.restrict(reachable_set(self.heap, self.roots()));
        Machine {
            heap: kept,
            threshold: clamp(clamp(total_size(kept)) * GC_HEAP_GROW_FACTOR),
            ..self
        }
    }

    /// The machine at the point where an object is allocated: after a collection, if
    /// one is due.
    pub open spec fn before_allocation(self) -> Machine {
        if self.gc_due() {
            self.collected()
        } else {
            self
        }
    }

    /// A collection keeps the machine in order.
    pub proof fn lemma_collected_ok(self)
        requires
            self.ok(),
        ensures
            self.collected().ok(),
            self.collected().roots() == self.roots(),
    {
        let roots = self.roots();
        let keep = reachable_set(self.heap, roots);
        let after = self.collected();
        lemma_reachable_edge_closed(self.heap, roots);
        lemma_restrict_closed(self.heap, keep);
        assert forall|h: usize| roots.contains(h) implies keep.contains(h) by {
            lemma_root_reachable(self.heap, roots, h);
        }
        assert forall|i: int| 0 <= i < self.stack.len() implies value_ok(
            after.heap,
            #[trigger] self.stack[i],
        ) by {
            if let Value::Object(h) = self.stack[i] {
                assert(self.stack.contains(Value::Object(h)));
                assert(roots.contains(h));
            }
        }
        assert forall|i: int| 0 <= i < self.frames.len() implies has_kind(
            after.heap,
            (#[trigger] self.frames[i]).closure,
            ObjectKind::Closure,
        ) by {
            assert(roots.contains(self.frames[i].closure));
        }
        assert forall|i: int| 0 <= i < self.open_upvalues.len() implies after.open_slot(
            #[trigger] self.open_upvalues[i],
        ) == self.open_slot(self.open_upvalues[i]) by {
            assert(self.open_upvalues.contains(self.open_upvalues[i]));
            assert(roots.contains(self.open_upvalues[i]));
            assert(self.open_slot(self.open_upvalues[i]) is Some);
        }
        assert forall|k: usize| #[trigger] self.globals.contains_key(k) implies has_kind(
            after.heap,
            k,
            ObjectKind::String,
        ) && value_ok(after.heap, self.globals[k]) by {
            assert(roots.contains(k));
            if let Value::Object(h) = self.globals[k] {
                assert(roots.contains(h));
            }
        }
    }

    /// After a collection the heap holds exactly the objects that could be reached from
    /// the roots before it, each as it was: nothing reachable is lost or changed, and
    /// nothing unreachable is left.
    pub proof fn lemma_collection(self, h: usize)
        ensures
            self.collected().heap.contains_key(h) <==> self.heap.contains_key(h) && reachable(
                self.heap,
                self.roots(),
                h,
            ),
            self.collected().heap.contains_key(h) ==> self.collected().heap[h] == self.heap[h],
            self.collected().stack == self.stack,
            self.collected().frames == self.frames,
            self.collected().globals == self.globals,
            self.collected().open_upvalues == self.open_upvalues,
    {
    }
}

impl Machine {
    /// The open upvalue that stands for the stack slot `location`, if the list of open
    /// upvalues holds one.
    pub open spec fn find_open(self, location: usize) -> Option<usize> {
        if exists|i: int|
            0 <= i < self.open_upvalues.len() && self.open_slot(#[trigger] self.open_upvalues[i])
                == Some(location) {
            let i = choose|i: int|
                0 <= i < self.open_upvalues.len() && self.open_slot(
                    #[trigger] self.open_upvalues[i],
                ) == Some(location);
            Some(self.open_upvalues[i])
        } else {
            None
        }
    }

    /// The machine stays in order when an object that is no open upvalue gives way to
    /// another of its kind, in a heap that stays closed and goes on interning its
    /// strings.
    pub proof fn lemma_ok_update(self, g: usize, o: ObjectView)
        requires
            self.ok(),
            self.heap.contains_key(g),
            self.open_slot(g) is None,
            o.kind() == self.heap[g].kind(),
            closed(self.heap.insert(g, o)),
            interning(self.heap.insert(g, o)),
        ensures
            (Machine { heap: self.heap.insert(g, o), ..self }).ok(),
    {
        let heap = self.heap.insert(g, o);
        assert forall|i: int| 0 <= i < self.open_upvalues.len() implies heap[#[trigger]
            self.open_upvalues[i]] == self.heap[self.open_upvalues[i]] by {
            assert(self.open_slot(self.open_upvalues[i]) is Some);
        }
        self.lemma_ok_heap(heap);
    }

    /// The machine stays in order when its heap is replaced by one that is closed and
    /// interns its strings, holds an object of the same kind wherever the old one held
    /// one, and holds the open upvalues as they were.
    pub proof fn lemma_ok_heap(self, heap: Map<usize, ObjectView>)
        requires
            self.ok(),
            closed(heap),
            interning(heap),
            forall|h: usize| #[trigger]
                self.heap.contains_key(h) ==> heap.contains_key(h) && heap[h].kind()
                    == self.heap[h].kind(),
            forall|i: int|
                0 <= i < self.open_upvalues.len() ==> heap[#[trigger] self.open_upvalues[i]]
                    == self.heap[self.open_upvalues[i]],
        ensures
            (Machine { heap, ..self }).ok(),
    {
        let after = Machine { heap, ..self };
        assert forall|i: int| 0 <= i < self.stack.len() implies value_ok(
            heap,
            #[trigger] self.stack[i],
        ) by {
            if let Value::Object(h) = self.stack[i] {
                assert(self.heap.contains_key(h));
            }
        }
        assert forall|i: int| 0 <= i < self.frames.len() implies has_kind(
            heap,
            (#[trigger] self.frames[i]).closure,
            ObjectKind::Closure,
        ) by {
            assert(self.heap.contains_key(self.frames[i].closure));
        }
        assert forall|i: int| 0 <= i < self.open_upvalues.len() implies after.open_slot(
            #[trigger] self.open_upvalues[i],
        ) == self.open_slot(self.open_upvalues[i]) by {
            assert(self.open_slot(self.open_upvalues[i]) is Some);
            assert(self.heap.contains_key(self.open_upvalues[i]));
        }
        assert forall|k: usize| #[trigger] self.globals.contains_key(k) implies has_kind(
            heap,
            k,
            ObjectKind::String,
        ) && value_ok(heap, self.globals[k]) by {
            assert(self.heap.contains_key(k));
            if let Value::Object(h) = self.globals[k] {
                assert(self.heap.contains_key(h));
            }
        }
    }

    /// No two entries of the list of open upvalues are the same upvalue.
    pub proof fn lemma_open_distinct(self, i: int, j: int)
        requires
            self.ok(),
            0 <= i < self.open_upvalues.len(),
            0 <= j < self.open_upvalues.len(),
            i != j,
        ensures
            self.open_upvalues[i] != self.open_upvalues[j],
    {
        if i < j {
            assert(self.open_slot(self.open_upvalues[i]) != self.open_slot(self.open_upvalues[j]));
        } else {
            assert(self.open_slot(self.open_upvalues[j]) != self.open_slot(self.open_upvalues[i]));
        }
    }

    /// The open upvalue for a stack slot is the only one on the list for that slot.
    pub proof fn lemma_find_open(self, location: usize, i: int)
        requires
            self.ok(),
            0 <= i < self.open_upvalues.len(),
            self.open_slot(self.open_upvalues[i]) == Some(location),
        ensures
            self.find_open(location) == Some(self.open_upvalues[i]),
    {
        let j = choose|j: int|
            0 <= j < self.open_upvalues.len() && self.open_slot(#[trigger] self.open_upvalues[j])
                == Some(location);
        if i < j {
            assert(self.open_slot(self.open_upvalues[i]) != self.open_slot(self.open_upvalues[j]));
        } else if j < i {
            assert(self.open_slot(self.open_upvalues[j]) != self.open_slot(self.open_upvalues[i]));
        }
    }
}

impl Machine {
    /// The upvalue under `u` is on the list of open upvalues and stands for a stack slot
    /// at or above `last`: closing the slots from `last` on closes it.
    pub open spec fn closes(self, u: usize, last: usize) -> bool {
        self.open_upvalues.contains(u) && (self.open_slot(u) matches Some(slot) && slot >= last)
    }

    /// Every upvalue that closing from `last` on closes stands for a slot that the stack
    /// holds.
    pub open spec fn can_close(self, last: usize) -> bool {
        forall|u: usize| #[trigger]
            self.closes(u, last) ==> self.open_slot(u).unwrap() < self.stack.len()
    }

    /// The machine after closing the stack slots from `last` on: every open upvalue for
    /// such a slot is closed over the value in the slot and leaves the list of open
    /// upvalues.
    pub open spec fn closed_from(self, last: usize) -> Machine {
        Machine {
            heap: Map::new(
                |h: usize| self.heap.contains_key(h),
                |h: usize|
                    if self.closes(h, last) {
                        ObjectView::Upvalue(
                            ObjUpvalue::Closed(self.stack[self.open_slot(h).unwrap() as int]),
                        )
                    } else {
                        self.heap[h]
                    },
            ),
            open_upvalues: self.open_upvalues.filter(|u: usize| !self.closes(u, last)),
            ..self
        }
    }

    /// What reading through the upvalue under `u` gives: the value in its stack slot
    /// while it is open, the value that it holds once it is closed.
    pub open spec fn upvalue_value(self, u: usize) -> Option<Value> {
        match self.heap[u] {
            ObjectView::Upvalue(ObjUpvalue::Open(slot)) => if slot < self.stack.len() {
                Some(self.stack[slot as int])
            } else {
                None
            },
            ObjectView::Upvalue(ObjUpvalue::Closed(value)) => Some(value),
            _ => None,
        }
    }

    /// The machine after writing through the upvalue under `u`: into its stack slot
    /// while it is open, into the upvalue once it is closed.
    pub open spec fn upvalue_written(self, u: usize, value: Value) -> Option<Machine> {
        match self.heap[u] {
            ObjectView::Upvalue(ObjUpvalue::Open(slot)) => if slot < self.stack.len() {
                Some(Machine { stack: self.stack.update(slot as int, value), ..self })
            } else {
                None
            },
            ObjectView::Upvalue(ObjUpvalue::Closed(_)) => Some(
                Machine {
                    heap: self.heap.insert(u, ObjectView::Upvalue(ObjUpvalue::Closed(value))),
                    ..self
                },
            ),
            _ => None,
        }
    }

    /// `post` is what the machine becomes when a string with the given text is interned:
    /// `h` is the handle of the string object with that text. If the heap holds one,
    /// nothing changes; otherwise one is allocated, after a collection if one is due.
    pub open spec fn interns(self, post: Machine, text: Seq<char>, h: usize) -> bool {
        if exists|g: usize| #[trigger] holds_text(self.heap, g, text) {
            holds_text(self.heap, h, text) && post == self
        } else {
            let base = self.before_allocation();
            !base.heap.contains_key(h) && post == (Machine {
                heap: base.heap.insert(h, ObjectView::String(text)),
                ..base
            })
        }
    }

    /// A filter that every entry passes leaves a list as it is.
    pub proof fn lemma_filter_all(list: Seq<usize>, pred: spec_fn(usize) -> bool)
        requires
            forall|i: int| 0 <= i < list.len() ==> pred(#[trigger] list[i]),
        ensures
            list.filter(pred) == list,
        decreases list.len(),
    {
        reveal(Seq::filter);
        if list.len() > 0 {
            Self::lemma_filter_all(list.drop_last(), pred);
            assert(list.drop_last().push(list.last()) =~= list);
        }
    }

    /// Closing the stack slots from `last` on a second time changes nothing.
    pub proof fn lemma_close_idempotent(self, last: usize)
        requires
            self.ok(),
        ensures
            self.closed_from(last).closed_from(last) == self.closed_from(last),
            self.closed_from(last).can_close(last),
    {
        let once = self.closed_from(last);
        let pred = |u: usize| !self.closes(u, last);
        let again = |u: usize| !once.closes(u, last);
        assert forall|u: usize| !(#[trigger] once.closes(u, last)) by {
            if once.open_upvalues.contains(u) {
                self.open_upvalues.lemma_filter_contains_rev(pred, u);
                let i = choose|i: int| 0 <= i < once.open_upvalues.len() && once.open_upvalues[i] == u;
                self.open_upvalues.lemma_filter_pred(pred, i);
                assert(pred(u));
                assert(self.open_upvalues.contains(u));
            }
        }
        assert(once.closed_from(last).heap =~= once.heap);
        assert forall|i: int| 0 <= i < once.open_upvalues.len() implies again(
            #[trigger] once.open_upvalues[i],
        ) by {}
        Self::lemma_filter_all(once.open_upvalues, again);
    }
}

impl Machine {
    /// What the operand stack holds is reachable.
    pub proof fn lemma_stack_reachable(self, i: int, h: usize)
        requires
            0 <= i < self.stack.len(),
            self.stack[i] == Value::Object(h),
        ensures
            reachable(self.heap, self.roots(), h),
    {
        assert(self.stack.contains(Value::Object(h)));
        lemma_root_reachable(self.heap, self.roots(), h);
    }

    /// The closure of a call in progress is reachable, and so are its function and its
    /// upvalues.
    pub proof fn lemma_frame_reachable(self, i: int)
        requires
            self.ok(),
            0 <= i < self.frames.len(),
        ensures
            reachable(self.heap, self.roots(), self.frames[i].closure),
            reachable(self.heap, self.roots(), self.heap[self.frames[i].closure]->Closure_fun),
            forall|j: int|
                0 <= j < self.heap[self.frames[i].closure]->Closure_upvalues.len() ==> reachable(
                    self.heap,
                    self.roots(),
                    #[trigger] self.heap[self.frames[i].closure]->Closure_upvalues[j],
                ),
    {
        let closure = self.frames[i].closure;
        assert(self.roots().contains(closure));
        lemma_root_reachable(self.heap, self.roots(), closure);
        assert(has_kind(self.heap, closure, ObjectKind::Closure));
        let fun = self.heap[closure]->Closure_fun;
        assert(edge(self.heap, closure, fun));
        lemma_step_reachable(self.heap, self.roots(), closure, fun);
        let upvalues = self.heap[closure]->Closure_upvalues;
        assert forall|j: int| 0 <= j < upvalues.len() implies reachable(
            self.heap,
            self.roots(),
            #[trigger] upvalues[j],
        ) by {
            assert(upvalues.contains(upvalues[j]));
            assert(edge(self.heap, closure, upvalues[j]));
            lemma_step_reachable(self.heap, self.roots(), closure, upvalues[j]);
        }
    }

    /// An object that a constant of the function of a call in progress names is
    /// reachable.
    pub proof fn lemma_constant_reachable(self, i: int, k: int, h: usize)
        requires
            self.ok(),
            0 <= i < self.frames.len(),
            has_kind(
                self.heap,
                self.heap[self.frames[i].closure]->Closure_fun,
                ObjectKind::Fun,
            ),
            0 <= k < self.heap[self.heap[self.frames[i].closure]->Closure_fun]->Fun_0.constants.len(),
            self.heap[self.heap[self.frames[i].closure]->Closure_fun]->Fun_0.constants[k]
                == Value::Object(h),
        ensures
            reachable(self.heap, self.roots(), h),
    {
        self.lemma_frame_reachable(i);
        let fun = self.heap[self.frames[i].closure]->Closure_fun;
        let constants = self.heap[fun]->Fun_0.constants;
        assert(constants.contains(Value::Object(h)));
        assert(edge(self.heap, fun, h));
        lemma_step_reachable(self.heap, self.roots(), fun, h);
    }

    /// An upvalue on the list of open upvalues is reachable.
    pub proof fn lemma_open_reachable(self, u: usize)
        requires
            self.open_upvalues.contains(u),
        ensures
            reachable(self.heap, self.roots(), u),
    {
        lemma_root_reachable(self.heap, self.roots(), u);
    }
}

impl Machine {
    /// An allocation keeps every reachable object as it is.
    pub proof fn lemma_allocation_keeps(self, x: usize)
        requires
            self.ok(),
            reachable(self.heap, self.roots(), x),
        ensures
            self.heap.contains_key(x),
            self.before_allocation().heap.contains_key(x),
            self.before_allocation().heap[x] == self.heap[x],
            self.before_allocation().ok(),
    {
        assert forall|h: usize| self.roots().contains(h) implies self.heap.contains_key(h) by {
            if self.stack.contains(Value::Object(h)) {
                let i = choose|i: int| 0 <= i < self.stack.len() && self.stack[i] == Value::Object(h);
                assert(value_ok(self.heap, self.stack[i]));
            } else if exists|i: int|
                0 <= i < self.frames.len() && (#[trigger] self.frames[i]).closure == h {
                let i = choose|i: int|
                    0 <= i < self.frames.len() && (#[trigger] self.frames[i]).closure == h;
                assert(has_kind(self.heap, self.frames[i].closure, ObjectKind::Closure));
            } else if self.open_upvalues.contains(h) {
                let i = choose|i: int| 0 <= i < self.open_upvalues.len() && self.open_upvalues[i] == h;
                assert(self.open_slot(self.open_upvalues[i]) is Some);
            } else if self.globals.contains_key(h) {
            } else {
                let k = choose|k: usize| #[trigger]
                    self.globals.contains_key(k) && self.globals[k] == Value::Object(h);
                assert(value_ok(self.heap, self.globals[k]));
            }
        }
        lemma_reachable_live(self.heap, self.roots(), x);
        self.lemma_collected_ok();
    }
}

impl Machine {
    /// The machine that has not run anything yet: empty but for the native function
    /// `clock`, which the string under `name` names and which is under `native`.
    pub open spec fn initial(name: usize, native: usize, threshold: usize) -> Machine {
        Machine {
            stack: Seq::empty(),
            frames: Seq::empty(),
            open_upvalues: Seq::empty(),
            globals: Map::empty().insert(name, Value::Object(native)),
            heap: Map::empty().insert(name, ObjectView::String("clock"@)).insert(
                native,
                ObjectView::NativeFun(
                    ObjNativeFun { arity: 0, native: Native::Clock },
                ),
            ),
            threshold,
        }
    }

    /// The machine after it has been cleared: every open upvalue is closed over the
    /// value in its stack slot, or over `nil` where the stack does not hold the slot,
    /// and the stacks and the list of open upvalues are empty.
    pub open spec fn cleared(self) -> Machine {
        Machine {
            stack: Seq::empty(),
            frames: Seq::empty(),
            open_upvalues: Seq::empty(),
            heap: Map::new(
                |h: usize| self.heap.contains_key(h),
                |h: usize|
                    if self.open_upvalues.contains(h) {
                        ObjectView::Upvalue(
                            ObjUpvalue::Closed(
                                if self.open_slot(h).unwrap() < self.stack.len() {
                                    self.stack[self.open_slot(h).unwrap() as int]
                                } else {
                                    Value::Nil
                                },
                            ),
                        )
                    } else {
                        self.heap[h]
                    },
            ),
            ..self
        }
    }
}

} // verus!
