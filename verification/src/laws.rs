//! What holds of the machine whatever program it runs.

use vstd::prelude::*;

use crate::graph::{holds_text, lemma_heap_size_split, reachable, reachable_set, total_size};
use crate::machine::{CallFrame, Fault, Machine};
use crate::object::{ObjNativeFun, ObjectView};
use crate::opcode::Opcode;
use crate::semantics::{goes_on, is, operand_bytes, Signal};
use crate::value::{Value, is_nan};

verus! {

/// When a return ends the program, no call is in progress afterwards, and the operand
/// stack has lost the closure of the program and the result: a program that leaves
/// nothing else on the stack leaves it empty.
pub proof fn lemma_program_end(m: Machine, post: Machine)
    requires
        m.op_ret() == Ok::<(Machine, Signal), (Machine, Fault)>((post, Signal::Done)),
    ensures
        post.frames.len() == 0,
        post.stack == m.stack.take(m.stack.len() - 2),
        m.stack.len() == 2 ==> post.stack.len() == 0,
{
    assert(post.stack =~= m.stack.take(m.stack.len() - 2));
}

/// A variable is captured once: when a stack slot has been captured, capturing it again
/// changes nothing and gives the upvalue of the first capture, so that all closures
/// that capture the variable share one upvalue.
pub proof fn lemma_shared_capture(m: Machine, mid: Machine, post: Machine, location: usize)
    requires
        m.ok(),
        m.capture_step(mid, location),
        mid.capture_step(post, location),
    ensures
        mid.find_open(location) is Some,
        post == mid,
{
    if m.find_open(location) is None {
        let u = choose|u: usize| m.fresh(u) && #[trigger] m.captured_as(u, location) == mid;
        let last = mid.open_upvalues.len() - 1;
        assert(mid.open_upvalues[last] == u);
        assert(mid.open_slot(mid.open_upvalues[last]) == Some(location));
    }
}

/// What is written through an upvalue is what is read through it afterwards, whichever
/// closures hold the upvalue.
pub proof fn lemma_write_visible(m: Machine, u: usize, value: Value, after: Machine)
    requires
        m.heap.contains_key(u),
        m.upvalue_written(u, value) == Some(after),
    ensures
        after.upvalue_value(u) == Some(value),
{
}

/// Strings are interned: two string objects of a machine in order that hold the same
/// text are one object.
pub proof fn lemma_interned(m: Machine, a: usize, b: usize, text: Seq<char>)
    requires
        m.ok(),
        m.heap.contains_key(a),
        m.heap.contains_key(b),
        m.heap[a] == ObjectView::String(text),
        m.heap[b] == ObjectView::String(text),
    ensures
        a == b,
{
    assert(holds_text(m.heap, a, text));
    assert(holds_text(m.heap, b, text));
}

/// An ordering comparison with a NaN operand gives `false`, whichever of the four
/// comparisons it is.
pub proof fn lemma_order_nan(m: Machine, op: Opcode, a: u64, b: u64)
    requires
        m.stack.len() >= 2,
        m.top(1) == Value::Number(a),
        m.top(0) == Value::Number(b),
        is_nan(a) || is_nan(b),
    ensures
        m.op_order(op) == goes_on(m.replacing_two(Value::Bool(false))),
{
}

/// Negating a value twice leaves its truthiness as a boolean, and negating that twice
/// changes nothing.
pub proof fn lemma_not_twice(m: Machine)
    requires
        m.stack.len() >= 1,
    ensures
        m.op_not() is Ok,
        m.op_not()->Ok_0.0.op_not() == goes_on(m.replacing_top(Value::Bool(m.top(0).truthy()))),
        m.replacing_top(Value::Bool(m.top(0).truthy())).op_not()->Ok_0.0.op_not() == goes_on(
            m.replacing_top(Value::Bool(m.top(0).truthy())),
        ),
{
    let truth = Value::Bool(m.top(0).truthy());
    let once = m.replacing_top(Value::Bool(!m.top(0).truthy()));
    assert(once.replacing_top(truth).stack =~= m.replacing_top(truth).stack);
    let settled = m.replacing_top(truth);
    let flipped = settled.replacing_top(Value::Bool(!truth.truthy()));
    assert(flipped.replacing_top(truth).stack =~= settled.stack);
}

/// A closure that is called with the wrong number of arguments is not entered: the
/// frames and the operand stack stay as they were.
pub proof fn lemma_wrong_arity_keeps(m: Machine, closure: usize, argc: u8)
    requires
        argc != m.function_of(closure).arity,
    ensures
        m.call_closure(closure, argc) == Err::<(Machine, Signal), (Machine, Fault)>(
            (m, Fault::InvalidArgumentsCount { arity: m.function_of(closure).arity, argc }),
        ),
{
}

/// A native function that is called with the wrong number of arguments is not run: the
/// machine stays as it was.
pub proof fn lemma_native_arity_keeps(
    m: Machine,
    native: ObjNativeFun,
    argc: u8,
    post: Machine,
    r: Result<Signal, Fault>,
)
    requires
        argc != native.arity,
        m.call_native(native, argc, post, r),
    ensures
        post == m,
        r == Err::<Signal, Fault>(Fault::InvalidArgumentsCount { arity: native.arity, argc }),
{
}

/// An addition that ends in an error has allocated nothing: the machine stays as it
/// was.
pub proof fn lemma_add_error_keeps(m: Machine, post: Machine, r: Result<Signal, Fault>)
    requires
        m.op_add(post, r),
        r is Err,
    ensures
        post == m,
{
}

/// Inheriting that ends in an error has copied no method: the machine stays as it was.
pub proof fn lemma_inherit_error_keeps(m: Machine)
    requires
        m.op_inherit() is Err,
    ensures
        m.op_inherit()->Err_0.0 == m,
{
}

/// A class that is called gives way to a new instance of it before anything is asked
/// of its initializer: the instance stands in the place of the class whether the call
/// goes on or ends in an error.
pub proof fn lemma_class_call_places(
    m: Machine,
    class: usize,
    argc: u8,
    post: Machine,
    r: Result<Signal, Fault>,
)
    requires
        m.stack.len() >= argc + 1,
        m.call_class(class, argc, post, r),
    ensures
        exists|h: usize|
            m.fresh(h) && #[trigger] post.heap.contains_key(h) && post.heap[h] == (
                ObjectView::Instance { class, fields: Map::empty() }
            ) && post.stack == m.stack.update(m.stack.len() - 1 - argc, Value::Object(h)),
{
    let h = choose|h: usize|
        m.fresh(h) && #[trigger] is(
            m.allocated(ObjectView::Instance { class, fields: Map::empty() }, h).placed(
                argc,
                Value::Object(h),
            ).initialize(class, argc),
            post,
            r,
        );
    assert(post.heap.contains_key(h));
}

/// A collection takes off the count of allocated bytes exactly what is charged for the
/// objects that it frees: those that cannot be reached from the roots.
pub proof fn lemma_collection_charge(m: Machine)
    ensures
        total_size(m.collected().heap) == total_size(m.heap) - total_size(
            m.heap.remove_keys(reachable_set(m.heap, m.roots())),
        ),
{
    lemma_heap_size_split(
        m.heap,
        reachable_set(m.heap, m.roots()),
        (usize::MAX + 1) as nat,
    );
}

/// A string that a collection frees is interned no longer: afterwards no object of the
/// heap holds its text, so that a string of that text is a new object.
pub proof fn lemma_freed_text_forgotten(m: Machine, a: usize, text: Seq<char>)
    requires
        m.ok(),
        holds_text(m.heap, a, text),
        !reachable(m.heap, m.roots(), a),
    ensures
        forall|g: usize| !holds_text(m.collected().heap, g, text),
{
    assert forall|g: usize| !holds_text(m.collected().heap, g, text) by {
        if holds_text(m.collected().heap, g, text) {
            assert(holds_text(m.heap, g, text));
            lemma_interned(m, a, g, text);
        }
    }
}

/// The calls in progress in `post` are those in `m`; only the instruction pointer of the
/// innermost may have moved.
pub open spec fn same_calls(m: Machine, post: Machine) -> bool {
    &&& post.frames.len() == m.frames.len()
    &&& m.frames.len() > 0 ==> post.frames == m.frames.update(
        m.frames.len() - 1,
        CallFrame { ip: post.frames.last().ip, ..m.frames.last() },
    )
}

/// Capturing variables touches neither the globals nor the two stacks.
proof fn lemma_captures_keep(
    at: Machine,
    states: Seq<Machine>,
    base: usize,
    pairs: Seq<(u8, u8)>,
    i: int,
)
    requires
        at.captures_along(states, base, pairs),
        0 <= i <= pairs.len(),
    ensures
        states[i].globals == at.globals,
        states[i].frames == at.frames,
        states[i].stack == at.stack,
    decreases i,
{
    if i > 0 {
        lemma_captures_keep(at, states, base, pairs, i - 1);
        assert(Machine::capture_at(states, base, pairs, i - 1));
    }
}

/// What `lemma_error_keeps` says, of an instruction other than `Closure` whose operands
/// have been read.
proof fn lemma_execute_error_keeps(
    at: Machine,
    op: Opcode,
    a: u8,
    b: u8,
    post: Machine,
    r: Result<Signal, Fault>,
)
    requires
        at.ok(),
        at.frames.len() > 0,
        at.execute(op, a, b, post, r),
        r is Err,
    ensures
        post.globals == at.globals,
        r != Err::<Signal, Fault>(Fault::StackUnderflow) ==> post.frames == at.frames,
{
}

/// What `lemma_error_keeps` says, of a `Closure` instruction whose operand has been
/// read.
proof fn lemma_closure_error_keeps(at: Machine, k: u8, post: Machine, r: Result<Signal, Fault>)
    requires
        at.ok(),
        at.frames.len() > 0,
        at.closure_step(k, post, r),
        r is Err,
    ensures
        post.globals == at.globals,
        same_calls(at, post),
{
    if k < at.constants().len() {
        if let Some(f) = at.as_fun(at.constants()[k as int]) {
            let count = at.heap[f]->Fun_0.upvalue_count as int;
            if at.can_fetch(2 * count) {
                at.lemma_advanced(2 * count, 0);
                let now = at.advanced(2 * count);
                let pairs = at.pairs(count);
                let enclosing = now.upvalues_of(now.frame().closure);
                let base = now.frame().slot;
                if pairs.len() == now.heap[f]->Fun_0.upvalue_count && !(exists|i: int|
                    0 <= i < pairs.len() && Machine::bad_pair(enclosing, #[trigger] pairs[i])) {
                    let (mid, h) = choose|mid: Machine, h: usize|
                        now.captures(mid, base, pairs) && mid.fresh(h) && #[trigger] is(
                            mid.allocated(
                                ObjectView::Closure {
                                    fun: f,
                                    upvalues: mid.closure_upvalues(enclosing, base, pairs),
                                },
                                h,
                            ).pushing(Value::Object(h)),
                            post,
                            r,
                        );
                    let states = choose|states: Seq<Machine>| #[trigger]
                        now.captures_along(states, base, pairs) && states.last() == mid;
                    lemma_captures_keep(now, states, base, pairs, pairs.len() as int);
                }
            }
        }
    }
    assert(post.frames.len() > 0 ==> post.frames =~= at.frames.update(
        at.frames.len() - 1,
        CallFrame { ip: post.frames.last().ip, ..at.frames.last() },
    ));
}

/// An instruction that ends in an error has written no global variable. Unless the
/// error is that the operand stack holds too little, it has also left the calls in
/// progress as they were, so that the trace of the calls after the error shows where
/// the error came about.
pub proof fn lemma_error_keeps(m: Machine, post: Machine, r: Result<Signal, Fault>)
    requires
        m.ok(),
        m.step(post, r),
        r is Err,
    ensures
        post.globals == m.globals,
        r != Err::<Signal, Fault>(Fault::StackUnderflow) ==> same_calls(m, post),
{
    if m.can_fetch(1) {
        m.lemma_advanced(1, 0);
        match Opcode::decode(m.operand(0)) {
            None => {},
            Some(op) => {
                let n = operand_bytes(op);
                if m.can_fetch(1 + n) {
                    m.lemma_advanced(1 + n, 0);
                    if op == Opcode::Closure {
                        m.lemma_advanced(2, 0);
                        lemma_closure_error_keeps(m.advanced(2), m.operand(1), post, r);
                    } else {
                        lemma_execute_error_keeps(
                            m.advanced(1 + n),
                            op,
                            m.operand(1),
                            m.operand(2),
                            post,
                            r,
                        );
                    }
                }
            },
        }
    }
    if r != Err::<Signal, Fault>(Fault::StackUnderflow) && m.frames.len() > 0 {
        assert(post.frames =~= m.frames.update(
            m.frames.len() - 1,
            CallFrame { ip: post.frames.last().ip, ..m.frames.last() },
        ));
    }
}

/// Only a return ends the program: whenever an instruction signals that the program is
/// done, no call is in progress afterwards.
pub proof fn lemma_done_without_frames(m: Machine, post: Machine)
    requires
        m.step(post, Ok::<Signal, Fault>(Signal::Done)),
    ensures
        post.frames.len() == 0,
{
    let r = Ok::<Signal, Fault>(Signal::Done);
    let op = Opcode::decode(m.operand(0))->Some_0;
    if op == Opcode::Closure {
        assert(m.advanced(2).closure_step(m.operand(1), post, r));
    } else {
        let at = m.advanced(1 + operand_bytes(op));
        assert(at.execute(op, m.operand(1), m.operand(2), post, r));
        if op == Opcode::Ret {
            assert(at.op_ret() == Ok::<(Machine, Signal), (Machine, Fault)>((post, Signal::Done)));
        } else if op == Opcode::Call {
            lemma_call_goes_on(at, m.operand(1), post, r);
        } else if op == Opcode::Invoke {
            let argc = m.operand(2);
            match at.string_constant(m.operand(1)) {
                Ok(name) => {
                    if at.stack.len() >= argc + 1 {
                        if let Value::Object(h) = at.top(argc as int) {
                            if let ObjectView::Instance { class, fields } = at.heap[h] {
                                if fields.contains_key(name) {
                                    lemma_call_goes_on(
                                        at.placed(argc, fields[name]),
                                        argc,
                                        post,
                                        r,
                                    );
                                }
                            }
                        }
                    }
                },
                Err(_) => {},
            }
        }
    }
}

/// A call asks nothing of the host.
proof fn lemma_call_goes_on(m: Machine, argc: u8, post: Machine, r: Result<Signal, Fault>)
    requires
        m.call_value(argc, post, r),
    ensures
        r != Ok::<Signal, Fault>(Signal::Done),
{
}

/// When running a program comes to its end, no call is in progress.
pub proof fn lemma_run_ends_without_frames(m: Machine, steps: int, post: Machine)
    requires
        m.runs(steps, post, Ok::<Signal, Fault>(Signal::Done)),
    ensures
        post.frames.len() == 0,
{
    let states = choose|states: Seq<Machine>| #[trigger]
        m.runs_along(states) && ((states.len() - 1 == steps && states.last() == post && Ok::<
            Signal,
            Fault,
        >(Signal::Done) == Ok::<Signal, Fault>(Signal::Continue)) || (states.len() - 1 < steps
            && Ok::<Signal, Fault>(Signal::Done) != Ok::<Signal, Fault>(Signal::Continue)
            && states.last().step(post, Ok::<Signal, Fault>(Signal::Done))));
    lemma_done_without_frames(states.last(), post);
}

} // verus!
