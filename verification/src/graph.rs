use vstd::prelude::*;

use crate::object::{ObjUpvalue, ObjectKind, ObjectView};
use crate::value::Value;

verus! {

/// Whether the heap holds an object of kind `kind` under handle `h`.
pub open spec fn has_kind(heap: Map<usize, ObjectView>, h: usize, kind: ObjectKind) -> bool {
    heap.contains_key(h) && heap[h].kind() == kind
}

/// A value is valid in a heap when it is no object or the heap holds its object.
pub open spec fn value_ok(heap: Map<usize, ObjectView>, v: Value) -> bool {
    v matches Value::Object(h) ==> heap.contains_key(h)
}

/// An object is valid in a heap when everything that it refers to is in the heap and of
/// the kind that its place asks for, and a closure has as many upvalues as its function
/// declares.
pub open spec fn object_ok(heap: Map<usize, ObjectView>, o: ObjectView) -> bool {
    match o {
        ObjectView::String(_) => true,
        ObjectView::NativeFun(_) => true,
        ObjectView::Upvalue(u) => u matches ObjUpvalue::Closed(v) ==> value_ok(heap, v),
        ObjectView::Closure { fun, upvalues } => {
            &&& has_kind(heap, fun, ObjectKind::Fun)
            &&& heap[fun] matches ObjectView::Fun(f) && upvalues.len() == f.upvalue_count
            &&& forall|i: int|
                0 <= i < upvalues.len() ==> has_kind(heap, #[trigger] upvalues[i], ObjectKind::Upvalue)
        },
        ObjectView::Fun(f) => {
            &&& f.code.len() <= usize::MAX
            &&& f.name matches Some(n) ==> has_kind(heap, n, ObjectKind::String)
            &&& forall|i: int| 0 <= i < f.constants.len() ==> value_ok(heap, #[trigger] f.constants[i])
        },
        ObjectView::Class { name, methods } => {
            &&& has_kind(heap, name, ObjectKind::String)
            &&& forall|k: usize| #[trigger]
                methods.contains_key(k) ==> has_kind(heap, k, ObjectKind::String) && has_kind(
                    heap,
                    methods[k],
                    ObjectKind::Closure,
                )
        },
        ObjectView::Instance { class, fields } => {
            &&& has_kind(heap, class, ObjectKind::Class)
            &&& forall|k: usize| #[trigger]
                fields.contains_key(k) ==> has_kind(heap, k, ObjectKind::String) && value_ok(
                    heap,
                    fields[k],
                )
        },
        ObjectView::BoundMethod(b) => value_ok(heap, b.receiver) && has_kind(
            heap,
            b.method,
            ObjectKind::Closure,
        ),
    }
}

/// The object under `h` is valid in the heap.
pub open spec fn valid_at(heap: Map<usize, ObjectView>, h: usize) -> bool {
    object_ok(heap, heap[h])
}

/// Every object of the heap is valid in it: no reference dangles or is of a wrong kind.
pub open spec fn closed(heap: Map<usize, ObjectView>) -> bool {
    forall|h: usize| heap.contains_key(h) ==> #[trigger] valid_at(heap, h)
}

/// The heap holds a string object with the given text under `h`.
pub open spec fn holds_text(heap: Map<usize, ObjectView>, h: usize, text: Seq<char>) -> bool {
    heap.contains_key(h) && heap[h] == ObjectView::String(text)
}

/// No two string objects of the heap hold the same text.
pub open spec fn interning(heap: Map<usize, ObjectView>) -> bool {
    forall|a: usize, b: usize, text: Seq<char>|
        #![trigger holds_text(heap, a, text), holds_text(heap, b, text)]
        holds_text(heap, a, text) && holds_text(heap, b, text) ==> a == b
}

/// The object under `a` refers to the object under `b`.
pub open spec fn edge(heap: Map<usize, ObjectView>, a: usize, b: usize) -> bool {
    heap.contains_key(a) && heap[a].refers_to(b)
}

/// The object at place `i` of the path refers to the next one.
pub open spec fn step_ok(heap: Map<usize, ObjectView>, path: Seq<usize>, i: int) -> bool {
    edge(heap, path[i], path[i + 1])
}

/// `path` starts at a root and follows references of the heap.
pub open spec fn is_path(heap: Map<usize, ObjectView>, roots: Set<usize>, path: Seq<usize>) -> bool {
    &&& path.len() > 0
    &&& roots.contains(path[0])
    &&& forall|i: int| 0 <= i < path.len() - 1 ==> #[trigger] step_ok(heap, path, i)
}

/// The object under `h` can be reached from a root by following references.
pub open spec fn reachable(heap: Map<usize, ObjectView>, roots: Set<usize>, h: usize) -> bool {
    exists|path: Seq<usize>| #[trigger] is_path(heap, roots, path) && path.last() == h
}

/// The handles of all objects that can be reached from the roots.
pub open spec fn reachable_set(heap: Map<usize, ObjectView>, roots: Set<usize>) -> Set<usize> {
    Set::new(|h: usize| reachable(heap, roots, h))
}

/// The sum of what the collector charges for the objects with a handle below `n`.
pub open spec fn heap_size(heap: Map<usize, ObjectView>, n: nat) -> int
    decreases n,
{
    if n == 0 {
        0
    } else {
        let h = (n - 1) as usize;
        heap_size(heap, (n - 1) as nat) + (if heap.contains_key(h) {
            crate::object::size_of_kind(heap[h].kind()) as int
        } else {
            0
        })
    }
}

/// `set` holds with an object everything that the object refers to.
pub open spec fn edge_closed(heap: Map<usize, ObjectView>, set: Set<usize>) -> bool {
    forall|a: usize, b: usize|
        set.contains(a) && #[trigger] edge(heap, a, b) ==> set.contains(b)
}

/// A root is reachable.
pub proof fn lemma_root_reachable(heap: Map<usize, ObjectView>, roots: Set<usize>, r: usize)
    requires
        roots.contains(r),
    ensures
        reachable(heap, roots, r),
{
    let path = seq![r];
    assert(is_path(heap, roots, path));
    assert(path.last() == r);
}

/// What a reachable object refers to is reachable.
pub proof fn lemma_step_reachable(
    heap: Map<usize, ObjectView>,
    roots: Set<usize>,
    a: usize,
    b: usize,
)
    requires
        reachable(heap, roots, a),
        edge(heap, a, b),
    ensures
        reachable(heap, roots, b),
{
    let p = choose|p: Seq<usize>| #[trigger] is_path(heap, roots, p) && p.last() == a;
    let q = p.push(b);
    assert forall|i: int| 0 <= i < q.len() - 1 implies #[trigger] step_ok(heap, q, i) by {
        if i < p.len() - 1 {
            assert(step_ok(heap, p, i));
            assert(q[i] == p[i]);
            assert(q[i + 1] == p[i + 1]);
        }
    }
    assert(is_path(heap, roots, q));
    assert(q.last() == b);
}

/// A set that holds the roots and is closed under references holds every object on a
/// path from a root.
proof fn lemma_path_within(
    heap: Map<usize, ObjectView>,
    roots: Set<usize>,
    set: Set<usize>,
    path: Seq<usize>,
    n: int,
)
    requires
        is_path(heap, roots, path),
        roots.subset_of(set),
        edge_closed(heap, set),
        0 <= n < path.len(),
    ensures
        set.contains(path[n]),
    decreases n,
{
    if n > 0 {
        lemma_path_within(heap, roots, set, path, n - 1);
        assert(step_ok(heap, path, n - 1));
    }
}

/// A set that holds the roots and is closed under references holds every reachable
/// object.
pub proof fn lemma_reachable_within(
    heap: Map<usize, ObjectView>,
    roots: Set<usize>,
    set: Set<usize>,
    h: usize,
)
    requires
        roots.subset_of(set),
        edge_closed(heap, set),
        reachable(heap, roots, h),
    ensures
        set.contains(h),
{
    let p = choose|p: Seq<usize>| #[trigger] is_path(heap, roots, p) && p.last() == h;
    lemma_path_within(heap, roots, set, p, p.len() - 1);
}

/// What an object refers to is in the heap, if the object is valid in it.
pub proof fn lemma_refers_within(heap: Map<usize, ObjectView>, o: ObjectView, b: usize)
    requires
        object_ok(heap, o),
        o.refers_to(b),
    ensures
        heap.contains_key(b),
{
    match o {
        ObjectView::Closure { fun, upvalues } => {
            if b != fun {
                let i = choose|i: int| 0 <= i < upvalues.len() && upvalues[i] == b;
                assert(has_kind(heap, upvalues[i], ObjectKind::Upvalue));
            }
        },
        ObjectView::Fun(f) => {
            if f.name != Some(b) {
                let i = choose|i: int|
                    0 <= i < f.constants.len() && f.constants[i] == Value::Object(b);
                assert(value_ok(heap, f.constants[i]));
            }
        },
        ObjectView::Class { name, methods } => {
            if b != name && !methods.contains_key(b) {
                let k = choose|k: usize| #[trigger] methods.contains_key(k) && methods[k] == b;
                assert(methods.contains_key(k));
            }
        },
        ObjectView::Instance { class, fields } => {
            if b != class && !fields.contains_key(b) {
                let k = choose|k: usize| #[trigger]
                    fields.contains_key(k) && fields[k] == Value::Object(b);
                assert(fields.contains_key(k));
            }
        },
        _ => {},
    }
}

/// In a closed heap the objects of the heap are closed under references.
pub proof fn lemma_domain_edge_closed(heap: Map<usize, ObjectView>)
    requires
        closed(heap),
    ensures
        edge_closed(heap, heap.dom()),
{
    assert forall|a: usize, b: usize| heap.dom().contains(a) && #[trigger] edge(heap, a, b) implies heap.dom().contains(b) by {
        assert(valid_at(heap, a));
        lemma_refers_within(heap, heap[a], b);
    }
}

/// In a closed heap whose roots are in the heap, every reachable object is in the heap.
pub proof fn lemma_reachable_live(heap: Map<usize, ObjectView>, roots: Set<usize>, h: usize)
    requires
        closed(heap),
        roots.subset_of(heap.dom()),
        reachable(heap, roots, h),
    ensures
        heap.contains_key(h),
{
    lemma_domain_edge_closed(heap);
    lemma_reachable_within(heap, roots, heap.dom(), h);
}

/// The reachable objects are closed under references.
pub proof fn lemma_reachable_edge_closed(heap: Map<usize, ObjectView>, roots: Set<usize>)
    ensures
        edge_closed(heap, reachable_set(heap, roots)),
{
    assert forall|a: usize, b: usize|
        reachable_set(heap, roots).contains(a) && #[trigger] edge(heap, a, b) implies reachable_set(
        heap,
        roots,
    ).contains(b) by {
        lemma_step_reachable(heap, roots, a, b);
    }
}

/// An object that is valid in a heap is valid in every part of the heap that holds what
/// the object refers to.
pub proof fn lemma_object_ok_restrict(
    heap: Map<usize, ObjectView>,
    keep: Set<usize>,
    o: ObjectView,
)
    requires
        object_ok(heap, o),
        forall|b: usize| o.refers_to(b) ==> keep.contains(b),
    ensures
        object_ok(heap.restrict(keep), o),
{
    let part = heap.restrict(keep);
    assert forall|b: usize| o.refers_to(b) implies part.contains_key(b) && part[b] == heap[b] by {
        lemma_refers_within(heap, o, b);
    }
    match o {
        ObjectView::Upvalue(u) => {
            if let ObjUpvalue::Closed(Value::Object(h)) = u {
                assert(o.refers_to(h));
            }
        },
        ObjectView::Closure { fun, upvalues } => {
            assert(o.refers_to(fun));
            assert forall|i: int| 0 <= i < upvalues.len() implies has_kind(
                part,
                #[trigger] upvalues[i],
                ObjectKind::Upvalue,
            ) by {
                assert(upvalues.contains(upvalues[i]));
                assert(o.refers_to(upvalues[i]));
            }
        },
        ObjectView::Fun(f) => {
            if let Some(n) = f.name {
                assert(o.refers_to(n));
            }
            assert forall|i: int| 0 <= i < f.constants.len() implies value_ok(
                part,
                #[trigger] f.constants[i],
            ) by {
                if let Value::Object(h) = f.constants[i] {
                    assert(f.constants.contains(Value::Object(h)));
                    assert(o.refers_to(h));
                }
            }
        },
        ObjectView::Class { name, methods } => {
            assert(o.refers_to(name));
            assert forall|k: usize| #[trigger] methods.contains_key(k) implies has_kind(
                part,
                k,
                ObjectKind::String,
            ) && has_kind(part, methods[k], ObjectKind::Closure) by {
                assert(o.refers_to(k));
                assert(o.refers_to(methods[k]));
            }
        },
        ObjectView::Instance { class, fields } => {
            assert(o.refers_to(class));
            assert forall|k: usize| #[trigger] fields.contains_key(k) implies has_kind(
                part,
                k,
                ObjectKind::String,
            ) && value_ok(part, fields[k]) by {
                assert(o.refers_to(k));
                if let Value::Object(h) = fields[k] {
                    assert(o.refers_to(h));
                }
            }
        },
        ObjectView::BoundMethod(b) => {
            assert(o.refers_to(b.method));
            if let Value::Object(h) = b.receiver {
                assert(o.refers_to(h));
            }
        },
        _ => {},
    }
}

/// The part of a closed heap that a set closed under references selects is closed, and
/// it interns its strings if the heap does.
pub proof fn lemma_restrict_closed(heap: Map<usize, ObjectView>, keep: Set<usize>)
    requires
        closed(heap),
        edge_closed(heap, keep),
    ensures
        closed(heap.restrict(keep)),
        interning(heap) ==> interning(heap.restrict(keep)),
{
    let part = heap.restrict(keep);
    assert forall|h: usize| part.contains_key(h) implies #[trigger] valid_at(part, h) by {
        assert(valid_at(heap, h));
        assert forall|b: usize| heap[h].refers_to(b) implies keep.contains(b) by {
            assert(edge(heap, h, b));
        }
        lemma_object_ok_restrict(heap, keep, heap[h]);
    }
    if interning(heap) {
        assert forall|a: usize, b: usize, text: Seq<char>|
            #![trigger holds_text(part, a, text), holds_text(part, b, text)]
            holds_text(part, a, text) && holds_text(part, b, text) implies a == b by {
            assert(holds_text(heap, a, text) && holds_text(heap, b, text));
        }
    }
}

/// An object that is valid in a heap is valid in every heap that holds the same kinds
/// of objects under the same handles, and the same functions.
pub proof fn lemma_object_ok_stable(
    heap: Map<usize, ObjectView>,
    other: Map<usize, ObjectView>,
    o: ObjectView,
)
    requires
        object_ok(heap, o),
        forall|h: usize| #[trigger]
            heap.contains_key(h) ==> other.contains_key(h) && other[h].kind() == heap[h].kind(),
        forall|h: usize| #[trigger] heap.contains_key(h) && heap[h] is Fun ==> other[h] == heap[h],
    ensures
        object_ok(other, o),
{
    match o {
        ObjectView::Closure { fun, upvalues } => {
            assert(heap.contains_key(fun));
            assert forall|i: int| 0 <= i < upvalues.len() implies has_kind(
                other,
                #[trigger] upvalues[i],
                ObjectKind::Upvalue,
            ) by {
                assert(has_kind(heap, upvalues[i], ObjectKind::Upvalue));
                assert(heap.contains_key(upvalues[i]));
            }
        },
        ObjectView::Fun(f) => {
            if let Some(n) = f.name {
                assert(heap.contains_key(n));
            }
            assert forall|i: int| 0 <= i < f.constants.len() implies value_ok(
                other,
                #[trigger] f.constants[i],
            ) by {
                assert(value_ok(heap, f.constants[i]));
                if let Value::Object(h) = f.constants[i] {
                    assert(heap.contains_key(h));
                }
            }
        },
        ObjectView::Class { name, methods } => {
            assert(heap.contains_key(name));
            assert forall|k: usize| #[trigger] methods.contains_key(k) implies has_kind(
                other,
                k,
                ObjectKind::String,
            ) && has_kind(other, methods[k], ObjectKind::Closure) by {
                assert(heap.contains_key(k));
                assert(heap.contains_key(methods[k]));
            }
        },
        ObjectView::Instance { class, fields } => {
            assert(heap.contains_key(class));
            assert forall|k: usize| #[trigger] fields.contains_key(k) implies has_kind(
                other,
                k,
                ObjectKind::String,
            ) && value_ok(other, fields[k]) by {
                assert(heap.contains_key(k));
                if let Value::Object(h) = fields[k] {
                    assert(heap.contains_key(h));
                }
            }
        },
        ObjectView::BoundMethod(b) => {
            assert(heap.contains_key(b.method));
            if let Value::Object(h) = b.receiver {
                assert(heap.contains_key(h));
            }
        },
        ObjectView::Upvalue(u) => {
            if let ObjUpvalue::Closed(Value::Object(h)) = u {
                assert(heap.contains_key(h));
            }
        },
        _ => {},
    }
}

/// A closed heap stays closed when a valid object is stored under a fresh handle, or in
/// place of an object of its kind that is no function.
pub proof fn lemma_insert_closed(heap: Map<usize, ObjectView>, h: usize, o: ObjectView)
    requires
        closed(heap),
        object_ok(heap, o),
        heap.contains_key(h) ==> heap[h].kind() == o.kind() && !(o is Fun),
    ensures
        closed(heap.insert(h, o)),
{
    let other = heap.insert(h, o);
    assert forall|g: usize| other.contains_key(g) implies #[trigger] valid_at(other, g) by {
        if g == h {
            lemma_object_ok_stable(heap, other, o);
        } else {
            assert(valid_at(heap, g));
            lemma_object_ok_stable(heap, other, heap[g]);
        }
    }
}

/// The size of a heap counts only the objects below the bound.
pub proof fn lemma_heap_size_insert(heap: Map<usize, ObjectView>, n: nat, h: usize, o: ObjectView)
    requires
        n <= usize::MAX + 1,
    ensures
        heap_size(heap.insert(h, o), n) == heap_size(heap, n) + (if h < n {
            crate::object::size_of_kind(o.kind()) as int - (if heap.contains_key(h) {
                crate::object::size_of_kind(heap[h].kind()) as int
            } else {
                0
            })
        } else {
            0
        }),
    decreases n,
{
    if n > 0 {
        lemma_heap_size_insert(heap, (n - 1) as nat, h, o);
    }
}

/// Removing an object takes its charge off the size of the heap.
pub proof fn lemma_heap_size_remove(heap: Map<usize, ObjectView>, n: nat, h: usize)
    requires
        n <= usize::MAX + 1,
    ensures
        heap_size(heap.remove(h), n) == heap_size(heap, n) - (if h < n && heap.contains_key(h) {
            crate::object::size_of_kind(heap[h].kind()) as int
        } else {
            0
        }),
    decreases n,
{
    if n > 0 {
        lemma_heap_size_remove(heap, (n - 1) as nat, h);
    }
}

/// What is charged for a heap is what is charged for its objects in `keep` and what is
/// charged for the others.
pub proof fn lemma_heap_size_split(heap: Map<usize, ObjectView>, keep: Set<usize>, n: nat)
    ensures
        heap_size(heap, n) == heap_size(heap.restrict(keep), n) + heap_size(
            heap.remove_keys(keep),
            n,
        ),
    decreases n,
{
    if n > 0 {
        lemma_heap_size_split(heap, keep, (n - 1) as nat);
    }
}

/// The size of a heap is never negative.
pub proof fn lemma_heap_size_nonnegative(heap: Map<usize, ObjectView>, n: nat)
    ensures
        heap_size(heap, n) >= 0,
    decreases n,
{
    if n > 0 {
        lemma_heap_size_nonnegative(heap, (n - 1) as nat);
    }
}

/// A heap without objects below the bound has size 0 there, and handles at or above
/// the bound count nothing.
pub proof fn lemma_heap_size_agree(
    heap: Map<usize, ObjectView>,
    other: Map<usize, ObjectView>,
    n: nat,
)
    requires
        forall|h: usize|
            h < n ==> (heap.contains_key(h) <==> other.contains_key(h)) && (heap.contains_key(h)
                ==> heap[h].kind() == other[h].kind()),
    ensures
        heap_size(heap, n) == heap_size(other, n),
    decreases n,
{
    if n > 0 {
        lemma_heap_size_agree(heap, other, (n - 1) as nat);
    }
}

/// What holds of the marks while a collection traces the heap: every marked object is
/// in the heap and reachable, the worklist holds marked objects only, and a marked
/// object refers to marked objects only unless it waits in the worklist or is the one
/// being scanned.
pub open spec fn marking(
    heap: Map<usize, ObjectView>,
    marked: Set<usize>,
    grey: Seq<usize>,
    roots: Set<usize>,
    busy: Option<usize>,
) -> bool {
    &&& forall|h: usize| #[trigger]
        marked.contains(h) ==> heap.contains_key(h) && reachable(heap, roots, h)
    &&& forall|i: int| 0 <= i < grey.len() ==> marked.contains(#[trigger] grey[i])
    &&& forall|a: usize, b: usize|
        marked.contains(a) && #[trigger] edge(heap, a, b) ==> marked.contains(b) || grey.contains(
            a,
        ) || busy == Some(a)
}

/// Marking a reachable object, and putting it on the worklist if it was unmarked,
/// keeps the marks in order.
pub proof fn lemma_marking_mark(
    heap: Map<usize, ObjectView>,
    marked: Set<usize>,
    grey: Seq<usize>,
    roots: Set<usize>,
    busy: Option<usize>,
    h: usize,
)
    requires
        marking(heap, marked, grey, roots, busy),
        heap.contains_key(h),
        reachable(heap, roots, h),
    ensures
        marking(
            heap,
            marked.insert(h),
            if marked.contains(h) {
                grey
            } else {
                grey.push(h)
            },
            roots,
            busy,
        ),
{
    if !marked.contains(h) {
        let after = grey.push(h);
        assert forall|i: int| 0 <= i < after.len() implies marked.insert(h).contains(
            #[trigger] after[i],
        ) by {
            if i < grey.len() {
                assert(after[i] == grey[i]);
            }
        }
        assert forall|a: usize, b: usize|
            marked.insert(h).contains(a) && #[trigger] edge(heap, a, b) implies marked.insert(
            h,
        ).contains(b) || after.contains(a) || busy == Some(a) by {
            if a == h {
                assert(after[grey.len() as int] == h);
            } else if grey.contains(a) {
                let i = choose|i: int| 0 <= i < grey.len() && grey[i] == a;
                assert(after[i] == a);
            }
        }
    } else {
        assert(marked.insert(h) =~= marked);
    }
}

/// Taking the last object off the worklist to scan it keeps the marks in order.
pub proof fn lemma_marking_pop(
    heap: Map<usize, ObjectView>,
    marked: Set<usize>,
    grey: Seq<usize>,
    roots: Set<usize>,
)
    requires
        marking(heap, marked, grey, roots, None),
        grey.len() > 0,
    ensures
        marking(heap, marked, grey.drop_last(), roots, Some(grey.last())),
        marked.contains(grey.last()),
{
    let rest = grey.drop_last();
    assert forall|i: int| 0 <= i < rest.len() implies marked.contains(#[trigger] rest[i]) by {
        assert(rest[i] == grey[i]);
    }
    assert forall|a: usize, b: usize| marked.contains(a) && #[trigger] edge(heap, a, b) implies marked.contains(
        b,
    ) || rest.contains(a) || Some(grey.last()) == Some(a) by {
        if grey.contains(a) && a != grey.last() {
            let i = choose|i: int| 0 <= i < grey.len() && grey[i] == a;
            assert(rest[i] == a);
        }
    }
}

/// Once everything that the scanned object refers to is marked, the scan of it is over.
pub proof fn lemma_marking_done(
    heap: Map<usize, ObjectView>,
    marked: Set<usize>,
    grey: Seq<usize>,
    roots: Set<usize>,
    h: usize,
)
    requires
        marking(heap, marked, grey, roots, Some(h)),
        forall|b: usize| #[trigger] edge(heap, h, b) ==> marked.contains(b),
    ensures
        marking(heap, marked, grey, roots, None),
{
}

/// With an empty worklist the marked objects are exactly the reachable ones.
pub proof fn lemma_marking_complete(
    heap: Map<usize, ObjectView>,
    marked: Set<usize>,
    roots: Set<usize>,
)
    requires
        marking(heap, marked, Seq::empty(), roots, None),
        roots.subset_of(marked),
    ensures
        edge_closed(heap, marked),
        marked == reachable_set(heap, roots),
{
    assert forall|a: usize, b: usize| marked.contains(a) && #[trigger] edge(heap, a, b) implies marked.contains(
        b,
    ) by {
        assert(!Seq::<usize>::empty().contains(a));
    }
    assert forall|h: usize| reachable(heap, roots, h) implies marked.contains(h) by {
        lemma_reachable_within(heap, roots, marked, h);
    }
    assert(marked =~= reachable_set(heap, roots));
}

/// What the collector charges for all objects of the heap.
pub open spec fn total_size(heap: Map<usize, ObjectView>) -> int {
    heap_size(heap, (usize::MAX + 1) as nat)
}

/// Handles at or above a bound that is above every object count nothing.
pub proof fn lemma_heap_size_beyond(heap: Map<usize, ObjectView>, n: nat, m: nat)
    requires
        n <= m <= usize::MAX + 1,
        forall|h: usize| heap.contains_key(h) ==> h < n,
    ensures
        heap_size(heap, m) == heap_size(heap, n),
    decreases m,
{
    if n < m {
        lemma_heap_size_beyond(heap, n, (m - 1) as nat);
    }
}

/// The size of a heap below a bound that is above every object is its total size.
pub proof fn lemma_total_size(heap: Map<usize, ObjectView>, n: nat)
    requires
        n <= usize::MAX + 1,
        forall|h: usize| heap.contains_key(h) ==> h < n,
    ensures
        heap_size(heap, n) == total_size(heap),
{
    lemma_heap_size_beyond(heap, n, (usize::MAX + 1) as nat);
}

} // verus!
