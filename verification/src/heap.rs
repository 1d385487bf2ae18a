use rustc_hash::FxBuildHasher;
use std::collections::HashMap;
use vstd::prelude::*;

use crate::graph::{
    closed, edge, edge_closed, has_kind, heap_size, holds_text, interning, lemma_heap_size_agree,
    lemma_heap_size_insert, lemma_heap_size_nonnegative, lemma_heap_size_remove,
    lemma_insert_closed, lemma_marking_complete, lemma_marking_done, lemma_marking_mark,
    lemma_marking_pop, lemma_refers_within, lemma_restrict_closed, lemma_root_reachable,
    lemma_step_reachable, marking, object_ok, reachable, reachable_set, valid_at, value_ok,
};
use crate::object::{ObjUpvalue, Object, ObjectKind, ObjectView, size_of_kind};
use crate::table::{intern_get, intern_insert, intern_new, intern_remove, interned};
use crate::value::Value;

verus! {

/// The number of bytes that the heap may hold before the first collection is due.
pub const INITIAL_GC_THRESHOLD: usize = 1048576;

/// After a collection the next one is due at this multiple of what survived.
pub const GC_HEAP_GROW_FACTOR: usize = 2;

/// A count of bytes, which stops at the largest number that the machine can hold.
pub open spec fn clamp(n: int) -> usize {
    if n > usize::MAX {
        usize::MAX
    } else if n < 0 {
        0
    } else {
        n as usize
    }
}

/// A heap cell: an object together with what the collector keeps of it.
#[derive(Debug)]
pub(crate) struct GcData {
    pub(crate) next: Option<usize>,
    pub(crate) marked: bool,
    pub(crate) data: Object,
}

impl GcData {
    /// Create an unmarked cell in front of `next`.
    pub(crate) fn new(next: Option<usize>, data: Object) -> (cell: Self)
        ensures
            cell.next == next,
            !cell.marked,
            cell.data == data,
    {
        GcData { next, marked: false, data }
    }

    /// The next cell in the list of all objects.
    pub(crate) fn get_next(&self) -> (next: Option<usize>)
        ensures
            next == self.next,
    {
        self.next
    }

    /// Set the next cell in the list of all objects.
    pub(crate) fn set_next(&mut self, next: Option<usize>)
        ensures
            *final(self) == (GcData { next, ..*old(self) }),
    {
        self.next = next;
    }

    /// Whether the cell is marked.
    pub(crate) fn is_marked(&self) -> (marked: bool)
        ensures
            marked == self.marked,
    {
        self.marked
    }

    /// Mark the cell and tell whether it was unmarked before.
    pub(crate) fn mark(&mut self) -> (fresh: bool)
        ensures
            fresh == !old(self).marked,
            *final(self) == (GcData { marked: true, ..*old(self) }),
    {
        if self.marked {
            return false;
        }
        self.marked = true;
        true
    }

    /// Unmark the cell.
    pub(crate) fn unmark(&mut self)
        ensures
            *final(self) == (GcData { marked: false, ..*old(self) }),
    {
        self.marked = false;
    }
}

/// Whether the slot under `h` holds a cell.
spec fn live_in(slots: Seq<Option<GcData>>, h: usize) -> bool {
    h < slots.len() && slots[h as int] is Some
}

/// The cell at place `i` of the list links to the cell at the next place, and the last
/// cell to none.
spec fn linked(slots: Seq<Option<GcData>>, c: Seq<usize>, i: int) -> bool {
    slots[c[i] as int].unwrap().next == (if i + 1 < c.len() {
        Some(c[i + 1])
    } else {
        None
    })
}

/// The objects that the slots hold.
spec fn view_of(slots: Seq<Option<GcData>>) -> Map<usize, ObjectView> {
    Map::new(|h: usize| live_in(slots, h), |h: usize| slots[h as int].unwrap().data@)
}

/// The handles of the marked cells.
spec fn marked_of(slots: Seq<Option<GcData>>) -> Set<usize> {
    Set::new(|h: usize| live_in(slots, h) && slots[h as int].unwrap().marked)
}

/// The number of unmarked cells among the first `n` slots.
spec fn count_unmarked(slots: Seq<Option<GcData>>, n: nat) -> nat
    decreases n,
{
    if n == 0 {
        0
    } else {
        let rest = count_unmarked(slots, (n - 1) as nat);
        if n <= slots.len() && slots[n - 1] is Some && !slots[n - 1].unwrap().marked {
            rest + 1
        } else {
            rest
        }
    }
}

/// Marking a cell takes one off the count of the unmarked cells, if the cell was
/// unmarked and is among those counted.
proof fn lemma_count_marking(
    a: Seq<Option<GcData>>,
    b: Seq<Option<GcData>>,
    h: usize,
    n: nat,
)
    requires
        a.len() == b.len(),
        live_in(a, h),
        b[h as int] == Some(GcData { marked: true, ..a[h as int].unwrap() }),
        forall|g: int| 0 <= g < a.len() && g != h ==> a[g] == b[g],
    ensures
        count_unmarked(b, n) == count_unmarked(a, n) - (if h < n && !a[h as int].unwrap().marked {
            1int
        } else {
            0int
        }),
    decreases n,
{
    if n > 0 {
        lemma_count_marking(a, b, h, (n - 1) as nat);
    }
}

/// Mark the cell in slot `h` and tell whether it was unmarked before.
fn slot_mark(slots: &mut Vec<Option<GcData>>, h: usize) -> (fresh: bool)
    requires
        live_in(old(slots)@, h),
    ensures
        fresh == !old(slots)@[h as int].unwrap().marked,
        final(slots)@ == old(slots)@.update(
            h as int,
            Some(GcData { marked: true, ..old(slots)@[h as int].unwrap() }),
        ),
{
    let fresh = match &mut slots[h] {
        Some(cell) => cell.mark(),
        None => false,
    };
    assert(slots@ =~= old(slots)@.update(
        h as int,
        Some(GcData { marked: true, ..old(slots)@[h as int].unwrap() }),
    ));
    fresh
}

/// Unmark the cell in slot `h`.
fn slot_unmark(slots: &mut Vec<Option<GcData>>, h: usize)
    requires
        live_in(old(slots)@, h),
    ensures
        final(slots)@ == old(slots)@.update(
            h as int,
            Some(GcData { marked: false, ..old(slots)@[h as int].unwrap() }),
        ),
{
    match &mut slots[h] {
        Some(cell) => {
            cell.unmark();
        },
        None => {},
    }
    assert(slots@ =~= old(slots)@.update(
        h as int,
        Some(GcData { marked: false, ..old(slots)@[h as int].unwrap() }),
    ));
}

/// Set the link of the cell in slot `h`.
fn slot_set_next(slots: &mut Vec<Option<GcData>>, h: usize, next: Option<usize>)
    requires
        live_in(old(slots)@, h),
    ensures
        final(slots)@ == old(slots)@.update(
            h as int,
            Some(GcData { next, ..old(slots)@[h as int].unwrap() }),
        ),
{
    match &mut slots[h] {
        Some(cell) => {
            cell.set_next(next);
        },
        None => {},
    }
    assert(slots@ =~= old(slots)@.update(
        h as int,
        Some(GcData { next, ..old(slots)@[h as int].unwrap() }),
    ));
}

/// Empty slot `h` and hand out what it held.
fn slot_take(slots: &mut Vec<Option<GcData>>, h: usize) -> (cell: Option<GcData>)
    requires
        h < old(slots)@.len(),
    ensures
        final(slots)@ == old(slots)@.update(h as int, None),
        cell == old(slots)@[h as int],
{
    let cell = slots[h].take();
    assert(slots@ =~= old(slots)@.update(h as int, None));
    cell
}

/// The object heap: every object that the program has allocated and that no collection
/// has freed, each under its handle.
///
/// The cells form a list that starts at the most recently allocated one. Its view is
/// the map from the handles in use to what their objects hold.
pub struct Heap {
    slots: Vec<Option<GcData>>,
    head: Option<usize>,
    free: Vec<usize>,
    strings: HashMap<String, usize, FxBuildHasher>,
    bytes_allocated: usize,
    next_gc: usize,
    chain: Ghost<Seq<usize>>,
}

impl Heap {
    /// The objects of the heap.
    pub closed spec fn view(&self) -> Map<usize, ObjectView> {
        view_of(self.slots@)
    }

    /// The handles of the objects that carry a mark.
    pub closed spec fn marked(&self) -> Set<usize> {
        marked_of(self.slots@)
    }

    /// The number of objects that carry no mark.
    pub closed spec fn unmarked(&self) -> nat {
        count_unmarked(self.slots@, self.slots@.len())
    }

    /// Every handle is below this bound.
    pub closed spec fn capacity(&self) -> nat {
        self.slots@.len()
    }

    /// The list of all objects: their handles in the order in which the links lead from
    /// the head of the list, which is the object that was allocated last.
    pub closed spec fn order(&self) -> Seq<usize> {
        self.chain@
    }

    /// The bytes that the collector counts as allocated.
    pub closed spec fn bytes(&self) -> usize {
        self.bytes_allocated
    }

    /// The number of allocated bytes above which a collection is due.
    pub closed spec fn threshold(&self) -> usize {
        self.next_gc
    }

    /// The list of all cells visits each cell once, from the head along the links.
    spec fn chain_ok(&self) -> bool {
        let c = self.chain@;
        &&& self.slots@.len() <= usize::MAX
        &&& c.no_duplicates()
        &&& forall|i: int| 0 <= i < c.len() ==> live_in(self.slots@, #[trigger] c[i])
        &&& forall|h: usize| #[trigger] live_in(self.slots@, h) ==> c.contains(h)
        &&& self.head == (if c.len() > 0 {
            Some(c[0])
        } else {
            None
        })
        &&& forall|i: int| 0 <= i < c.len() ==> #[trigger] linked(self.slots@, c, i)
    }

    /// The free list names empty slots, each once.
    spec fn free_ok(&self) -> bool {
        &&& self.free@.no_duplicates()
        &&& forall|i: int|
            0 <= i < self.free@.len() ==> (#[trigger] self.free@[i]) < self.slots@.len()
                && self.slots@[self.free@[i] as int] is None
    }

    /// The table of interned strings holds exactly the string objects, each under its
    /// text.
    spec fn strings_ok(&self) -> bool {
        let table = interned(self.strings);
        let view = view_of(self.slots@);
        &&& forall|text: Seq<char>| #[trigger]
            table.contains_key(text) ==> view.contains_key(table[text]) && view[table[text]]
                == ObjectView::String(text)
        &&& forall|h: usize| #[trigger]
            view.contains_key(h) && view[h] is String ==> table.contains_key(view[h]->String_0)
                && table[view[h]->String_0] == h
    }

    /// The chunk of every function object is well formed.
    spec fn objects_ok(&self) -> bool {
        forall|h: usize| #[trigger]
            live_in(self.slots@, h) ==> self.slots@[h as int].unwrap().data.wf()
    }

    /// What holds of the heap at all times, also while a collection has marked some of
    /// its objects.
    pub closed spec fn inv(&self) -> bool {
        &&& self.chain_ok()
        &&& self.free_ok()
        &&& self.strings_ok()
        &&& self.objects_ok()
        &&& closed(self@)
        &&& self.bytes_allocated == clamp(heap_size(self@, self.slots@.len()))
    }

    /// What holds of the heap between collections: the above, and no object is marked.
    pub closed spec fn wf(&self) -> bool {
        &&& self.inv()
        &&& forall|h: usize| #[trigger]
            live_in(self.slots@, h) ==> !self.slots@[h as int].unwrap().marked
    }

    /// What the invariant says of the views: references do not dangle, strings are
    /// interned, handles are below the capacity, and the heap counts what its objects
    /// are charged.
    pub proof fn lemma_inv(&self)
        requires
            self.inv(),
        ensures
            closed(self@),
            interning(self@),
            forall|h: usize| self@.contains_key(h) ==> h < self.capacity(),
            forall|h: usize| self.marked().contains(h) ==> self@.contains_key(h),
            self.bytes() == clamp(heap_size(self@, self.capacity())),
            self.bytes() == clamp(crate::graph::total_size(self@)),
            self.capacity() <= usize::MAX,
            self.order().no_duplicates(),
            forall|h: usize| self.order().contains(h) <==> self@.contains_key(h),
    {
        assert forall|h: usize| self.order().contains(h) implies self@.contains_key(h) by {
            let i = choose|i: int| 0 <= i < self.chain@.len() && self.chain@[i] == h;
            assert(live_in(self.slots@, self.chain@[i]));
        }
        crate::graph::lemma_total_size(self@, self.slots@.len());
        let view = self@;
        let table = interned(self.strings);
        assert forall|a: usize, b: usize, text: Seq<char>|
            #![trigger holds_text(view, a, text), holds_text(view, b, text)]
            holds_text(view, a, text) && holds_text(view, b, text) implies a == b by {
            assert(table[view[a]->String_0] == a);
            assert(table[view[b]->String_0] == b);
        }
    }

    /// Between collections no object is marked.
    pub proof fn lemma_wf(&self)
        requires
            self.wf(),
        ensures
            self.inv(),
            self.marked() == Set::<usize>::empty(),
    {
        assert(self.marked() =~= Set::<usize>::empty());
    }

    /// Create an empty heap.
    pub fn new() -> (heap: Self)
        ensures
            heap.wf(),
            heap@ == Map::<usize, ObjectView>::empty(),
            heap.bytes() == 0,
            heap.threshold() == INITIAL_GC_THRESHOLD,
    {
        let heap = Heap {
            slots: Vec::new(),
            head: None,
            free: Vec::new(),
            strings: intern_new(),
            bytes_allocated: 0,
            next_gc: INITIAL_GC_THRESHOLD,
            chain: Ghost(Seq::empty()),
        };
        assert(heap@ =~= Map::<usize, ObjectView>::empty());
        heap
    }

    /// The bytes that the collector counts as allocated.
    pub fn size(&self) -> (n: usize)
        ensures
            n == self.bytes(),
    {
        self.bytes_allocated
    }

    /// The number of allocated bytes above which a collection is due.
    pub fn next_gc(&self) -> (n: usize)
        ensures
            n == self.threshold(),
    {
        self.next_gc
    }

    /// The object under handle `h`, if the heap holds one.
    pub fn get(&self, h: usize) -> (object: Option<&Object>)
        requires
            self.inv(),
        ensures
            match object {
                Some(o) => self@.contains_key(h) && o@ == self@[h] && o.wf(),
                None => !self@.contains_key(h),
            },
    {
        if h < self.slots.len() {
            match &self.slots[h] {
                Some(cell) => {
                    assert(live_in(self.slots@, h));
                    Some(&cell.data)
                },
                None => None,
            }
        } else {
            None
        }
    }

    /// Whether the object under handle `h` carries a mark.
    pub fn is_marked(&self, h: usize) -> (marked: bool)
        ensures
            marked == self.marked().contains(h),
    {
        if h < self.slots.len() {
            match &self.slots[h] {
                Some(cell) => cell.is_marked(),
                None => false,
            }
        } else {
            false
        }
    }

    /// Put an object into an empty slot, at the head of the list of all cells, and
    /// charge for it.
    fn link(&mut self, data: Object) -> (h: usize)
        requires
            old(self).chain_ok(),
            old(self).free_ok(),
            old(self).bytes_allocated == clamp(heap_size(old(self)@, old(self).slots@.len())),
        ensures
            final(self).chain_ok(),
            final(self).free_ok(),
            final(self).bytes_allocated == clamp(heap_size(final(self)@, final(self).slots@.len())),
            final(self).bytes_allocated == clamp(
                old(self).bytes_allocated + size_of_kind(data@.kind()),
            ),
            !live_in(old(self).slots@, h),
            h < final(self).slots@.len(),
            final(self).slots@.len() >= old(self).slots@.len(),
            final(self).slots@[h as int] == Some(
                GcData { next: old(self).head, marked: false, data },
            ),
            forall|g: int|
                0 <= g < old(self).slots@.len() && g != h ==> final(self).slots@[g] == old(
                    self,
                ).slots@[g],
            final(self).slots@.len() == (if h < old(self).slots@.len() {
                old(self).slots@.len()
            } else {
                old(self).slots@.len() + 1
            }),
            final(self)@ == old(self)@.insert(h, data@),
            final(self).chain@ == seq![h] + old(self).chain@,
            final(self).strings == old(self).strings,
            final(self).next_gc == old(self).next_gc,
    {
        let ghost kind = data@.kind();
        let ghost before = self@;
        let len = self.slots.len();
        let ghost n = len as nat;
        let size = data.mem_size();
        let cell = GcData::new(self.head, data);
        let h = match self.free.pop() {
            Some(i) => {
                assert(i == old(self).free@[old(self).free@.len() - 1]);
                self.slots.set(i, Some(cell));
                proof {
                    lemma_heap_size_insert(before, n, i, cell.data@);
                    assert(self@ =~= before.insert(i, cell.data@));
                }
                i
            },
            None => {
                let i = self.slots.len();
                self.slots.push(Some(cell));
                proof {
                    assert(self@ =~= before.insert(i, cell.data@));
                    lemma_heap_size_agree(before, self@, n);
                }
                i
            },
        };
        let total = self.slots.len();
        proof {
            lemma_heap_size_nonnegative(before, n);
        }
        self.bytes_allocated = if usize::MAX - self.bytes_allocated < size {
            usize::MAX
        } else {
            self.bytes_allocated + size
        };
        self.head = Some(h);
        let ghost c = self.chain@;
        self.chain = Ghost(seq![h] + c);
        proof {
            let d = self.chain@;
            assert(!c.contains(h)) by {
                if c.contains(h) {
                    let j = choose|j: int| 0 <= j < c.len() && c[j] == h;
                    assert(live_in(old(self).slots@, c[j]));
                }
            }
            assert forall|i: int| 0 <= i < d.len() implies live_in(self.slots@, #[trigger] d[i]) by {
                if i > 0 {
                    assert(d[i] == c[i - 1]);
                    assert(live_in(old(self).slots@, c[i - 1]));
                }
            }
            assert forall|g: usize| #[trigger] live_in(self.slots@, g) implies d.contains(g) by {
                if g == h {
                    assert(d[0] == h);
                } else {
                    assert(live_in(old(self).slots@, g));
                    let j = choose|j: int| 0 <= j < c.len() && c[j] == g;
                    assert(d[j + 1] == g);
                }
            }
            assert forall|i: int, j: int| 0 <= i < d.len() && 0 <= j < d.len() && i != j implies d[i]
                != d[j] by {
                if i > 0 && j > 0 {
                    assert(d[i] == c[i - 1] && d[j] == c[j - 1]);
                } else if i > 0 {
                    assert(d[i] == c[i - 1]);
                    assert(c.contains(d[i]));
                } else {
                    assert(d[j] == c[j - 1]);
                    assert(c.contains(d[j]));
                }
            }
            assert forall|i: int| 0 <= i < d.len() implies #[trigger] linked(self.slots@, d, i) by {
                if i > 0 {
                    assert(d[i] == c[i - 1]);
                    assert(live_in(old(self).slots@, c[i - 1]));
                    assert(linked(old(self).slots@, c, i - 1));
                    if i + 1 < d.len() {
                        assert(d[i + 1] == c[i]);
                    }
                } else if d.len() > 1 {
                    assert(d[1] == c[0]);
                }
            }
            assert forall|i: int| 0 <= i < self.free@.len() implies (#[trigger] self.free@[i])
                < self.slots@.len() && self.slots@[self.free@[i] as int] is None by {
                assert(self.free@[i] == old(self).free@[i]);
            }
        }
        h
    }

    /// Allocate an object that is no string and return its handle.
    pub fn allocate(&mut self, object: Object) -> (h: usize)
        requires
            old(self).inv(),
            object.wf(),
            !(object is String),
            object_ok(old(self)@, object@),
        ensures
            final(self).inv(),
            old(self).wf() ==> final(self).wf(),
            !old(self)@.contains_key(h),
            final(self)@ == old(self)@.insert(h, object@),
            final(self).order() == seq![h] + old(self).order(),
            final(self).marked() == old(self).marked(),
            final(self).unmarked() >= old(self).unmarked(),
            final(self).threshold() == old(self).threshold(),
            final(self).bytes() == clamp(old(self).bytes() + size_of_kind(object@.kind())),
    {
        let ghost view = object@;
        let h = self.link(object);
        proof {
            lemma_insert_closed(old(self)@, h, view);
            assert(self.marked() =~= old(self).marked());
            self.lemma_count_grows(*old(self), h);
            self.lemma_linked(*old(self), h);
        }
        h
    }

    /// What linking a new cell keeps of the invariant, where the table of interned
    /// strings holds the new cell if it is a string.
    proof fn lemma_linked(&self, before: Heap, h: usize)
        requires
            before.inv(),
            self.chain_ok(),
            self.free_ok(),
            self.bytes_allocated == clamp(heap_size(self@, self.slots@.len())),
            !live_in(before.slots@, h),
            live_in(self.slots@, h),
            !self.slots@[h as int].unwrap().marked,
            self.slots@[h as int].unwrap().data.wf(),
            self.slots@.len() >= before.slots@.len(),
            forall|g: int|
                0 <= g < before.slots@.len() && g != h ==> self.slots@[g] == before.slots@[g],
            self.slots@.len() == (if h < before.slots@.len() {
                before.slots@.len()
            } else {
                before.slots@.len() + 1
            }),
            self@ == before@.insert(h, self.slots@[h as int].unwrap().data@),
            closed(self@),
            match self.slots@[h as int].unwrap().data {
                Object::String(s) => interned(self.strings) == interned(before.strings).insert(
                    s@,
                    h,
                ) && !interned(before.strings).contains_key(s@),
                _ => self.strings == before.strings,
            },
        ensures
            self.inv(),
            before.wf() ==> self.wf(),
    {
        let table = interned(self.strings);
        let old_table = interned(before.strings);
        let view = self@;
        assert forall|t: Seq<char>| #[trigger] table.contains_key(t) implies view.contains_key(
            table[t],
        ) && view[table[t]] == ObjectView::String(t) by {
            if old_table.contains_key(t) {
                assert(before@.contains_key(old_table[t]));
            }
        }
        assert forall|g: usize| #[trigger]
            view.contains_key(g) && view[g] is String implies table.contains_key(
            view[g]->String_0,
        ) && table[view[g]->String_0] == g by {
            if g != h {
                assert(before@.contains_key(g));
                assert(old_table.contains_key(before@[g]->String_0));
            }
        }
        assert forall|g: usize| #[trigger] live_in(self.slots@, g) implies self.slots@[g as int].unwrap().data.wf() by {
            if g != h {
                assert(live_in(before.slots@, g));
            }
        }
        if before.wf() {
            assert forall|g: usize| #[trigger] live_in(self.slots@, g) implies !self.slots@[g as int].unwrap().marked by {
                if g != h {
                    assert(live_in(before.slots@, g));
                }
            }
        }
    }

    /// Allocating a cell does not take from the count of the unmarked cells.
    proof fn lemma_count_grows(&self, before: Heap, h: usize)
        requires
            !live_in(before.slots@, h),
            h < self.slots@.len(),
            self.slots@.len() >= before.slots@.len(),
            forall|g: int|
                0 <= g < before.slots@.len() && g != h ==> self.slots@[g] == before.slots@[g],
        ensures
            self.unmarked() >= before.unmarked(),
    {
        Self::lemma_count_grows_to(before.slots@, self.slots@, h, before.slots@.len());
        Self::lemma_count_monotone(self.slots@, before.slots@.len(), self.slots@.len());
    }

    proof fn lemma_count_grows_to(
        a: Seq<Option<GcData>>,
        b: Seq<Option<GcData>>,
        h: usize,
        n: nat,
    )
        requires
            !live_in(a, h),
            n <= a.len() <= b.len(),
            forall|g: int| 0 <= g < a.len() && g != h ==> b[g] == a[g],
        ensures
            count_unmarked(b, n) >= count_unmarked(a, n),
        decreases n,
    {
        if n > 0 {
            Self::lemma_count_grows_to(a, b, h, (n - 1) as nat);
        }
    }

    proof fn lemma_count_monotone(a: Seq<Option<GcData>>, m: nat, n: nat)
        requires
            m <= n,
        ensures
            count_unmarked(a, m) <= count_unmarked(a, n),
        decreases n,
    {
        if m < n {
            Self::lemma_count_monotone(a, m, (n - 1) as nat);
        }
    }

    /// The handle of the string object with the given text: the one that the heap
    /// holds, or else a new one.
    pub fn intern(&mut self, text: String) -> (h: usize)
        requires
            old(self).inv(),
        ensures
            final(self).inv(),
            old(self).wf() ==> final(self).wf(),
            final(self)@.contains_key(h),
            final(self)@[h] == ObjectView::String(text@),
            final(self).marked() == old(self).marked(),
            final(self).unmarked() >= old(self).unmarked(),
            final(self).threshold() == old(self).threshold(),
            old(self)@.contains_key(h) ==> final(self)@ == old(self)@ && final(self).bytes()
                == old(self).bytes() && final(self).order() == old(self).order(),
            !old(self)@.contains_key(h) ==> final(self).order() == seq![h] + old(self).order(),
            !old(self)@.contains_key(h) ==> final(self)@ == old(self)@.insert(
                h,
                ObjectView::String(text@),
            ) && final(self).bytes() == clamp(old(self).bytes() + size_of_kind(ObjectKind::String)),
            (exists|g: usize| #[trigger]
                old(self)@.contains_key(g) && old(self)@[g] == ObjectView::String(text@))
                ==> old(self)@.contains_key(h),
    {
        match intern_get(&self.strings, text.as_str()) {
            Some(h) => h,
            None => {
                let key = text.clone();
                let ghost content = text@;
                let h = self.link(Object::String(text));
                intern_insert(&mut self.strings, key, h);
                proof {
                    lemma_insert_closed(old(self)@, h, ObjectView::String(content));
                    assert(self.marked() =~= old(self).marked());
                    self.lemma_count_grows(*old(self), h);
                    self.lemma_linked(*old(self), h);
                    assert forall|g: usize| #[trigger]
                        old(self)@.contains_key(g) implies old(self)@[g] != ObjectView::String(
                        content,
                    ) by {
                        if old(self)@[g] == ObjectView::String(content) {
                            assert(interned(old(self).strings).contains_key(
                                old(self)@[g]->String_0,
                            ));
                        }
                    }
                }
                h
            },
        }
    }

    /// What an update of one cell in its place keeps of the invariant: the object under
    /// `h` was replaced by one of its kind that is valid in the heap, and nothing else
    /// was touched.
    proof fn lemma_update(&self, before: Heap, h: usize)
        requires
            before.inv(),
            live_in(before.slots@, h),
            live_in(self.slots@, h),
            self.slots@.len() == before.slots@.len(),
            forall|g: int| 0 <= g < before.slots@.len() && g != h ==> self.slots@[g] == before.slots@[g],
            self.slots@[h as int].unwrap().next == before.slots@[h as int].unwrap().next,
            self.slots@[h as int].unwrap().marked == before.slots@[h as int].unwrap().marked,
            self.slots@[h as int].unwrap().data@.kind() == before.slots@[h as int].unwrap().data@.kind(),
            !(self.slots@[h as int].unwrap().data is Fun),
            !(self.slots@[h as int].unwrap().data is String),
            object_ok(before@, self.slots@[h as int].unwrap().data@),
            self.head == before.head,
            self.free == before.free,
            self.strings == before.strings,
            self.bytes_allocated == before.bytes_allocated,
            self.next_gc == before.next_gc,
            self.chain == before.chain,
        ensures
            self.inv(),
            before.wf() ==> self.wf(),
            self@ == before@.insert(h, self.slots@[h as int].unwrap().data@),
            self.marked() == before.marked(),
            self.unmarked() == before.unmarked(),
            self.order() == before.order(),
    {
        let o = self.slots@[h as int].unwrap().data@;
        assert(self@ =~= before@.insert(h, o));
        assert(self.marked() =~= before.marked());
        lemma_insert_closed(before@, h, o);
        lemma_heap_size_insert(before@, before.slots@.len(), h, o);
        Self::lemma_count_same(before.slots@, self.slots@, before.slots@.len());
        let c = self.chain@;
        assert forall|i: int| 0 <= i < c.len() implies live_in(self.slots@, #[trigger] c[i]) by {
            assert(live_in(before.slots@, c[i]));
        }
        assert forall|g: usize| #[trigger] live_in(self.slots@, g) implies c.contains(g) by {
            assert(live_in(before.slots@, g));
        }
        assert forall|i: int| 0 <= i < c.len() implies #[trigger] linked(self.slots@, c, i) by {
            assert(live_in(before.slots@, c[i]));
            assert(linked(before.slots@, c, i));
        }
        assert forall|g: usize| #[trigger] live_in(self.slots@, g) implies self.slots@[g as int].unwrap().data.wf() by {
            if g != h {
                assert(live_in(before.slots@, g));
            }
        }
        let table = interned(self.strings);
        assert forall|t: Seq<char>| #[trigger] table.contains_key(t) implies self@.contains_key(
            table[t],
        ) && self@[table[t]] == ObjectView::String(t) by {
            assert(before@.contains_key(table[t]));
        }
        if before.wf() {
            assert forall|g: usize| #[trigger] live_in(self.slots@, g) implies !self.slots@[g as int].unwrap().marked by {
                assert(live_in(before.slots@, g));
            }
        }
    }

    proof fn lemma_count_same(a: Seq<Option<GcData>>, b: Seq<Option<GcData>>, n: nat)
        requires
            a.len() == b.len(),
            forall|g: int|
                0 <= g < a.len() ==> (a[g] is Some <==> b[g] is Some) && (a[g] is Some
                    ==> a[g].unwrap().marked == b[g].unwrap().marked),
        ensures
            count_unmarked(a, n) == count_unmarked(b, n),
        decreases n,
    {
        if n > 0 {
            Self::lemma_count_same(a, b, (n - 1) as nat);
        }
    }

    /// Overwrite the upvalue object under handle `h`.
    pub fn set_upvalue(&mut self, h: usize, upvalue: ObjUpvalue)
        requires
            old(self).inv(),
            has_kind(old(self)@, h, ObjectKind::Upvalue),
            object_ok(old(self)@, ObjectView::Upvalue(upvalue)),
        ensures
            final(self).inv(),
            old(self).wf() ==> final(self).wf(),
            final(self)@ == old(self)@.insert(h, ObjectView::Upvalue(upvalue)),
            final(self).marked() == old(self).marked(),
            final(self).unmarked() == old(self).unmarked(),
            final(self).bytes() == old(self).bytes(),
            final(self).threshold() == old(self).threshold(),
            final(self).order() == old(self).order(),
    {
        assert(live_in(self.slots@, h));
        let cell = slot_take(&mut self.slots, h).unwrap();
        let updated = GcData { next: cell.next, marked: cell.marked, data: Object::Upvalue(upvalue) };
        self.slots.set(h, Some(updated));
        proof {
            self.lemma_update(*old(self), h);
        }
    }

    /// Store `closure` as the method called `name` of the class under handle `class`.
    pub fn set_method(&mut self, class: usize, name: usize, closure: usize)
        requires
            old(self).inv(),
            has_kind(old(self)@, class, ObjectKind::Class),
            has_kind(old(self)@, name, ObjectKind::String),
            has_kind(old(self)@, closure, ObjectKind::Closure),
        ensures
            final(self).inv(),
            old(self).wf() ==> final(self).wf(),
            old(self)@[class] matches ObjectView::Class { name: n, methods } && final(self)@
                == old(self)@.insert(
                class,
                ObjectView::Class { name: n, methods: methods.insert(name, closure) },
            ),
            final(self).marked() == old(self).marked(),
            final(self).unmarked() == old(self).unmarked(),
            final(self).bytes() == old(self).bytes(),
            final(self).threshold() == old(self).threshold(),
            final(self).order() == old(self).order(),
    {
        assert(live_in(self.slots@, class));
        let cell = slot_take(&mut self.slots, class).unwrap();
        let GcData { next, marked, data } = cell;
        let data = match data {
            Object::Class(mut c) => {
                c.methods.insert(name, closure);
                Object::Class(c)
            },
            other => other,
        };
        self.slots.set(class, Some(GcData { next, marked, data }));
        proof {
            assert(valid_at(old(self)@, class));
            self.lemma_update(*old(self), class);
        }
    }

    /// Store `value` as the field called `name` of the instance under handle `instance`.
    pub fn set_field(&mut self, instance: usize, name: usize, value: Value)
        requires
            old(self).inv(),
            has_kind(old(self)@, instance, ObjectKind::Instance),
            has_kind(old(self)@, name, ObjectKind::String),
            value_ok(old(self)@, value),
        ensures
            final(self).inv(),
            old(self).wf() ==> final(self).wf(),
            old(self)@[instance] matches ObjectView::Instance { class, fields } && final(self)@
                == old(self)@.insert(
                instance,
                ObjectView::Instance { class, fields: fields.insert(name, value) },
            ),
            final(self).marked() == old(self).marked(),
            final(self).unmarked() == old(self).unmarked(),
            final(self).bytes() == old(self).bytes(),
            final(self).threshold() == old(self).threshold(),
            final(self).order() == old(self).order(),
    {
        assert(live_in(self.slots@, instance));
        let cell = slot_take(&mut self.slots, instance).unwrap();
        let GcData { next, marked, data } = cell;
        let data = match data {
            Object::Instance(mut o) => {
                o.fields.insert(name, value);
                Object::Instance(o)
            },
            other => other,
        };
        self.slots.set(instance, Some(GcData { next, marked, data }));
        proof {
            assert(valid_at(old(self)@, instance));
            self.lemma_update(*old(self), instance);
        }
    }
}

/// What holds of a cell that the sweep has kept: it holds what it held, it is unmarked,
/// and it links to the cell kept after it, or to the cell that the sweep looks at next.
spec fn kept_ok(
    s: Seq<Option<GcData>>,
    s0: Seq<Option<GcData>>,
    c0: Seq<usize>,
    i: int,
    kept: Seq<usize>,
    cur: Option<usize>,
    t: int,
) -> bool {
    let h = kept[t];
    &&& live_in(s, h)
    &&& live_in(s0, h)
    &&& s0[h as int].unwrap().marked
    &&& exists|j: int| 0 <= j < i && c0[j] == h
    &&& s[h as int].unwrap().data == s0[h as int].unwrap().data
    &&& !s[h as int].unwrap().marked
    &&& s[h as int].unwrap().next == (if t + 1 < kept.len() {
        Some(kept[t + 1])
    } else {
        cur
    })
}

/// What holds of the cell at place `j` of the list as it was before the sweep: the
/// sweep has not reached it, or has kept it, or has emptied its slot.
spec fn swept_ok(
    s: Seq<Option<GcData>>,
    s0: Seq<Option<GcData>>,
    c0: Seq<usize>,
    i: int,
    kept: Seq<usize>,
    j: int,
) -> bool {
    let h = c0[j];
    if j >= i {
        s[h as int] == s0[h as int]
    } else if s0[h as int].unwrap().marked {
        kept.contains(h)
    } else {
        s[h as int] is None
    }
}

impl Heap {
    /// What a change of one mark keeps of the invariant.
    proof fn lemma_flag(&self, before: Heap, h: usize, flag: bool)
        requires
            before.inv(),
            live_in(before.slots@, h),
            self.slots@ == before.slots@.update(
                h as int,
                Some(GcData { marked: flag, ..before.slots@[h as int].unwrap() }),
            ),
            self.head == before.head,
            self.free == before.free,
            self.strings == before.strings,
            self.bytes_allocated == before.bytes_allocated,
            self.next_gc == before.next_gc,
            self.chain == before.chain,
        ensures
            self.inv(),
            self@ == before@,
            self.order() == before.order(),
            self.marked() == (if flag {
                before.marked().insert(h)
            } else {
                before.marked().remove(h)
            }),
    {
        assert(self@ =~= before@);
        assert(self.marked() =~= (if flag {
            before.marked().insert(h)
        } else {
            before.marked().remove(h)
        }));
        let c = self.chain@;
        assert forall|i: int| 0 <= i < c.len() implies live_in(self.slots@, #[trigger] c[i]) by {
            assert(live_in(before.slots@, c[i]));
        }
        assert forall|g: usize| #[trigger] live_in(self.slots@, g) implies c.contains(g) by {
            assert(live_in(before.slots@, g));
        }
        assert forall|i: int| 0 <= i < c.len() implies #[trigger] linked(self.slots@, c, i) by {
            assert(live_in(before.slots@, c[i]));
            assert(linked(before.slots@, c, i));
        }
        assert forall|g: usize| #[trigger] live_in(self.slots@, g) implies self.slots@[g as int].unwrap().data.wf() by {
            assert(live_in(before.slots@, g));
        }
    }

    /// Mark the object under handle `h` and put it on the worklist if it has not been
    /// marked before.
    pub fn mark(&mut self, h: usize, grey_objects: &mut Vec<usize>)
        requires
            old(self).inv(),
            old(self)@.contains_key(h),
        ensures
            final(self).inv(),
            final(self)@ == old(self)@,
            final(self).order() == old(self).order(),
            final(self).bytes() == old(self).bytes(),
            final(self).threshold() == old(self).threshold(),
            final(self).marked() == old(self).marked().insert(h),
            old(self).marked().contains(h) ==> final(grey_objects)@ == old(grey_objects)@
                && final(self).unmarked() == old(self).unmarked(),
            !old(self).marked().contains(h) ==> final(grey_objects)@ == old(grey_objects)@.push(h)
                && final(self).unmarked() + 1 == old(self).unmarked(),
    {
        assert(live_in(self.slots@, h));
        let fresh = slot_mark(&mut self.slots, h);
        if fresh {
            grey_objects.push(h);
        }
        proof {
            lemma_count_marking(old(self).slots@, self.slots@, h, self.slots@.len());
            self.lemma_flag(*old(self), h, true);
        }
    }

    /// Mark everything that can be reached from the marked objects. The worklist holds
    /// the marked objects that may still refer to unmarked ones; it comes back empty.
    pub fn trace(&mut self, grey_objects: &mut Vec<usize>)
        requires
            old(self).inv(),
            forall|i: int|
                0 <= i < old(grey_objects)@.len() ==> old(self).marked().contains(
                    #[trigger] old(grey_objects)@[i],
                ),
            forall|a: usize, b: usize|
                old(self).marked().contains(a) && #[trigger] edge(old(self)@, a, b) ==> old(
                    self,
                ).marked().contains(b) || old(grey_objects)@.contains(a),
        ensures
            final(self).inv(),
            final(self)@ == old(self)@,
            final(self).order() == old(self).order(),
            final(self).bytes() == old(self).bytes(),
            final(self).threshold() == old(self).threshold(),
            final(grey_objects)@.len() == 0,
            final(self).marked() == reachable_set(old(self)@, old(self).marked()),
            edge_closed(final(self)@, final(self).marked()),
    {
        let ghost roots = self.marked();
        let ghost heap = self@;
        proof {
            self.lemma_inv();
            assert forall|h: usize| #[trigger] roots.contains(h) implies heap.contains_key(h)
                && reachable(heap, roots, h) by {
                lemma_root_reachable(heap, roots, h);
            }
        }
        while grey_objects.len() > 0
            invariant
                self.inv(),
                self@ == heap,
                self.order() == old(self).order(),
                self.bytes() == old(self).bytes(),
                self.threshold() == old(self).threshold(),
                marking(heap, self.marked(), grey_objects@, roots, None),
                roots.subset_of(self.marked()),
            decreases self.unmarked(), grey_objects@.len(),
        {
            let ghost u0 = self.unmarked();
            let ghost l0 = grey_objects@.len();
            proof {
                lemma_marking_pop(heap, self.marked(), grey_objects@, roots);
            }
            let h = grey_objects.pop().unwrap();
            let successors = match self.get(h) {
                Some(object) => object.references(),
                None => Vec::new(),
            };
            let mut i: usize = 0;
            while i < successors.len()
                invariant
                    i <= successors@.len(),
                    self.inv(),
                    self@ == heap,
                    self.order() == old(self).order(),
                    self.bytes() == old(self).bytes(),
                    self.threshold() == old(self).threshold(),
                    marking(heap, self.marked(), grey_objects@, roots, Some(h)),
                    roots.subset_of(self.marked()),
                    self.marked().contains(h),
                    forall|b: usize| successors@.contains(b) <==> heap[h].refers_to(b),
                    forall|j: int| 0 <= j < i ==> self.marked().contains(#[trigger] successors@[j]),
                    self.unmarked() + grey_objects@.len() == u0 + l0 - 1,
                    grey_objects@.len() >= l0 - 1,
                decreases successors@.len() - i,
            {
                let b = successors[i];
                proof {
                    assert(successors@.contains(b));
                    assert(edge(heap, h, b));
                    self.lemma_inv();
                    assert(valid_at(heap, h));
                    lemma_refers_within(heap, heap[h], b);
                    lemma_step_reachable(heap, roots, h, b);
                    lemma_marking_mark(heap, self.marked(), grey_objects@, roots, Some(h), b);
                }
                self.mark(b, grey_objects);
                i += 1;
            }
            proof {
                assert forall|b: usize| #[trigger] edge(heap, h, b) implies self.marked().contains(
                    b,
                ) by {
                    assert(successors@.contains(b));
                    let j = choose|j: int| 0 <= j < successors@.len() && successors@[j] == b;
                    assert(self.marked().contains(successors@[j]));
                }
                lemma_marking_done(heap, self.marked(), grey_objects@, roots, h);
            }
        }
        proof {
            assert(grey_objects@ =~= Seq::<usize>::empty());
            lemma_marking_complete(heap, self.marked(), roots);
        }
    }
}

impl Heap {
    /// What holds while the sweep walks the list of all cells: `before` is the heap as
    /// the sweep found it, `i` the number of cells that the sweep has passed, `kept`
    /// those of them that it kept, `cur` the cell that it looks at next and `prev` the
    /// cell that it kept last. With `exact` set the heap counts its bytes as it goes.
    spec fn sweeping(
        &self,
        before: Heap,
        i: int,
        kept: Seq<usize>,
        cur: Option<usize>,
        prev: Option<usize>,
        exact: bool,
    ) -> bool {
        let c0 = before.chain@;
        let s0 = before.slots@;
        let s = self.slots@;
        &&& 0 <= i <= c0.len()
        &&& s.len() == s0.len()
        &&& cur == (if i < c0.len() {
            Some(c0[i])
        } else {
            None
        })
        &&& prev == (if kept.len() > 0 {
            Some(kept.last())
        } else {
            None
        })
        &&& self.head == (if kept.len() > 0 {
            Some(kept[0])
        } else {
            cur
        })
        &&& kept.no_duplicates()
        &&& kept == c0.take(i).filter(|h: usize| marked_of(s0).contains(h))
        &&& forall|t: int| 0 <= t < kept.len() ==> #[trigger] kept_ok(s, s0, c0, i, kept, cur, t)
        &&& forall|j: int| 0 <= j < c0.len() ==> #[trigger] swept_ok(s, s0, c0, i, kept, j)
        &&& forall|g: int| 0 <= g < s0.len() && s0[g] is None ==> (#[trigger] s[g]) is None
        &&& self.free_ok()
        &&& self.strings_ok()
        &&& self.objects_ok()
        &&& self.next_gc == before.next_gc
        &&& exact ==> self.bytes_allocated == heap_size(self@, s.len() as nat)
    }

    /// Free every unmarked object and unmark the others; then set the threshold of the
    /// next collection from what is left.
    pub fn sweep(&mut self)
        requires
            old(self).inv(),
            edge_closed(old(self)@, old(self).marked()),
        ensures
            final(self).wf(),
            final(self)@ == old(self)@.restrict(old(self).marked()),
            final(self).order() == old(self).order().filter(
                |h: usize| old(self).marked().contains(h),
            ),
            final(self).threshold() == clamp(final(self).bytes() * GC_HEAP_GROW_FACTOR),
    {
        let ghost before = *old(self);
        let ghost c0 = before.chain@;
        let ghost s0 = before.slots@;
        let ghost mut i: int = 0;
        let ghost mut kept: Seq<usize> = Seq::empty();
        let exact = self.bytes_allocated < usize::MAX;
        let mut prev: Option<usize> = None;
        let mut cur: Option<usize> = self.head;
        proof {
            lemma_heap_size_nonnegative(self@, self.slots@.len());
            reveal(Seq::filter);
            assert(c0.take(0) =~= Seq::<usize>::empty());
            assert forall|j: int| 0 <= j < c0.len() implies #[trigger] swept_ok(
                self.slots@,
                s0,
                c0,
                i,
                kept,
                j,
            ) by {}
        }
        while cur.is_some()
            invariant
                before.inv(),
                c0 == before.chain@,
                s0 == before.slots@,
                self.sweeping(before, i, kept, cur, prev, exact),
            decreases c0.len() - i,
        {
            let h = cur.unwrap();
            let ghost s1 = self.slots@;
            let ghost view1 = self@;
            proof {
                reveal(Seq::filter);
                assert(c0.take(i + 1).drop_last() =~= c0.take(i));
                assert(c0.take(i + 1).last() == c0[i]);
                assert(swept_ok(s1, s0, c0, i, kept, i));
                assert(live_in(s0, c0[i]));
                assert(linked(s0, c0, i));
                assert(!kept.contains(h)) by {
                    if kept.contains(h) {
                        let t = choose|t: int| 0 <= t < kept.len() && kept[t] == h;
                        assert(kept_ok(s1, s0, c0, i, kept, cur, t));
                    }
                }
            }
            let next = match &self.slots[h] {
                Some(cell) => cell.get_next(),
                None => None,
            };
            let is_marked = match &self.slots[h] {
                Some(cell) => cell.is_marked(),
                None => false,
            };
            if is_marked {
                slot_unmark(&mut self.slots, h);
                let ghost longer = kept.push(h);
                proof {
                    assert(self@ =~= view1);
                    assert forall|t: int| 0 <= t < longer.len() implies #[trigger] kept_ok(
                        self.slots@,
                        s0,
                        c0,
                        i + 1,
                        longer,
                        next,
                        t,
                    ) by {
                        if t < kept.len() {
                            assert(kept_ok(s1, s0, c0, i, kept, cur, t));
                            assert(longer[t] == kept[t]);
                            assert(kept.contains(kept[t]));
                            if t + 1 < kept.len() {
                                assert(longer[t + 1] == kept[t + 1]);
                            }
                        } else {
                            assert(c0[i] == h);
                        }
                    }
                    assert forall|j: int| 0 <= j < c0.len() implies #[trigger] swept_ok(
                        self.slots@,
                        s0,
                        c0,
                        i + 1,
                        longer,
                        j,
                    ) by {
                        assert(swept_ok(s1, s0, c0, i, kept, j));
                        if j == i {
                            assert(longer[kept.len() as int] == h);
                        } else if j < i {
                            if s0[c0[j] as int].unwrap().marked {
                                let t = choose|t: int| 0 <= t < kept.len() && kept[t] == c0[j];
                                assert(longer[t] == c0[j]);
                            }
                        }
                    }
                    assert forall|a: int, b: int|
                        0 <= a < longer.len() && 0 <= b < longer.len() && a != b implies longer[a]
                        != longer[b] by {
                        if a < kept.len() && b < kept.len() {
                        } else if a < kept.len() {
                            assert(kept.contains(longer[a]));
                        } else {
                            assert(kept.contains(longer[b]));
                        }
                    }
                    assert forall|e: int| 0 <= e < self.free@.len() implies (#[trigger] self.free@[e])
                        < self.slots@.len() && self.slots@[self.free@[e] as int] is None by {
                        assert(s1[self.free@[e] as int] is None);
                    }
                    assert forall|g: usize| #[trigger] live_in(self.slots@, g) implies self.slots@[g as int].unwrap().data.wf() by {
                        assert(live_in(s1, g));
                    }
                    kept = longer;
                }
                prev = Some(h);
            } else {
                let freed = slot_take(&mut self.slots, h);
                match prev {
                    Some(p) => {
                        proof {
                            assert(kept_ok(s1, s0, c0, i, kept, cur, kept.len() - 1));
                        }
                        slot_set_next(&mut self.slots, p, next);
                    },
                    None => {
                        self.head = next;
                    },
                }
                let ghost table1 = interned(self.strings);
                if let Some(cell) = freed {
                    if let Object::String(text) = &cell.data {
                        intern_remove(&mut self.strings, text.as_str());
                    }
                    if exact {
                        proof {
                            lemma_heap_size_remove(view1, s1.len(), h);
                            lemma_heap_size_nonnegative(view1.remove(h), s1.len());
                        }
                        self.bytes_allocated = self.bytes_allocated - cell.data.mem_size();
                    }
                }
                self.free.push(h);
                proof {
                    assert(self@ =~= view1.remove(h));
                    let table = interned(self.strings);
                    assert forall|t: int| 0 <= t < kept.len() implies #[trigger] kept_ok(
                        self.slots@,
                        s0,
                        c0,
                        i + 1,
                        kept,
                        next,
                        t,
                    ) by {
                        assert(kept_ok(s1, s0, c0, i, kept, cur, t));
                        assert(kept.contains(kept[t]));
                        if t + 1 < kept.len() {
                            assert(kept[t] != kept[kept.len() - 1]);
                        }
                    }
                    assert forall|j: int| 0 <= j < c0.len() implies #[trigger] swept_ok(
                        self.slots@,
                        s0,
                        c0,
                        i + 1,
                        kept,
                        j,
                    ) by {
                        assert(swept_ok(s1, s0, c0, i, kept, j));
                        if j > i {
                            assert(c0[j] != c0[i]);
                            if prev is Some {
                                assert(kept.contains(prev.unwrap()));
                                let t = kept.len() - 1;
                                assert(kept_ok(s1, s0, c0, i, kept, cur, t));
                                let e = choose|e: int| 0 <= e < i && c0[e] == kept[t];
                                assert(c0[j] != c0[e]);
                            }
                        }
                    }
                    assert forall|e: int| 0 <= e < self.free@.len() implies (#[trigger] self.free@[e])
                        < self.slots@.len() && self.slots@[self.free@[e] as int] is None by {
                        if e < self.free@.len() - 1 {
                            assert(s1[self.free@[e] as int] is None);
                        }
                    }
                    assert forall|a: int, b: int|
                        0 <= a < self.free@.len() && 0 <= b < self.free@.len() && a != b implies self.free@[a]
                        != self.free@[b] by {
                        if a == self.free@.len() - 1 {
                            assert(s1[self.free@[b] as int] is None);
                        } else if b == self.free@.len() - 1 {
                            assert(s1[self.free@[a] as int] is None);
                        }
                    }
                    assert forall|g: usize| #[trigger] live_in(self.slots@, g) implies self.slots@[g as int].unwrap().data.wf() by {
                        assert(live_in(s1, g));
                    }
                    assert forall|t: Seq<char>| #[trigger] table.contains_key(t) implies self@.contains_key(
                        table[t],
                    ) && self@[table[t]] == ObjectView::String(t) by {
                        assert(table1.contains_key(t));
                        assert(view1.contains_key(table1[t]));
                        if table1[t] == h {
                            assert(view1[h] == ObjectView::String(t));
                        }
                    }
                    assert forall|g: usize| #[trigger]
                        self@.contains_key(g) && self@[g] is String implies table.contains_key(
                        self@[g]->String_0,
                    ) && table[self@[g]->String_0] == g by {
                        assert(view1.contains_key(g));
                        assert(table1.contains_key(view1[g]->String_0));
                        assert(view1.contains_key(h));
                        if view1[h] is String {
                            assert(table1[view1[h]->String_0] == h);
                            assert(table == table1.remove(view1[h]->String_0));
                        } else {
                            assert(table == table1);
                        }
                    }
                }
            }
            cur = next;
            proof {
                i = i + 1;
            }
        }
        self.chain = Ghost(kept);
        proof {
            assert(c0.take(c0.len() as int) =~= c0);
            let m0 = before.marked();
            let s = self.slots@;
            assert forall|h: usize| self@.contains_key(h) <==> before@.restrict(m0).contains_key(
                h,
            ) by {
                if live_in(s, h) {
                    assert(live_in(s0, h)) by {
                        if !live_in(s0, h) {
                            assert(s[h as int] is None);
                        }
                    }
                    let j = choose|j: int| 0 <= j < c0.len() && c0[j] == h;
                    assert(swept_ok(s, s0, c0, i, kept, j));
                }
                if before@.restrict(m0).contains_key(h) {
                    assert(live_in(s0, h));
                    let j = choose|j: int| 0 <= j < c0.len() && c0[j] == h;
                    assert(swept_ok(s, s0, c0, i, kept, j));
                    let t = choose|t: int| 0 <= t < kept.len() && kept[t] == h;
                    assert(kept_ok(s, s0, c0, i, kept, cur, t));
                }
            }
            assert forall|h: usize| self@.contains_key(h) implies self@[h] == before@.restrict(
                m0,
            )[h] by {
                let j = choose|j: int| 0 <= j < c0.len() && c0[j] == h;
                assert(swept_ok(s, s0, c0, i, kept, j));
                let t = choose|t: int| 0 <= t < kept.len() && kept[t] == h;
                assert(kept_ok(s, s0, c0, i, kept, cur, t));
            }
            assert(self@ =~= before@.restrict(m0));
            lemma_restrict_closed(before@, m0);
            assert forall|t: int| 0 <= t < kept.len() implies live_in(s, #[trigger] kept[t]) by {
                assert(kept_ok(s, s0, c0, i, kept, cur, t));
            }
            assert forall|h: usize| #[trigger] live_in(s, h) implies kept.contains(h) && !s[h as int].unwrap().marked by {
                assert(self@.contains_key(h));
                assert(live_in(s0, h));
                let j = choose|j: int| 0 <= j < c0.len() && c0[j] == h;
                assert(swept_ok(s, s0, c0, i, kept, j));
                let t = choose|t: int| 0 <= t < kept.len() && kept[t] == h;
                assert(kept_ok(s, s0, c0, i, kept, cur, t));
            }
            assert forall|t: int| 0 <= t < kept.len() implies #[trigger] linked(s, kept, t) by {
                assert(kept_ok(s, s0, c0, i, kept, cur, t));
            }
            lemma_heap_size_nonnegative(self@, s.len());
        }
        if !exact {
            self.recount();
        }
        self.next_gc = if self.bytes_allocated > usize::MAX / GC_HEAP_GROW_FACTOR {
            usize::MAX
        } else {
            self.bytes_allocated * GC_HEAP_GROW_FACTOR
        };
    }

    /// Count the bytes of all objects anew.
    fn recount(&mut self)
        requires
            old(self).slots@.len() <= usize::MAX,
        ensures
            final(self).bytes_allocated == clamp(heap_size(old(self)@, old(self).slots@.len())),
            final(self).slots == old(self).slots,
            final(self).head == old(self).head,
            final(self).free == old(self).free,
            final(self).strings == old(self).strings,
            final(self).next_gc == old(self).next_gc,
            final(self).chain == old(self).chain,
    {
        let mut total: usize = 0;
        let mut g: usize = 0;
        let ghost view = self@;
        while g < self.slots.len()
            invariant
                g <= self.slots@.len(),
                self.slots == old(self).slots,
                self.head == old(self).head,
                self.free == old(self).free,
                self.strings == old(self).strings,
                self.next_gc == old(self).next_gc,
                self.chain == old(self).chain,
                view == self@,
                total == clamp(heap_size(view, g as nat)),
            decreases self.slots@.len() - g,
        {
            proof {
                lemma_heap_size_nonnegative(view, g as nat);
            }
            if let Some(cell) = &self.slots[g] {
                let size = cell.data.mem_size();
                assert(view.contains_key(g));
                total = if usize::MAX - total < size {
                    usize::MAX
                } else {
                    total + size
                };
            } else {
                assert(!view.contains_key(g));
            }
            g += 1;
        }
        self.bytes_allocated = total;
    }
}

impl Heap {
    /// The handle of the string object with the given text, if the heap holds one.
    pub fn lookup(&self, text: &str) -> (found: Option<usize>)
        requires
            self.inv(),
        ensures
            match found {
                Some(h) => holds_text(self@, h, text@),
                None => forall|g: usize| !holds_text(self@, g, text@),
            },
    {
        let found = intern_get(&self.strings, text);
        proof {
            if found is None {
                assert forall|g: usize| !holds_text(self@, g, text@) by {
                    if holds_text(self@, g, text@) {
                        assert(self@.contains_key(g));
                        assert(interned(self.strings).contains_key(self@[g]->String_0));
                    }
                }
            }
        }
        found
    }
}

} // verus!
