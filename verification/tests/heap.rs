use lox_vm::heap::{Heap, GC_HEAP_GROW_FACTOR, INITIAL_GC_THRESHOLD};
use lox_vm::object::{ObjClass, ObjInstance, ObjUpvalue, Object, ObjectKind};
use lox_vm::table::Table;
use lox_vm::value::Value;

#[test]
fn heap_starts_empty() {
    let heap = Heap::new();
    assert_eq!(0, heap.size());
    assert_eq!(INITIAL_GC_THRESHOLD, heap.next_gc());
    assert!(heap.get(0).is_none());
}

#[test]
fn heap_interns_strings() {
    let mut heap = Heap::new();
    let a = heap.intern("abc".to_string());
    let b = heap.intern("abd".to_string());
    let c = heap.intern(String::from("ab") + "c");
    assert_eq!(a, c);
    assert_ne!(a, b);
    assert_eq!(48, heap.size());
    assert_eq!(Some(a), heap.lookup("abc"));
    assert_eq!(None, heap.lookup("xyz"));
    match heap.get(a) {
        Some(Object::String(text)) => assert_eq!("abc", text),
        _ => panic!("the handle names no string"),
    }
}

#[test]
fn heap_charges_each_kind() {
    let mut heap = Heap::new();
    let name = heap.intern("C".to_string());
    assert_eq!(24, heap.size());
    let class = heap.allocate(Object::Class(ObjClass::new(name)));
    assert_eq!(64, heap.size());
    let instance = heap.allocate(Object::Instance(ObjInstance::new(class)));
    assert_eq!(104, heap.size());
    let upvalue = heap.allocate(Object::Upvalue(ObjUpvalue::Open(0)));
    assert_eq!(128, heap.size());
    assert_eq!(ObjectKind::Class, heap.get(class).unwrap().kind());
    assert_eq!(ObjectKind::Instance, heap.get(instance).unwrap().kind());
    assert_eq!(24, heap.get(upvalue).unwrap().mem_size());
}

#[test]
fn heap_sweep_frees_what_was_not_reached() {
    let mut heap = Heap::new();
    let kept = heap.intern("kept".to_string());
    let lost = heap.intern("lost".to_string());
    let root = heap.allocate(Object::Upvalue(ObjUpvalue::Closed(Value::Object(kept))));
    let other = heap.allocate(Object::Upvalue(ObjUpvalue::Closed(Value::Object(lost))));
    assert_eq!(96, heap.size());

    let mut grey = Vec::new();
    heap.mark(root, &mut grey);
    assert_eq!(vec![root], grey);
    heap.mark(root, &mut grey);
    assert_eq!(vec![root], grey);
    assert!(heap.is_marked(root));
    assert!(!heap.is_marked(kept));
    heap.trace(&mut grey);
    assert!(grey.is_empty());
    assert!(heap.is_marked(kept));
    assert!(!heap.is_marked(lost));
    assert!(!heap.is_marked(other));
    heap.sweep();

    assert!(heap.get(root).is_some());
    assert!(heap.get(kept).is_some());
    assert!(heap.get(lost).is_none());
    assert!(heap.get(other).is_none());
    assert!(!heap.is_marked(root));
    assert!(!heap.is_marked(kept));
    assert_eq!(48, heap.size());
    assert_eq!(48 * GC_HEAP_GROW_FACTOR, heap.next_gc());
    assert_eq!(None, heap.lookup("lost"));
    assert_eq!(Some(kept), heap.lookup("kept"));

    let again = heap.intern("lost".to_string());
    assert!(heap.get(again).is_some());
    assert_eq!(72, heap.size());
}

#[test]
fn heap_traces_through_classes_and_instances() {
    let mut heap = Heap::new();
    let name = heap.intern("C".to_string());
    let field = heap.intern("f".to_string());
    let value = heap.intern("v".to_string());
    let stray = heap.intern("stray".to_string());
    let class = heap.allocate(Object::Class(ObjClass::new(name)));
    let instance = heap.allocate(Object::Instance(ObjInstance::new(class)));
    heap.set_field(instance, field, Value::Object(value));

    let mut grey = Vec::new();
    heap.mark(instance, &mut grey);
    heap.trace(&mut grey);
    heap.sweep();

    for h in [name, field, value, class, instance] {
        assert!(heap.get(h).is_some());
    }
    assert!(heap.get(stray).is_none());
    let mut successors = heap.get(instance).unwrap().references();
    successors.sort();
    let mut expected = vec![class, field, value];
    expected.sort();
    assert_eq!(expected, successors);
}

#[test]
fn heap_sweep_without_marks_frees_everything() {
    let mut heap = Heap::new();
    let a = heap.intern("a".to_string());
    let b = heap.allocate(Object::Upvalue(ObjUpvalue::Open(3)));
    heap.sweep();
    assert!(heap.get(a).is_none());
    assert!(heap.get(b).is_none());
    assert_eq!(0, heap.size());
    assert_eq!(0, heap.next_gc());
}

#[test]
fn heap_updates_upvalues() {
    let mut heap = Heap::new();
    let u = heap.allocate(Object::Upvalue(ObjUpvalue::Open(2)));
    heap.set_upvalue(u, ObjUpvalue::Closed(Value::Bool(true)));
    match heap.get(u) {
        Some(Object::Upvalue(upvalue)) => {
            assert_eq!(ObjUpvalue::Closed(Value::Bool(true)), *upvalue)
        }
        _ => panic!("the handle names no upvalue"),
    }
}

#[test]
fn table_maps_handles() {
    let mut table: Table<usize> = Table::new();
    assert_eq!(None, table.get(1));
    table.insert(1, 10);
    table.insert(2, 20);
    table.insert(1, 11);
    assert_eq!(Some(11), table.get(1));
    assert_eq!(Some(20), table.get(2));
    assert!(table.contains_key(2));
    assert!(!table.contains_key(3));
    let mut keys = table.keys();
    keys.sort();
    assert_eq!(vec![1, 2], keys);
}
