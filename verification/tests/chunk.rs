use lox_vm::chunk::{Chunk, MAX_CONSTANTS};
use lox_vm::value::Value;

#[test]
fn chunk_keeps_bytes_and_lines() {
    let mut chunk = Chunk::new();
    chunk.write(1, 10);
    chunk.write(2, 10);
    chunk.write(3, 11);
    chunk.write(4, 10);
    assert_eq!(4, chunk.len());
    assert_eq!(Some(1), chunk.byte_at(0));
    assert_eq!(Some(4), chunk.byte_at(3));
    assert_eq!(None, chunk.byte_at(4));
    assert_eq!(Some(10), chunk.get_line(0));
    assert_eq!(Some(10), chunk.get_line(1));
    assert_eq!(Some(11), chunk.get_line(2));
    assert_eq!(Some(10), chunk.get_line(3));
    assert_eq!(None, chunk.get_line(4));
}

#[test]
fn chunk_of_nothing() {
    let chunk = Chunk::new();
    assert_eq!(0, chunk.len());
    assert_eq!(None, chunk.byte_at(0));
    assert_eq!(None, chunk.get_line(0));
    assert_eq!(0, chunk.constant_count());
    assert_eq!(None, chunk.constant_at(0));
}

#[test]
fn chunk_constants_are_numbered_in_order() {
    let mut chunk = Chunk::new();
    assert_eq!(Some(0), chunk.add_constant(Value::Nil));
    assert_eq!(Some(1), chunk.add_constant(Value::Bool(true)));
    assert_eq!(2, chunk.constant_count());
    assert_eq!(Some(Value::Bool(true)), chunk.constant_at(1));
    assert_eq!(None, chunk.constant_at(2));
}

#[test]
fn chunk_pool_is_bounded() {
    let mut chunk = Chunk::new();
    for i in 0..MAX_CONSTANTS {
        assert_eq!(Some(i as u8), chunk.add_constant(Value::Object(i)));
    }
    assert_eq!(None, chunk.add_constant(Value::Nil));
    assert_eq!(MAX_CONSTANTS, chunk.constant_count());
}
