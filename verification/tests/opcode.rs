use lox_vm::opcode::{Opcode, OPCODE_COUNT};
use lox_vm::step::operand_count;

#[test]
fn opcode_bytes_are_those_of_the_instruction_set() {
    assert_eq!(0, u8::from(Opcode::Const));
    assert_eq!(4, u8::from(Opcode::Pop));
    assert_eq!(15, u8::from(Opcode::NE));
    assert_eq!(21, u8::from(Opcode::Add));
    assert_eq!(28, u8::from(Opcode::Jump));
    assert_eq!(31, u8::from(Opcode::Loop));
    assert_eq!(35, u8::from(Opcode::Closure));
    assert_eq!(37, u8::from(Opcode::Ret));
    assert_eq!(40, u8::from(Opcode::Method));
    assert_eq!(41, OPCODE_COUNT);
}

#[test]
fn opcode_decoding_inverts_encoding() {
    for byte in 0..=40u8 {
        let op = Opcode::try_from(byte).unwrap();
        assert_eq!(byte, u8::from(op));
    }
    assert_eq!(Ok(Opcode::GetLocal), Opcode::try_from(5));
    assert_eq!(Ok(Opcode::SuperInvoke), Opcode::try_from(34));
}

#[test]
fn opcode_unknown_byte_is_refused() {
    assert_eq!(Err(41), Opcode::try_from(41));
    assert_eq!(Err(255), Opcode::try_from(255));
}

#[test]
fn opcode_operand_counts() {
    assert_eq!(0, operand_count(Opcode::Nil));
    assert_eq!(0, operand_count(Opcode::Ret));
    assert_eq!(1, operand_count(Opcode::Const));
    assert_eq!(1, operand_count(Opcode::Call));
    assert_eq!(1, operand_count(Opcode::Closure));
    assert_eq!(2, operand_count(Opcode::Jump));
    assert_eq!(2, operand_count(Opcode::Invoke));
}
