//! The text of each runtime error.

use vstd::prelude::*;

use crate::machine::Fault;
use crate::vm::RuntimeError;

verus! {

/// The text of a decimal digit.
pub open spec fn digit_text(d: int) -> Seq<char> {
    if d == 0 {
        "0"@
    } else if d == 1 {
        "1"@
    } else if d == 2 {
        "2"@
    } else if d == 3 {
        "3"@
    } else if d == 4 {
        "4"@
    } else if d == 5 {
        "5"@
    } else if d == 6 {
        "6"@
    } else if d == 7 {
        "7"@
    } else if d == 8 {
        "8"@
    } else {
        "9"@
    }
}

/// The decimal text of a byte, without leading zeros.
pub open spec fn decimal_text(n: u8) -> Seq<char> {
    (if n >= 100 {
        digit_text(n as int / 100)
    } else {
        Seq::empty()
    }) + (if n >= 10 {
        digit_text((n as int / 10) % 10)
    } else {
        Seq::empty()
    }) + digit_text(n as int % 10)
}

/// The text of a decimal digit.
fn digit(d: u8) -> (text: &'static str)
    requires
        d < 10,
    ensures
        text@ == digit_text(d as int),
{
    if d == 0 {
        "0"
    } else if d == 1 {
        "1"
    } else if d == 2 {
        "2"
    } else if d == 3 {
        "3"
    } else if d == 4 {
        "4"
    } else if d == 5 {
        "5"
    } else if d == 6 {
        "6"
    } else if d == 7 {
        "7"
    } else if d == 8 {
        "8"
    } else {
        "9"
    }
}

/// The decimal text of a byte, without leading zeros.
pub fn decimal(n: u8) -> (text: String)
    ensures
        text@ == decimal_text(n),
{
    let mut text = String::new();
    if n >= 100 {
        text = text.concat(digit(n / 100));
    }
    if n >= 10 {
        text = text.concat(digit((n / 10) % 10));
    }
    text = text.concat(digit(n % 10));
    assert(text@ =~= decimal_text(n));
    text
}

impl Fault {
    /// The text shown to the user for the error.
    pub open spec fn message(self) -> Seq<char> {
        match self {
            Fault::InvalidOpcode(byte) => "No discriminant in enum `Opcode` matches the value `"@
                + decimal_text(byte) + "`"@,
            Fault::Value(e) => e.message_spec(),
            Fault::Object(e) => e.message_spec(),
            Fault::StackOverflow => "Stack overflow."@,
            Fault::OnlyInstancesHaveProperties => "Only instances have properties."@,
            Fault::OnlyInstancesHaveFields => "Only instances have fields."@,
            Fault::UndefinedVariable(name) => "Undefined variable '"@ + name + "'."@,
            Fault::UndefinedProperty(name) => "Undefined property '"@ + name + "'."@,
            Fault::InvalidSuperclass => "Superclass must be a class."@,
            Fault::InvalidCallee => "Can only call functions and classes."@,
            Fault::OnlyInstancesHaveMethods => "Only instances have methods."@,
            Fault::InvalidArgumentsCount { arity, argc } => "Expected "@ + decimal_text(arity)
                + " arguments but got "@ + decimal_text(argc) + "."@,
            Fault::StackUnderflow => "Stack underflow."@,
            Fault::MalformedChunk => "Malformed bytecode."@,
        }
    }
}

impl RuntimeError {
    /// The text shown to the user for the error.
    pub fn message(&self) -> (text: String)
        ensures
            text@ == self@.message(),
    {
        match self {
            RuntimeError::InvalidOpcode(byte) => String::from_str(
                "No discriminant in enum `Opcode` matches the value `",
            ).concat(decimal(*byte).as_str()).concat("`"),
            RuntimeError::Value(e) => e.message(),
            RuntimeError::Object(e) => e.message(),
            RuntimeError::StackOverflow => String::from_str("Stack overflow."),
            RuntimeError::OnlyInstancesHaveProperties => String::from_str(
                "Only instances have properties.",
            ),
            RuntimeError::OnlyInstancesHaveFields => String::from_str("Only instances have fields."),
            RuntimeError::UndefinedVariable(name) => String::from_str(
                "Undefined variable '",
            ).concat(name.as_str()).concat("'."),
            RuntimeError::UndefinedProperty(name) => String::from_str(
                "Undefined property '",
            ).concat(name.as_str()).concat("'."),
            RuntimeError::InvalidSuperclass => String::from_str("Superclass must be a class."),
            RuntimeError::InvalidCallee => String::from_str("Can only call functions and classes."),
            RuntimeError::OnlyInstancesHaveMethods => String::from_str(
                "Only instances have methods.",
            ),
            RuntimeError::InvalidArgumentsCount { arity, argc } => String::from_str(
                "Expected ",
            ).concat(decimal(*arity).as_str()).concat(" arguments but got ").concat(
                decimal(*argc).as_str(),
            ).concat("."),
            RuntimeError::StackUnderflow => String::from_str("Stack underflow."),
            RuntimeError::MalformedChunk => String::from_str("Malformed bytecode."),
        }
    }
}

} // verus!
