//! The functions built into the virtual machine.

use std::time::{Duration, SystemTime};
use vstd::prelude::*;

use crate::object::Native;
use crate::value::{Value, INFINITY_BITS};

verus! {

/// A point in time on the clock of the system.
#[verifier::external_type_specification]
#[verifier::external_body]
pub struct ExSystemTime(SystemTime);

/// `SystemTime::now`: the time that the clock of the system shows. Nothing is said of
/// the result.
#[verifier::external_body]
fn now() -> (time: SystemTime) {
    SystemTime::now()
}

/// `SystemTime::duration_since` the Unix epoch: the time that has passed since then, or
/// `None` where the time lies before the epoch.
#[verifier::external_body]
fn since_epoch(time: &SystemTime) -> (elapsed: Option<Duration>) {
    time.duration_since(std::time::UNIX_EPOCH).ok()
}

/// `Duration::as_secs_f64`: the duration in seconds, as the bit pattern of a binary64.
/// A duration is a whole number of seconds that fits in 64 bits and a part of a second,
/// so the number is finite and not negative: its bit pattern lies below that of
/// infinity.
#[verifier::external_body]
fn seconds(elapsed: &Duration) -> (bits: u64)
    ensures
        bits < INFINITY_BITS,
{
    elapsed.as_secs_f64().to_bits()
}

/// What the clock can show: `nil`, or a number that is finite and not negative.
pub open spec fn clock_reading(value: Value) -> bool {
    match value {
        Value::Nil => true,
        Value::Number(bits) => bits < INFINITY_BITS,
        _ => false,
    }
}

/// What a built-in function can return.
pub open spec fn yields(native: Native, value: Value) -> bool {
    match native {
        Native::Clock => clock_reading(value),
    }
}

/// The value that the clock gives for the time that has passed since the Unix epoch, as
/// the bit pattern of the seconds: that number, or `nil` where the clock of the system
/// stands before the epoch.
pub fn clock_value(elapsed: Option<u64>) -> (value: Value)
    ensures
        value == (match elapsed {
            Some(bits) => Value::Number(bits),
            None => Value::Nil,
        }),
{
    match elapsed {
        Some(bits) => Value::Number(bits),
        None => Value::Nil,
    }
}

/// The wall clock: the number of seconds since the Unix epoch, which is finite and not
/// negative, or `nil` where the clock of the system stands before the epoch. The
/// arguments are not looked at.
pub fn clock_native(_args: &[Value]) -> (value: Value)
    ensures
        clock_reading(value),
{
    let time = now();
    let elapsed = match since_epoch(&time) {
        Some(elapsed) => Some(seconds(&elapsed)),
        None => None,
    };
    clock_value(elapsed)
}

} // verus!
