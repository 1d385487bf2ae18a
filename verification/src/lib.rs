//! The core of a bytecode virtual machine for a dynamically typed, class-based scripting
//! language: the operand stack, the instruction set, the object heap with its tracing
//! garbage collector, and the interpreter loop.
//!
//! The machine holds a number as the bit pattern of a binary64 and leaves the arithmetic
//! on numbers, like printing, to its host: an instruction that needs either hands a
//! [`semantics::Signal`] out, and the host runs the machine on afterwards.

pub mod calls;
pub mod chunk;
pub mod classes;
pub mod closures;
pub mod graph;
pub mod heap;
pub mod interp;
pub mod laws;
pub mod machine;
pub mod message;
pub mod native;
pub mod object;
pub mod opcode;
pub mod run;
pub mod semantics;
pub mod stack;
pub mod step;
pub mod table;
pub mod value;
pub mod vm;

pub use object::ObjectError;
pub use opcode::Opcode;
pub use semantics::Signal;
pub use value::Value;
pub use vm::{RuntimeError, VirtualMachine};
