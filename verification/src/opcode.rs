use vstd::prelude::*;

verus! {

/// The number of distinct opcodes; every byte below it names one.
pub const OPCODE_COUNT: u8 = 41;

/// An opcode is a byte specifying the action that the virtual machine must take.
///
/// `a <= b` is not `!(a > b)`: every comparison with a NaN operand is false, so each
/// of the four ordering comparisons has an opcode of its own.
#[derive(Debug, Clone, Copy, PartialEq, Eq, Structural)]
pub enum Opcode {
    /// Load a constant.
    Const,
    /// Load a `nil` value.
    Nil,
    /// Load a `true` value.
    True,
    /// Load a `false` value.
    False,
    /// Pop the top of the stack.
    Pop,
    /// Get the value of a local variable.
    GetLocal,
    /// Set the value of a local variable.
    SetLocal,
    /// Get the value of a global variable.
    GetGlobal,
    /// Set the value of a global variable.
    SetGlobal,
    /// Pop the top of the stack and define a global variable initialized with that value.
    DefineGlobal,
    /// Get a variable through its upvalue.
    GetUpvalue,
    /// Set a variable through its upvalue.
    SetUpvalue,
    /// Get the value of a property on the class instance.
    GetProperty,
    /// Set the value of a property on the class instance.
    SetProperty,
    /// Bind a method of the superclass to the receiver.
    GetSuper,
    /// Check for inequality between two operands.
    NE,
    /// Check for equality between two operands.
    EQ,
    /// Compare if the first operand is greater than the second.
    GT,
    /// Compare if the first operand is greater than or equal to the second.
    GE,
    /// Compare if the first operand is less than the second.
    LT,
    /// Compare if the first operand is less than or equal to the second.
    LE,
    /// Add two number operands or two string operands.
    Add,
    /// Subtract two number operands.
    Sub,
    /// Multiply two number operands.
    Mul,
    /// Divide two number operands.
    Div,
    /// Apply logical `not` to a single operand.
    Not,
    /// Negate a single number operand.
    Neg,
    /// Print an expression in human readable format.
    Print,
    /// Jump forward over a number of bytes.
    Jump,
    /// Jump forward if the stack top is truthy.
    JumpIfTrue,
    /// Jump forward if the stack top is falsey.
    JumpIfFalse,
    /// Jump backward over a number of bytes.
    Loop,
    /// Make a function call.
    Call,
    /// Invoke a method directly, without going through a property access.
    Invoke,
    /// Invoke a superclass method directly.
    SuperInvoke,
    /// Create a closure.
    Closure,
    /// Move the captured variable at the stack top to the heap.
    CloseUpvalue,
    /// Return from the current function.
    Ret,
    /// Create a class.
    Class,
    /// Copy the methods of a superclass into a subclass.
    Inherit,
    /// Define a method.
    Method,
}

impl Opcode {
    /// The byte that encodes this opcode.
    pub open spec fn byte(self) -> u8 {
        match self {
            Opcode::Const => 0,
            Opcode::Nil => 1,
            Opcode::True => 2,
            Opcode::False => 3,
            Opcode::Pop => 4,
            Opcode::GetLocal => 5,
            Opcode::SetLocal => 6,
            Opcode::GetGlobal => 7,
            Opcode::SetGlobal => 8,
            Opcode::DefineGlobal => 9,
            Opcode::GetUpvalue => 10,
            Opcode::SetUpvalue => 11,
            Opcode::GetProperty => 12,
            Opcode::SetProperty => 13,
            Opcode::GetSuper => 14,
            Opcode::NE => 15,
            Opcode::EQ => 16,
            Opcode::GT => 17,
            Opcode::GE => 18,
            Opcode::LT => 19,
            Opcode::LE => 20,
            Opcode::Add => 21,
            Opcode::Sub => 22,
            Opcode::Mul => 23,
            Opcode::Div => 24,
            Opcode::Not => 25,
            Opcode::Neg => 26,
            Opcode::Print => 27,
            Opcode::Jump => 28,
            Opcode::JumpIfTrue => 29,
            Opcode::JumpIfFalse => 30,
            Opcode::Loop => 31,
            Opcode::Call => 32,
            Opcode::Invoke => 33,
            Opcode::SuperInvoke => 34,
            Opcode::Closure => 35,
            Opcode::CloseUpvalue => 36,
            Opcode::Ret => 37,
            Opcode::Class => 38,
            Opcode::Inherit => 39,
            Opcode::Method => 40,
        }
    }

    /// The opcode that a byte encodes, if any.
    pub open spec fn decode(byte: u8) -> Option<Opcode> {
        match byte {
            0u8 => Some(Opcode::Const),
            1u8 => Some(Opcode::Nil),
            2u8 => Some(Opcode::True),
            3u8 => Some(Opcode::False),
            4u8 => Some(Opcode::Pop),
            5u8 => Some(Opcode::GetLocal),
            6u8 => Some(Opcode::SetLocal),
            7u8 => Some(Opcode::GetGlobal),
            8u8 => Some(Opcode::SetGlobal),
            9u8 => Some(Opcode::DefineGlobal),
            10u8 => Some(Opcode::GetUpvalue),
            11u8 => Some(Opcode::SetUpvalue),
            12u8 => Some(Opcode::GetProperty),
            13u8 => Some(Opcode::SetProperty),
            14u8 => Some(Opcode::GetSuper),
            15u8 => Some(Opcode::NE),
            16u8 => Some(Opcode::EQ),
            17u8 => Some(Opcode::GT),
            18u8 => Some(Opcode::GE),
            19u8 => Some(Opcode::LT),
            20u8 => Some(Opcode::LE),
            21u8 => Some(Opcode::Add),
            22u8 => Some(Opcode::Sub),
            23u8 => Some(Opcode::Mul),
            24u8 => Some(Opcode::Div),
            25u8 => Some(Opcode::Not),
            26u8 => Some(Opcode::Neg),
            27u8 => Some(Opcode::Print),
            28u8 => Some(Opcode::Jump),
            29u8 => Some(Opcode::JumpIfTrue),
            30u8 => Some(Opcode::JumpIfFalse),
            31u8 => Some(Opcode::Loop),
            32u8 => Some(Opcode::Call),
            33u8 => Some(Opcode::Invoke),
            34u8 => Some(Opcode::SuperInvoke),
            35u8 => Some(Opcode::Closure),
            36u8 => Some(Opcode::CloseUpvalue),
            37u8 => Some(Opcode::Ret),
            38u8 => Some(Opcode::Class),
            39u8 => Some(Opcode::Inherit),
            40u8 => Some(Opcode::Method),
            _ => None,
        }
    }

    /// Encoding and decoding are inverse to each other.
    pub proof fn lemma_decode_byte(self)
        ensures
            self.byte() < OPCODE_COUNT,
            Opcode::decode(self.byte()) == Some(self),
    {
    }

    /// A byte decodes exactly when it is below [`OPCODE_COUNT`], and then encodes back to itself.
    pub proof fn lemma_byte_decode(byte: u8)
        ensures
            Opcode::decode(byte).is_some() <==> byte < OPCODE_COUNT,
            Opcode::decode(byte) matches Some(op) ==> op.byte() == byte,
    {
    }
}

impl From<Opcode> for u8 {
    fn from(op: Opcode) -> (byte: u8)
        ensures
            byte == op.byte(),
    {
        match op {
            Opcode::Const => 0,
            Opcode::Nil => 1,
            Opcode::True => 2,
            Opcode::False => 3,
            Opcode::Pop => 4,
            Opcode::GetLocal => 5,
            Opcode::SetLocal => 6,
            Opcode::GetGlobal => 7,
            Opcode::SetGlobal => 8,
            Opcode::DefineGlobal => 9,
            Opcode::GetUpvalue => 10,
            Opcode::SetUpvalue => 11,
            Opcode::GetProperty => 12,
            Opcode::SetProperty => 13,
            Opcode::GetSuper => 14,
            Opcode::NE => 15,
            Opcode::EQ => 16,
            Opcode::GT => 17,
            Opcode::GE => 18,
            Opcode::LT => 19,
            Opcode::LE => 20,
            Opcode::Add => 21,
            Opcode::Sub => 22,
            Opcode::Mul => 23,
            Opcode::Div => 24,
            Opcode::Not => 25,
            Opcode::Neg => 26,
            Opcode::Print => 27,
            Opcode::Jump => 28,
            Opcode::JumpIfTrue => 29,
            Opcode::JumpIfFalse => 30,
            Opcode::Loop => 31,
            Opcode::Call => 32,
            Opcode::Invoke => 33,
            Opcode::SuperInvoke => 34,
            Opcode::Closure => 35,
            Opcode::CloseUpvalue => 36,
            Opcode::Ret => 37,
            Opcode::Class => 38,
            Opcode::Inherit => 39,
            Opcode::Method => 40,
        }
    }
}

impl vstd::std_specs::convert::FromSpecImpl<Opcode> for u8 {
    open spec fn obeys_from_spec() -> bool {
        true
    }

    open spec fn from_spec(op: Opcode) -> u8 {
        op.byte()
    }
}

impl TryFrom<u8> for Opcode {
    type Error = u8;

    /// Decodes a byte; a byte that names no opcode comes back as the error.
    fn try_from(byte: u8) -> (r: Result<Opcode, u8>)
        ensures
            r == (match Opcode::decode(byte) {
                Some(op) => Ok::<Opcode, u8>(op),
                None => Err::<Opcode, u8>(byte),
            }),
    {
        match byte {
            0 => Ok(Opcode::Const),
            1 => Ok(Opcode::Nil),
            2 => Ok(Opcode::True),
            3 => Ok(Opcode::False),
            4 => Ok(Opcode::Pop),
            5 => Ok(Opcode::GetLocal),
            6 => Ok(Opcode::SetLocal),
            7 => Ok(Opcode::GetGlobal),
            8 => Ok(Opcode::SetGlobal),
            9 => Ok(Opcode::DefineGlobal),
            10 => Ok(Opcode::GetUpvalue),
            11 => Ok(Opcode::SetUpvalue),
            12 => Ok(Opcode::GetProperty),
            13 => Ok(Opcode::SetProperty),
            14 => Ok(Opcode::GetSuper),
            15 => Ok(Opcode::NE),
            16 => Ok(Opcode::EQ),
            17 => Ok(Opcode::GT),
            18 => Ok(Opcode::GE),
            19 => Ok(Opcode::LT),
            20 => Ok(Opcode::LE),
            21 => Ok(Opcode::Add),
            22 => Ok(Opcode::Sub),
            23 => Ok(Opcode::Mul),
            24 => Ok(Opcode::Div),
            25 => Ok(Opcode::Not),
            26 => Ok(Opcode::Neg),
            27 => Ok(Opcode::Print),
            28 => Ok(Opcode::Jump),
            29 => Ok(Opcode::JumpIfTrue),
            30 => Ok(Opcode::JumpIfFalse),
            31 => Ok(Opcode::Loop),
            32 => Ok(Opcode::Call),
            33 => Ok(Opcode::Invoke),
            34 => Ok(Opcode::SuperInvoke),
            35 => Ok(Opcode::Closure),
            36 => Ok(Opcode::CloseUpvalue),
            37 => Ok(Opcode::Ret),
            38 => Ok(Opcode::Class),
            39 => Ok(Opcode::Inherit),
            40 => Ok(Opcode::Method),
            b => Err(b),
        }
    }
}

impl vstd::std_specs::convert::TryFromSpecImpl<u8> for Opcode {
    open spec fn obeys_try_from_spec() -> bool {
        true
    }

    open spec fn try_from_spec(byte: u8) -> Result<Opcode, u8> {
        match Opcode::decode(byte) {
            Some(op) => Ok(op),
            None => Err(byte),
        }
    }
}

} // verus!
