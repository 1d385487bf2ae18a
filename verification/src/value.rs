use vstd::prelude::*;

verus! {

/// The sign bit of a binary64 bit pattern.
pub const SIGN_BIT: u64 = 0x8000_0000_0000_0000;

/// The bit pattern of positive infinity: the largest magnitude that is not a NaN.
pub const INFINITY_BITS: u64 = 0x7ff0_0000_0000_0000;

/// An enumeration of potential errors that occur when operating on values.
#[derive(Debug, Clone, Copy, PartialEq, Eq, Structural)]
pub enum ValueError {
    /// A binary arithmetic or ordering operator met an operand that is not a number.
    OperandsMustBeNumbers,
    /// A unary arithmetic operator met an operand that is not a number.
    OperandMustBeNumber,
    /// An addition met operands that are neither two numbers nor two strings.
    OperandsMustBeNumbersOrStrings,
}

/// A value of the language.
///
/// A number is held as the bit pattern of an IEEE-754 binary64; an object is held as
/// the handle that the heap gave out for it. The derived `==` compares bit patterns and
/// handles; the equality of the language is [`Value::equals`].
#[derive(Debug, Clone, Copy, PartialEq, Eq, Structural)]
pub enum Value {
    /// The absence of a value.
    Nil,
    /// A boolean.
    Bool(bool),
    /// A number, as its binary64 bit pattern.
    Number(u64),
    /// A reference to a heap object.
    Object(usize),
}

/// The bit pattern without its sign bit.
pub open spec fn magnitude(bits: u64) -> int {
    if bits >= SIGN_BIT {
        bits - SIGN_BIT
    } else {
        bits as int
    }
}

/// Whether the bit pattern encodes a NaN: all exponent bits set and a mantissa that is
/// not zero.
pub open spec fn is_nan(bits: u64) -> bool {
    magnitude(bits) > INFINITY_BITS
}

/// An integer that orders the bit patterns which are not NaN as their numbers are
/// ordered; both zeros get 0.
pub open spec fn order_key(bits: u64) -> int {
    if bits >= SIGN_BIT {
        -magnitude(bits)
    } else {
        magnitude(bits)
    }
}

/// IEEE-754 `<` on bit patterns: false whenever an operand is a NaN.
pub open spec fn number_lt(a: u64, b: u64) -> bool {
    !is_nan(a) && !is_nan(b) && order_key(a) < order_key(b)
}

/// IEEE-754 `<=` on bit patterns: false whenever an operand is a NaN.
pub open spec fn number_le(a: u64, b: u64) -> bool {
    !is_nan(a) && !is_nan(b) && order_key(a) <= order_key(b)
}

/// IEEE-754 `==` on bit patterns: false whenever an operand is a NaN, and true of the
/// two zeros.
pub open spec fn number_eq(a: u64, b: u64) -> bool {
    !is_nan(a) && !is_nan(b) && order_key(a) == order_key(b)
}

/// The bit pattern with its sign bit flipped, which is IEEE-754 negation.
pub open spec fn number_neg(bits: u64) -> u64 {
    if bits >= SIGN_BIT {
        (bits - SIGN_BIT) as u64
    } else {
        (bits + SIGN_BIT) as u64
    }
}

/// Whether `bits` encodes a NaN.
pub fn bits_is_nan(bits: u64) -> (r: bool)
    ensures
        r == is_nan(bits),
{
    let m: u64 = if bits >= SIGN_BIT {
        bits - SIGN_BIT
    } else {
        bits
    };
    m > INFINITY_BITS
}

/// Whether the first bit pattern orders before the second, or equal to it where
/// `or_equal` is set; neither pattern may be a NaN.
fn ordered_before(a: u64, b: u64, or_equal: bool) -> (r: bool)
    ensures
        r == (if or_equal {
            order_key(a) <= order_key(b)
        } else {
            order_key(a) < order_key(b)
        }),
{
    if a >= SIGN_BIT {
        let ma: u64 = a - SIGN_BIT;
        if b >= SIGN_BIT {
            let mb: u64 = b - SIGN_BIT;
            if or_equal {
                mb <= ma
            } else {
                mb < ma
            }
        } else if or_equal {
            true
        } else {
            ma != 0 || b != 0
        }
    } else if b >= SIGN_BIT {
        let mb: u64 = b - SIGN_BIT;
        or_equal && a == 0 && mb == 0
    } else if or_equal {
        a <= b
    } else {
        a < b
    }
}

/// IEEE-754 `<` on two bit patterns.
pub fn bits_lt(a: u64, b: u64) -> (r: bool)
    ensures
        r == number_lt(a, b),
{
    !bits_is_nan(a) && !bits_is_nan(b) && ordered_before(a, b, false)
}

/// IEEE-754 `<=` on two bit patterns.
pub fn bits_le(a: u64, b: u64) -> (r: bool)
    ensures
        r == number_le(a, b),
{
    !bits_is_nan(a) && !bits_is_nan(b) && ordered_before(a, b, true)
}

/// IEEE-754 `==` on two bit patterns.
pub fn bits_eq(a: u64, b: u64) -> (r: bool)
    ensures
        r == number_eq(a, b),
{
    !bits_is_nan(a) && !bits_is_nan(b) && ordered_before(a, b, true) && ordered_before(
        b,
        a,
        true,
    )
}

impl Value {
    /// `false` and `nil` are falsey; every other value is truthy.
    pub open spec fn truthy(self) -> bool {
        match self {
            Value::Nil => false,
            Value::Bool(b) => b,
            _ => true,
        }
    }

    /// The equality of the language: `nil` equals `nil`, booleans are compared by value,
    /// numbers as IEEE-754 compares them, objects by identity; values of different kinds
    /// are never equal.
    pub open spec fn equal_to(self, other: Value) -> bool {
        match (self, other) {
            (Value::Nil, Value::Nil) => true,
            (Value::Bool(a), Value::Bool(b)) => a == b,
            (Value::Number(a), Value::Number(b)) => number_eq(a, b),
            (Value::Object(a), Value::Object(b)) => a == b,
            _ => false,
        }
    }

    /// Both operands as numbers, where both are numbers.
    pub open spec fn number_pair(self, other: Value) -> Option<(u64, u64)> {
        match (self, other) {
            (Value::Number(a), Value::Number(b)) => Some((a, b)),
            _ => None,
        }
    }

    /// Whether the value counts as true in a condition.
    pub fn is_truthy(&self) -> (r: bool)
        ensures
            r == self.truthy(),
    {
        match self {
            Value::Nil => false,
            Value::Bool(b) => *b,
            _ => true,
        }
    }

    /// Whether the value counts as false in a condition.
    pub fn is_falsey(&self) -> (r: bool)
        ensures
            r == !self.truthy(),
    {
        !self.is_truthy()
    }

    /// Whether the two values are equal in the language.
    pub fn equals(&self, other: &Value) -> (r: bool)
        ensures
            r == self.equal_to(*other),
    {
        match (self, other) {
            (Value::Nil, Value::Nil) => true,
            (Value::Bool(a), Value::Bool(b)) => *a == *b,
            (Value::Number(a), Value::Number(b)) => bits_eq(*a, *b),
            (Value::Object(a), Value::Object(b)) => *a == *b,
            _ => false,
        }
    }

    /// The two operands of a binary operator on numbers, as bit patterns.
    pub fn numbers(&self, other: &Value) -> (r: Result<(u64, u64), ValueError>)
        ensures
            r == (match self.number_pair(*other) {
                Some(pair) => Ok::<(u64, u64), ValueError>(pair),
                None => Err::<(u64, u64), ValueError>(ValueError::OperandsMustBeNumbers),
            }),
    {
        match (self, other) {
            (Value::Number(a), Value::Number(b)) => Ok((*a, *b)),
            _ => Err(ValueError::OperandsMustBeNumbers),
        }
    }

    /// `self < other` on two numbers.
    pub fn lt(&self, other: &Value) -> (r: Result<bool, ValueError>)
        ensures
            r == (match self.number_pair(*other) {
                Some((a, b)) => Ok::<bool, ValueError>(number_lt(a, b)),
                None => Err::<bool, ValueError>(ValueError::OperandsMustBeNumbers),
            }),
    {
        match self.numbers(other) {
            Ok((a, b)) => Ok(bits_lt(a, b)),
            Err(e) => Err(e),
        }
    }

    /// `self <= other` on two numbers.
    pub fn le(&self, other: &Value) -> (r: Result<bool, ValueError>)
        ensures
            r == (match self.number_pair(*other) {
                Some((a, b)) => Ok::<bool, ValueError>(number_le(a, b)),
                None => Err::<bool, ValueError>(ValueError::OperandsMustBeNumbers),
            }),
    {
        match self.numbers(other) {
            Ok((a, b)) => Ok(bits_le(a, b)),
            Err(e) => Err(e),
        }
    }

    /// `self > other` on two numbers.
    pub fn gt(&self, other: &Value) -> (r: Result<bool, ValueError>)
        ensures
            r == (match self.number_pair(*other) {
                Some((a, b)) => Ok::<bool, ValueError>(number_lt(b, a)),
                None => Err::<bool, ValueError>(ValueError::OperandsMustBeNumbers),
            }),
    {
        match self.numbers(other) {
            Ok((a, b)) => Ok(bits_lt(b, a)),
            Err(e) => Err(e),
        }
    }

    /// `self >= other` on two numbers.
    pub fn ge(&self, other: &Value) -> (r: Result<bool, ValueError>)
        ensures
            r == (match self.number_pair(*other) {
                Some((a, b)) => Ok::<bool, ValueError>(number_le(b, a)),
                None => Err::<bool, ValueError>(ValueError::OperandsMustBeNumbers),
            }),
    {
        match self.numbers(other) {
            Ok((a, b)) => Ok(bits_le(b, a)),
            Err(e) => Err(e),
        }
    }

    /// Logical negation of the truthiness of the value.
    pub fn not(&self) -> (r: Value)
        ensures
            r == Value::Bool(!self.truthy()),
    {
        Value::Bool(!self.is_truthy())
    }

    /// Arithmetic negation of a number.
    pub fn neg(&self) -> (r: Result<Value, ValueError>)
        ensures
            r == (match *self {
                Value::Number(bits) => Ok::<Value, ValueError>(Value::Number(number_neg(bits))),
                _ => Err::<Value, ValueError>(ValueError::OperandMustBeNumber),
            }),
    {
        match self {
            Value::Number(bits) => {
                let flipped: u64 = if *bits >= SIGN_BIT {
                    *bits - SIGN_BIT
                } else {
                    *bits + SIGN_BIT
                };
                Ok(Value::Number(flipped))
            },
            _ => Err(ValueError::OperandMustBeNumber),
        }
    }
}

impl ValueError {
    /// The text shown to the user for this error.
    pub fn message(&self) -> (text: String)
        ensures
            text@ == self.message_spec(),
    {
        match self {
            ValueError::OperandsMustBeNumbers => String::from_str("Operands must be numbers."),
            ValueError::OperandMustBeNumber => String::from_str("Operand must be a number."),
            ValueError::OperandsMustBeNumbersOrStrings => String::from_str(
                "Operands must be two numbers or two strings.",
            ),
        }
    }

    /// The text of each error.
    pub open spec fn message_spec(self) -> Seq<char> {
        match self {
            ValueError::OperandsMustBeNumbers => "Operands must be numbers."@,
            ValueError::OperandMustBeNumber => "Operand must be a number."@,
            ValueError::OperandsMustBeNumbersOrStrings =>
                "Operands must be two numbers or two strings."@,
        }
    }
}

/// A comparison in which an operand is a NaN is false, whichever of the four it is.
pub proof fn lemma_nan_compares_false(a: u64, b: u64)
    requires
        is_nan(a) || is_nan(b),
    ensures
        !number_lt(a, b),
        !number_le(a, b),
        !number_lt(b, a),
        !number_le(b, a),
        !number_eq(a, b),
{
}

/// Negating a value twice gives the truthiness of the value as a boolean, and from then
/// on another double negation changes nothing.
pub proof fn lemma_double_not(x: Value)
    ensures
        Value::Bool(!Value::Bool(!x.truthy()).truthy()) == Value::Bool(x.truthy()),
        Value::Bool(x.truthy()).truthy() == x.truthy(),
{
}

} // verus!
