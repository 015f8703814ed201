use rustc_apfloat::ieee::Double;
use rustc_apfloat::Float;
use vstd::prelude::*;
use vstd::string::StrSliceExecFns;

verus! {

/// The bits of the sum of the two IEEE 754 binary64 numbers with these bits,
/// as `rustc_apfloat` computes it, rounding to nearest, ties to even.
pub uninterp spec fn double_sum(left: u64, right: u64) -> u64;

/// The bits of the binary64 difference `left - right`, as `rustc_apfloat`
/// computes it, rounding to nearest, ties to even.
pub uninterp spec fn double_difference(left: u64, right: u64) -> u64;

/// The bits of the binary64 product, as `rustc_apfloat` computes it,
/// rounding to nearest, ties to even.
pub uninterp spec fn double_product(left: u64, right: u64) -> u64;

/// The bits of the binary64 quotient `left / right`, as `rustc_apfloat`
/// computes it, rounding to nearest, ties to even.
pub uninterp spec fn double_quotient(left: u64, right: u64) -> u64;

/// The bits of the binary64 number that `rustc_apfloat` reads from a text,
/// rounding to nearest, ties to even, or `None` where it reads none.
pub uninterp spec fn double_of_decimal(text: Seq<char>) -> Option<u64>;

/// The longest literal, in characters, that is handed to the decimal
/// conversion. At four bytes a character at most, such a text stays under
/// 2^31 bytes, so every position in it fits the conversion's 32-bit counters.
pub const MAX_LITERAL_LENGTH: usize = 0x1fff_ffff;

/// The mask of the sign bit of a binary64 number.
pub const SIGN_BIT: u64 = 0x8000_0000_0000_0000;

/// `rustc_apfloat`'s `+` on `ieee::Double`, between `Float::from_bits` and
/// `Float::to_bits`. The crate computes in software, with no state: the
/// contract claims only that the result's bits depend on the operands' bits
/// alone, and gives them their name.
#[verifier::external_body]
fn add_bits(left: u64, right: u64) -> (bits: u64)
    ensures
        bits == double_sum(left, right),
{
    (Double::from_bits(left as u128) + Double::from_bits(right as u128)).value.to_bits() as u64
}

/// `rustc_apfloat`'s `-` on `ieee::Double`, between `Float::from_bits` and
/// `Float::to_bits`. The contract claims only that the result's bits depend
/// on the operands' bits alone, and gives them their name.
#[verifier::external_body]
fn subtract_bits(left: u64, right: u64) -> (bits: u64)
    ensures
        bits == double_difference(left, right),
{
    (Double::from_bits(left as u128) - Double::from_bits(right as u128)).value.to_bits() as u64
}

/// `rustc_apfloat`'s `*` on `ieee::Double`, between `Float::from_bits` and
/// `Float::to_bits`. The contract claims only that the result's bits depend
/// on the operands' bits alone, and gives them their name.
#[verifier::external_body]
fn multiply_bits(left: u64, right: u64) -> (bits: u64)
    ensures
        bits == double_product(left, right),
{
    (Double::from_bits(left as u128) * Double::from_bits(right as u128)).value.to_bits() as u64
}

/// `rustc_apfloat`'s `/` on `ieee::Double`, between `Float::from_bits` and
/// `Float::to_bits`. The contract claims only that the result's bits depend
/// on the operands' bits alone, and gives them their name. Division by zero
/// is no failure there: it gives an infinity or a NaN.
#[verifier::external_body]
fn divide_bits(left: u64, right: u64) -> (bits: u64)
    ensures
        bits == double_quotient(left, right),
{
    (Double::from_bits(left as u128) / Double::from_bits(right as u128)).value.to_bits() as u64
}

/// `rustc_apfloat`'s `FromStr::from_str` for `ieee::Double`, reached through
/// `str::parse`, with `Float::to_bits` behind it. The contract claims only
/// that the outcome depends on the text alone, and gives it its name. The
/// bound keeps the text within what the conversion's 32-bit counters hold.
#[verifier::external_body]
fn decimal_bits(text: &str) -> (bits: Option<u64>)
    requires
        text@.len() <= MAX_LITERAL_LENGTH,
    ensures
        bits == double_of_decimal(text@),
{
    match text.parse::<Double>() {
        Ok(number) => Some(number.to_bits() as u64),
        Err(_) => None,
    }
}

/// A runtime datum of the machine. Today every value is a number; the tag
/// leaves room for other kinds.
#[derive(Clone, Copy, Debug, PartialEq, Eq, Structural)]
pub enum Value {
    /// An IEEE 754 binary64 number, held as its bit pattern.
    Number(u64),
}

impl Value {
    /// The bit pattern of the number.
    pub open spec fn spec_bits(self) -> u64 {
        match self {
            Value::Number(bits) => bits,
        }
    }

    pub open spec fn spec_plus(self, right: Value) -> Value {
        Value::Number(double_sum(self.spec_bits(), right.spec_bits()))
    }

    pub open spec fn spec_minus(self, right: Value) -> Value {
        Value::Number(double_difference(self.spec_bits(), right.spec_bits()))
    }

    pub open spec fn spec_times(self, right: Value) -> Value {
        Value::Number(double_product(self.spec_bits(), right.spec_bits()))
    }

    pub open spec fn spec_divided_by(self, right: Value) -> Value {
        Value::Number(double_quotient(self.spec_bits(), right.spec_bits()))
    }

    /// Negation flips the sign bit and nothing else.
    pub open spec fn spec_negated(self) -> Value {
        Value::Number(self.spec_bits() ^ SIGN_BIT)
    }

    /// What a literal denotes: nothing where it is longer than
    /// `MAX_LITERAL_LENGTH` or is no decimal number.
    pub open spec fn spec_parse(text: Seq<char>) -> Option<Value> {
        if text.len() > MAX_LITERAL_LENGTH {
            None
        } else {
            match double_of_decimal(text) {
                Some(bits) => Some(Value::Number(bits)),
                None => None,
            }
        }
    }

    /// The number with the given IEEE 754 binary64 bits.
    pub fn from_bits(bits: u64) -> (value: Value)
        ensures
            value == Value::Number(bits),
    {
        Value::Number(bits)
    }

    /// The IEEE 754 binary64 bits of the number.
    #[verifier::when_used_as_spec(spec_bits)]
    pub fn bits(self) -> (bits: u64)
        ensures
            bits == self.spec_bits(),
    {
        match self {
            Value::Number(bits) => bits,
        }
    }

    /// The sum `self + right`.
    pub fn plus(self, right: Value) -> (value: Value)
        ensures
            value == self.spec_plus(right),
    {
        Value::Number(add_bits(self.bits(), right.bits()))
    }

    /// The difference `self - right`.
    pub fn minus(self, right: Value) -> (value: Value)
        ensures
            value == self.spec_minus(right),
    {
        Value::Number(subtract_bits(self.bits(), right.bits()))
    }

    /// The product `self * right`.
    pub fn times(self, right: Value) -> (value: Value)
        ensures
            value == self.spec_times(right),
    {
        Value::Number(multiply_bits(self.bits(), right.bits()))
    }

    /// The quotient `self / right`. Division by zero gives an infinity or a
    /// NaN.
    pub fn divided_by(self, right: Value) -> (value: Value)
        ensures
            value == self.spec_divided_by(right),
    {
        Value::Number(divide_bits(self.bits(), right.bits()))
    }

    /// The number with the opposite sign.
    pub fn negated(self) -> (value: Value)
        ensures
            value == self.spec_negated(),
    {
        Value::Number(self.bits() ^ SIGN_BIT)
    }

    /// Reads a decimal literal.
    pub fn parse(text: &str) -> (value: Option<Value>)
        ensures
            value == Value::spec_parse(text@),
    {
        if text.unicode_len() > MAX_LITERAL_LENGTH {
            None
        } else {
            match decimal_bits(text) {
                Some(bits) => Some(Value::Number(bits)),
                None => None,
            }
        }
    }
}

/// Negating twice gives the value back.
pub proof fn lemma_negated_twice(value: Value)
    ensures
        value.spec_negated().spec_negated() == value,
{
    let bits = value.spec_bits();
    assert((bits ^ 0x8000_0000_0000_0000u64) ^ 0x8000_0000_0000_0000u64 == bits) by (bit_vector);
}

} // verus!
