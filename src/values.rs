//! SQL scalar values that the casts work on: fixed-point decimals, dates,
//! times, timestamps, intervals and binary strings.

use vstd::prelude::*;

verus! {

/// 10 to the power `n`.
pub open spec fn pow10(n: nat) -> nat
    decreases n,
{
    if n == 0 {
        1
    } else {
        10 * pow10((n - 1) as nat)
    }
}

/// Largest magnitude of a decimal mantissa, 2 to the power 96.
pub open spec fn max_mantissa() -> int {
    79228162514264337593543950336
}

/// A fixed-point decimal number: `mantissa` times 10 to the power `-scale`.
#[derive(Clone, Copy, Debug, PartialEq, Eq, Hash, Structural)]
pub struct Decimal {
    pub mantissa: i128,
    pub scale: u32,
}

impl Decimal {
    /// A mantissa of at most 96 bits and at most 28 fractional digits.
    pub open spec fn wf(&self) -> bool {
        -max_mantissa() < self.mantissa < max_mantissa() && self.scale <= 28
    }

    /// The decimal `mantissa` times 10 to the power `-scale`.
    pub fn new(mantissa: i128, scale: u32) -> (r: Decimal)
        requires
            -max_mantissa() < mantissa < max_mantissa(),
            scale <= 28,
        ensures
            r.mantissa == mantissa,
            r.scale == scale,
            r.wf(),
    {
        Decimal { mantissa, scale }
    }
}

/// A date, as a number of days since 1970-01-01.
#[derive(Clone, Copy, Debug, PartialEq, Eq, Hash, PartialOrd, Ord, Structural)]
pub struct Date {
    pub days: i32,
}

/// A time of day, as nanoseconds since midnight.
#[derive(Clone, Copy, Debug, PartialEq, Eq, Hash, PartialOrd, Ord, Structural)]
pub struct Time {
    pub nanoseconds: u64,
}

/// A timestamp, as milliseconds since 1970-01-01 00:00:00.
#[derive(Clone, Copy, Debug, PartialEq, Eq, Hash, PartialOrd, Ord, Structural)]
pub struct Timestamp {
    pub milliseconds: i64,
}

/// A day-time interval, in milliseconds.
#[derive(Clone, Copy, Debug, PartialEq, Eq, Hash, PartialOrd, Ord, Structural)]
pub struct ShortInterval {
    pub milliseconds: i64,
}

/// A year-month interval, in months.
#[derive(Clone, Copy, Debug, PartialEq, Eq, Hash, PartialOrd, Ord, Structural)]
pub struct LongInterval {
    pub months: i32,
}

/// A binary string.
#[derive(Clone, Debug, PartialEq, Eq, Hash, PartialOrd, Ord)]
pub struct ByteArray {
    pub bytes: Vec<u8>,
}

} // verus!
