//! Elapsed times and the unit in which each is shown.
//!
//! A time is a count of nanoseconds held as the bit pattern of an IEEE 754
//! double. Nothing here computes with the number itself: the unit of a time
//! follows from where its bit pattern lies.

use vstd::prelude::*;
use vstd::string::*;

verus! {

/// The bit that carries the sign.
pub const SIGN_BIT: u64 = 0x8000_0000_0000_0000;

/// Positive infinity. A larger pattern without the sign bit is no number.
pub const INFINITY: u64 = 0x7FF0_0000_0000_0000;

/// One thousand.
pub const THOUSAND: u64 = 0x408F_4000_0000_0000;

/// One million.
pub const MILLION: u64 = 0x412E_8480_0000_0000;

/// One thousand million.
pub const BILLION: u64 = 0x41CD_CD65_0000_0000;

/// The number one.
pub const ONE: u64 = 0x3FF0_0000_0000_0000;

/// Whether `bits` carries the sign bit: a negative number, negative zero
/// included, or a negative pattern that is no number.
pub open spec fn is_negative(bits: u64) -> bool {
    bits >= SIGN_BIT
}

/// Whether `bits` is no number.
pub open spec fn is_nan(bits: u64) -> bool {
    if bits >= SIGN_BIT {
        bits - SIGN_BIT > INFINITY
    } else {
        bits > INFINITY
    }
}

/// Whether `bits` is a time that may be stored: a number that is not
/// negative. Among such times the order of the patterns is the order of the
/// numbers.
pub open spec fn is_time(bits: u64) -> bool {
    bits <= INFINITY
}

/// The unit in which a time is shown.
#[derive(Clone, Copy, Debug, PartialEq, Eq, Structural)]
pub enum TimeUnit {
    Nanos,
    Micros,
    Millis,
    Seconds,
}

impl TimeUnit {
    /// The unit of a time: the largest one in which the time shows as less
    /// than a thousand. A time that equals a threshold takes the next unit up.
    /// What is no number compares as less than nothing and so falls through to
    /// seconds; a negative number is less than a thousand.
    pub open spec fn of(bits: u64) -> TimeUnit {
        if is_nan(bits) {
            TimeUnit::Seconds
        } else if is_negative(bits) || bits < THOUSAND {
            TimeUnit::Nanos
        } else if bits < MILLION {
            TimeUnit::Micros
        } else if bits < BILLION {
            TimeUnit::Millis
        } else {
            TimeUnit::Seconds
        }
    }

    /// The letters written after a number in this unit.
    pub open spec fn letters(self) -> Seq<char> {
        match self {
            TimeUnit::Nanos => "ns"@,
            TimeUnit::Micros => "us"@,
            TimeUnit::Millis => "ms"@,
            TimeUnit::Seconds => "s"@,
        }
    }

    /// How many nanoseconds one of this unit holds, as the bit pattern of a
    /// double.
    pub open spec fn nanos(self) -> u64 {
        match self {
            TimeUnit::Nanos => ONE,
            TimeUnit::Micros => THOUSAND,
            TimeUnit::Millis => MILLION,
            TimeUnit::Seconds => BILLION,
        }
    }

    /// The letters written after a number in this unit.
    pub fn suffix(self) -> (r: &'static str)
        ensures
            r@ == self.letters(),
    {
        match self {
            TimeUnit::Nanos => "ns",
            TimeUnit::Micros => "us",
            TimeUnit::Millis => "ms",
            TimeUnit::Seconds => "s",
        }
    }

    /// The number by which a count of nanoseconds is divided to be shown in
    /// this unit, as the bit pattern of a double.
    pub fn scale(self) -> (r: u64)
        ensures
            r == self.nanos(),
    {
        match self {
            TimeUnit::Nanos => ONE,
            TimeUnit::Micros => THOUSAND,
            TimeUnit::Millis => MILLION,
            TimeUnit::Seconds => BILLION,
        }
    }
}

/// An elapsed time that is shown with three decimals in the unit that suits it.
#[derive(Clone, Copy, Debug)]
pub struct NiceTime {
    pub time_ns: u64,
}

impl NiceTime {
    pub fn new(time_ns: u64) -> (r: Self)
        ensures
            r.time_ns == time_ns,
    {
        NiceTime { time_ns }
    }

    /// The unit in which this time is shown.
    pub fn unit(&self) -> (r: TimeUnit)
        ensures
            r == TimeUnit::of(self.time_ns),
    {
        let bits = self.time_ns;
        if bits >= SIGN_BIT {
            if bits - SIGN_BIT > INFINITY {
                TimeUnit::Seconds
            } else {
                TimeUnit::Nanos
            }
        } else if bits > INFINITY {
            TimeUnit::Seconds
        } else if bits < THOUSAND {
            TimeUnit::Nanos
        } else if bits < MILLION {
            TimeUnit::Micros
        } else if bits < BILLION {
            TimeUnit::Millis
        } else {
            TimeUnit::Seconds
        }
    }

    /// The time as shown, given `mantissa`: the time divided by
    /// [`TimeUnit::scale`] of its unit and written with three decimals.
    pub fn render(&self, mantissa: &str) -> (r: String)
        ensures
            r@ == mantissa@ + TimeUnit::of(self.time_ns).letters(),
    {
        let mut r = mantissa.to_owned();
        r.append(self.unit().suffix());
        r
    }
}

} // verus!
