//! Concrete cell values and their well-formedness.
//!
//! A cell in flight between a reader and a writer is a `Value`. The engine
//! does not interpret 64-bit floats; it carries them as their IEEE 754 bit
//! pattern, so that the transport stays free of floating-point arithmetic.

use vstd::prelude::*;
use crate::typesystem::PhysicalType;

verus! {

/// A civil calendar date.
#[derive(Clone, Copy, Debug, PartialEq, Eq, Structural)]
pub struct DateVal {
    pub year: i32,
    pub month: u8,
    pub day: u8,
}

/// A wall-clock time of day. `nano` may reach 1_999_999_999 to represent a
/// leap second, which occurs only at second 59.
#[derive(Clone, Copy, Debug, PartialEq, Eq, Structural)]
pub struct TimeVal {
    pub hour: u8,
    pub minute: u8,
    pub second: u8,
    pub nano: u32,
}

/// A timestamp on the UTC timeline, kept as civil fields.
#[derive(Clone, Copy, Debug, PartialEq, Eq, Structural)]
pub struct DateTimeVal {
    pub date: DateVal,
    pub time: TimeVal,
}

/// A decimal number `mantissa * 10^exp`.
#[derive(Clone, Copy, Debug, PartialEq, Eq, Structural)]
pub struct DecimalVal {
    pub mantissa: i128,
    pub exp: i32,
}

pub open spec fn leap_year(y: int) -> bool {
    (y % 4 == 0 && y % 100 != 0) || y % 400 == 0
}

pub open spec fn days_in_month(y: int, m: int) -> int {
    if m == 2 {
        if leap_year(y) {
            29
        } else {
            28
        }
    } else if m == 4 || m == 6 || m == 9 || m == 11 {
        30
    } else {
        31
    }
}

impl DateVal {
    /// A valid civil date.
    pub open spec fn wf(self) -> bool {
        1 <= self.month <= 12 && 1 <= self.day <= days_in_month(
            self.year as int,
            self.month as int,
        )
    }
}

impl TimeVal {
    /// A valid wall-clock time: the nanosecond field may exceed one second
    /// only to represent a leap second, which occurs only at second 59.
    pub open spec fn wf(self) -> bool {
        self.hour < 24 && self.minute < 60 && self.second < 60 && self.nano < 2_000_000_000 && (
        self.nano < 1_000_000_000 || self.second == 59)
    }
}

impl DateTimeVal {
    pub open spec fn wf(self) -> bool {
        self.date.wf() && self.time.wf()
    }

    /// The timestamp at midnight of `date`, UTC.
    pub open spec fn midnight_spec(date: DateVal) -> DateTimeVal {
        DateTimeVal { date, time: TimeVal { hour: 0, minute: 0, second: 0, nano: 0 } }
    }

    pub fn midnight(date: DateVal) -> (r: DateTimeVal)
        ensures
            r == Self::midnight_spec(date),
            date.wf() ==> r.wf(),
    {
        DateTimeVal { date, time: TimeVal { hour: 0, minute: 0, second: 0, nano: 0 } }
    }
}

/// Whether `v` is the default cell of physical type `p`: the zero, false,
/// empty or epoch value that freshly allocated column storage is filled
/// with. For each physical type exactly one value satisfies this.
pub open spec fn is_default_cell(v: Value, p: PhysicalType) -> bool {
    match (p, v) {
        (PhysicalType::Bool, Value::Bool(b)) => b == false,
        (PhysicalType::I64, Value::I64(x)) => x == 0,
        (PhysicalType::F64Bits, Value::F64Bits(x)) => x == 0,
        (PhysicalType::Str, Value::Str(s)) => s@ == Seq::<char>::empty(),
        (PhysicalType::Date, Value::Date(d)) => d == (DateVal { year: 1970, month: 1, day: 1 }),
        (PhysicalType::Time, Value::Time(t)) => t == (TimeVal {
            hour: 0,
            minute: 0,
            second: 0,
            nano: 0,
        }),
        (PhysicalType::DateTime, Value::DateTime(dt)) => dt == (DateTimeVal {
            date: DateVal { year: 1970, month: 1, day: 1 },
            time: TimeVal { hour: 0, minute: 0, second: 0, nano: 0 },
        }),
        (PhysicalType::Decimal, Value::Decimal(d)) => d == (DecimalVal { mantissa: 0, exp: 0 }),
        _ => false,
    }
}

/// A single cell value in flight between a reader and a writer.
#[derive(Clone, Debug, PartialEq)]
pub enum Value {
    Bool(bool),
    I64(i64),
    /// The bit pattern of an IEEE 754 binary64 value.
    F64Bits(u64),
    Str(String),
    Date(DateVal),
    Time(TimeVal),
    DateTime(DateTimeVal),
    Decimal(DecimalVal),
}

impl Value {
    /// The physical type of this value.
    pub open spec fn physical_spec(self) -> PhysicalType {
        match self {
            Value::Bool(_) => PhysicalType::Bool,
            Value::I64(_) => PhysicalType::I64,
            Value::F64Bits(_) => PhysicalType::F64Bits,
            Value::Str(_) => PhysicalType::Str,
            Value::Date(_) => PhysicalType::Date,
            Value::Time(_) => PhysicalType::Time,
            Value::DateTime(_) => PhysicalType::DateTime,
            Value::Decimal(_) => PhysicalType::Decimal,
        }
    }

    pub fn physical(&self) -> (r: PhysicalType)
        ensures
            r == self.physical_spec(),
    {
        match self {
            Value::Bool(_) => PhysicalType::Bool,
            Value::I64(_) => PhysicalType::I64,
            Value::F64Bits(_) => PhysicalType::F64Bits,
            Value::Str(_) => PhysicalType::Str,
            Value::Date(_) => PhysicalType::Date,
            Value::Time(_) => PhysicalType::Time,
            Value::DateTime(_) => PhysicalType::DateTime,
            Value::Decimal(_) => PhysicalType::Decimal,
        }
    }

    /// Date and time payloads must denote valid civil instants; every other
    /// payload is unconstrained.
    pub open spec fn wf(self) -> bool {
        match self {
            Value::Date(d) => d.wf(),
            Value::Time(t) => t.wf(),
            Value::DateTime(dt) => dt.wf(),
            _ => true,
        }
    }

    /// The default cell of a given physical type, used to pre-fill freshly
    /// allocated column storage.
    pub fn default_of(p: PhysicalType) -> (r: Value)
        ensures
            r.physical_spec() == p,
            r.wf(),
            is_default_cell(r, p),
    {
        match p {
            PhysicalType::Bool => Value::Bool(false),
            PhysicalType::I64 => Value::I64(0),
            PhysicalType::F64Bits => Value::F64Bits(0),
            PhysicalType::Str => Value::Str(String::new()),
            PhysicalType::Date => Value::Date(DateVal { year: 1970, month: 1, day: 1 }),
            PhysicalType::Time => Value::Time(TimeVal { hour: 0, minute: 0, second: 0, nano: 0 }),
            PhysicalType::DateTime => Value::DateTime(
                DateTimeVal {
                    date: DateVal { year: 1970, month: 1, day: 1 },
                    time: TimeVal { hour: 0, minute: 0, second: 0, nano: 0 },
                },
            ),
            PhysicalType::Decimal => Value::Decimal(DecimalVal { mantissa: 0, exp: 0 }),
        }
    }
}

} // verus!
