//! The typed transport from the source type system to the destination's.
//!
//! A transport is a table of entries (source logical type, destination
//! logical type, conversion class). The table is total on the types a query
//! may use or the allocation fails; each entry's conversion is deterministic
//! and produces a value of the destination column's physical type — the
//! guarantee that makes the unchecked write path of the hot loop safe.

use vstd::prelude::*;
use crate::decimal::{decimal_to_f64_bits, dec_convertible, dec_overflows, normalize_spec,
    f64_bits_of_decimal, DecimalError};
use crate::errors::ConnectorAgentError;
use crate::typesystem::{DataType, MysqlTypeSystem};
use crate::value::{DateTimeVal, Value};

verus! {

/// The declared relationship between the two physical types of an entry.
#[derive(Clone, Copy, Debug, PartialEq, Eq, Structural)]
pub enum ConversionClass {
    /// Identity: the physical types coincide and the value moves as is.
    All,
    /// Lossless, non-identity conversion.
    Half,
    /// Alias of another entry with the same physical representation.
    Reuse,
}

/// The transport from the MySQL-flavoured type system to the destination's.
pub struct MysqlPandasTransport;

impl MysqlPandasTransport {
    /// The routing table: destination logical type and conversion class for
    /// each source logical type. Total on this source type system.
    pub open spec fn route_spec(src: MysqlTypeSystem) -> (DataType, ConversionClass) {
        match src {
            MysqlTypeSystem::Tiny => (DataType::Bool, ConversionClass::All),
            MysqlTypeSystem::Long => (DataType::I64, ConversionClass::All),
            MysqlTypeSystem::LongLong => (DataType::I64, ConversionClass::Reuse),
            MysqlTypeSystem::Double => (DataType::F64, ConversionClass::All),
            MysqlTypeSystem::Decimal => (DataType::F64, ConversionClass::Half),
            MysqlTypeSystem::Date => (DataType::DateTime, ConversionClass::Half),
            MysqlTypeSystem::Time => (DataType::String, ConversionClass::Half),
            MysqlTypeSystem::Datetime => (DataType::DateTime, ConversionClass::Half),
            MysqlTypeSystem::VarChar => (DataType::String, ConversionClass::All),
            MysqlTypeSystem::Char => (DataType::String, ConversionClass::Reuse),
        }
    }

    pub fn route(src: MysqlTypeSystem) -> (r: (DataType, ConversionClass))
        ensures
            r == Self::route_spec(src),
    {
        match src {
            MysqlTypeSystem::Tiny => (DataType::Bool, ConversionClass::All),
            MysqlTypeSystem::Long => (DataType::I64, ConversionClass::All),
            MysqlTypeSystem::LongLong => (DataType::I64, ConversionClass::Reuse),
            MysqlTypeSystem::Double => (DataType::F64, ConversionClass::All),
            MysqlTypeSystem::Decimal => (DataType::F64, ConversionClass::Half),
            MysqlTypeSystem::Date => (DataType::DateTime, ConversionClass::Half),
            MysqlTypeSystem::Time => (DataType::String, ConversionClass::Half),
            MysqlTypeSystem::Datetime => (DataType::DateTime, ConversionClass::Half),
            MysqlTypeSystem::VarChar => (DataType::String, ConversionClass::All),
            MysqlTypeSystem::Char => (DataType::String, ConversionClass::Reuse),
        }
    }

    /// The destination schema a source schema is routed to.
    pub fn route_schema(src_schema: &Vec<MysqlTypeSystem>) -> (r: Vec<DataType>)
        ensures
            r@.len() == src_schema@.len(),
            forall|i: int|
                0 <= i < r@.len() ==> r@[i] == Self::route_spec(#[trigger] src_schema@[i]).0,
    {
        let mut out: Vec<DataType> = Vec::new();
        let mut i: usize = 0;
        while i < src_schema.len()
            invariant
                i <= src_schema@.len(),
                out@.len() == i,
                forall|j: int|
                    0 <= j < i ==> out@[j] == Self::route_spec(#[trigger] src_schema@[j]).0,
            decreases src_schema@.len() - i,
        {
            out.push(Self::route(src_schema[i]).0);
            i += 1;
        }
        out
    }
}

/// The decimal digit character for `d`.
pub open spec fn digit_char(d: int) -> char {
    if d == 0 {
        '0'
    } else if d == 1 {
        '1'
    } else if d == 2 {
        '2'
    } else if d == 3 {
        '3'
    } else if d == 4 {
        '4'
    } else if d == 5 {
        '5'
    } else if d == 6 {
        '6'
    } else if d == 7 {
        '7'
    } else if d == 8 {
        '8'
    } else {
        '9'
    }
}

/// `x` rendered as two zero-padded decimal digits.
pub open spec fn two_digits(x: int) -> Seq<char> {
    seq![digit_char(x / 10), digit_char(x % 10)]
}

/// The zero-padded `HH:MM:SS` rendering of a whole-second time.
pub open spec fn hms_text(hour: int, minute: int, second: int) -> Seq<char> {
    two_digits(hour) + seq![':'] + two_digits(minute) + seq![':'] + two_digits(second)
}

/// The text chrono renders a wall-clock time to: zero-padded
/// `HH:MM:SS`, with a fractional part appended when the nanoseconds are
/// not zero; a function of the four fields alone.
pub uninterp spec fn time_text_of(hour: u32, minute: u32, second: u32, nano: u32) -> String;

/// Relies on chrono::NaiveTime::from_hms_nano_opt, which accepts exactly
/// these field ranges (a nanosecond count of a second or more stands for a
/// leap second and is accepted only at second 59), and on NaiveTime's
/// Display, which renders `%H:%M:%S%.f`: each of the three fields as two
/// zero-padded decimal digits, and a fractional suffix only when the
/// nanoseconds are not zero.
#[verifier::external_body]
fn time_text(hour: u32, minute: u32, second: u32, nano: u32) -> (r: String)
    requires
        hour < 24,
        minute < 60,
        second < 60,
        nano < 2_000_000_000,
        nano < 1_000_000_000 || second == 59,
    ensures
        r == time_text_of(hour, minute, second, nano),
        r@.len() >= 8,
        nano == 0 ==> r@ == hms_text(hour as int, minute as int, second as int),
{
    let t = chrono::NaiveTime::from_hms_nano_opt(hour, minute, second, nano).unwrap();
    t.to_string()
}

/// The converted cell for a source cell of logical type `src`, when the
/// conversion is defined; conversion failures are positionless here and
/// placed by the worker.
pub open spec fn convert_spec(src: MysqlTypeSystem, v: Value) -> Value {
    match (src, v) {
        (MysqlTypeSystem::Date, Value::Date(d)) => Value::DateTime(DateTimeVal::midnight_spec(d)),
        (MysqlTypeSystem::Datetime, Value::DateTime(dt)) => Value::DateTime(dt),
        (MysqlTypeSystem::Time, Value::Time(t)) => Value::Str(
            time_text_of(t.hour as u32, t.minute as u32, t.second as u32, t.nano),
        ),
        (MysqlTypeSystem::Decimal, Value::Decimal(d)) => Value::F64Bits(
            f64_bits_of_decimal(
                normalize_spec(d.mantissa as int, d.exp as int).0,
                -normalize_spec(d.mantissa as int, d.exp as int).1,
            ),
        ),
        _ => v,
    }
}

/// Whether the conversion for `src` is defined on the cell `v`.
/// Only the decimal widening can fail; every other entry is total.
pub open spec fn convert_defined(src: MysqlTypeSystem, v: Value) -> bool {
    match (src, v) {
        (MysqlTypeSystem::Decimal, Value::Decimal(d)) => dec_convertible(
            d.mantissa as int,
            d.exp as int,
        ),
        _ => true,
    }
}

/// A conversion failure, before the worker attaches the cell position.
#[derive(Clone, Copy, Debug, PartialEq, Eq, Structural)]
pub enum ConvertError {
    Overflow,
    Loss,
}

/// Applies the transport entry for `src` to one produced cell.
pub fn convert(src: MysqlTypeSystem, v: Value) -> (r: Result<Value, ConvertError>)
    requires
        v.physical_spec() == src.associate_spec(),
        v.wf(),
    ensures
        r is Ok <==> convert_defined(src, v),
        r is Ok ==> ({
            let out = r->Ok_0;
            &&& out == convert_spec(src, v)
            &&& out.physical_spec() == MysqlPandasTransport::route_spec(src).0.associate_spec()
            &&& out.wf()
        }),
        r is Err ==> (r == Result::<Value, ConvertError>::Err(ConvertError::Overflow)
            <==> dec_overflows(v->Decimal_0.mantissa as int, v->Decimal_0.exp as int)),
        v matches Value::Time(t) ==> (t.nano == 0 && r is Ok ==> (r->Ok_0 matches Value::Str(s)
            && s@ == hms_text(t.hour as int, t.minute as int, t.second as int))),
{
    match (src, v) {
        (MysqlTypeSystem::Date, Value::Date(d)) => Ok(Value::DateTime(DateTimeVal::midnight(d))),
        (MysqlTypeSystem::Time, Value::Time(t)) => Ok(
            Value::Str(time_text(t.hour as u32, t.minute as u32, t.second as u32, t.nano)),
        ),
        (MysqlTypeSystem::Decimal, Value::Decimal(d)) => match decimal_to_f64_bits(d) {
            Ok(bits) => Ok(Value::F64Bits(bits)),
            Err(DecimalError::Overflow) => Err(ConvertError::Overflow),
            Err(DecimalError::Loss) => Err(ConvertError::Loss),
        },
        (_, other) => Ok(other),
    }
}

} // verus!
