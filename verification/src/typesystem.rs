//! Logical type systems and their physical representations.
//!
//! A type system is a closed enumeration of logical types. Each logical type
//! is associated with exactly one physical representation; the type-check
//! succeeds exactly when a claimed physical type is that representation.

use vstd::prelude::*;
use crate::errors::ConnectorAgentError;

verus! {

/// The shape of a concrete cell value, independent of any type system.
#[derive(Clone, Copy, Debug, PartialEq, Eq, Structural)]
pub enum PhysicalType {
    Bool,
    I64,
    /// A 64-bit IEEE 754 value, carried as its bit pattern.
    F64Bits,
    Str,
    Date,
    Time,
    DateTime,
    Decimal,
}

/// The destination's logical type system.
#[derive(Clone, Copy, Debug, PartialEq, Eq, Structural)]
pub enum DataType {
    Bool,
    I64,
    F64,
    String,
    DateTime,
}

impl DataType {
    /// The unique physical representation of this logical type.
    pub open spec fn associate_spec(self) -> PhysicalType {
        match self {
            DataType::Bool => PhysicalType::Bool,
            DataType::I64 => PhysicalType::I64,
            DataType::F64 => PhysicalType::F64Bits,
            DataType::String => PhysicalType::Str,
            DataType::DateTime => PhysicalType::DateTime,
        }
    }

    /// Total, pure association from logical to physical type.
    pub fn associate(self) -> (r: PhysicalType)
        ensures
            r == self.associate_spec(),
    {
        match self {
            DataType::Bool => PhysicalType::Bool,
            DataType::I64 => PhysicalType::I64,
            DataType::F64 => PhysicalType::F64Bits,
            DataType::String => PhysicalType::Str,
            DataType::DateTime => PhysicalType::DateTime,
        }
    }

    /// Type-check: succeeds exactly when `claimed` is the physical
    /// representation of this logical type.
    pub fn check(self, claimed: PhysicalType) -> (r: Result<(), ConnectorAgentError>)
        ensures
            r is Ok <==> claimed == self.associate_spec(),
            r is Err ==> r == Result::<(), ConnectorAgentError>::Err(
                ConnectorAgentError::TypeMismatch {
                    expected: self.associate_spec(),
                    found: claimed,
                },
            ),
    {
        let expected = self.associate();
        if claimed == expected {
            Ok(())
        } else {
            Err(ConnectorAgentError::TypeMismatch { expected, found: claimed })
        }
    }
}

/// The source's logical type system (a MySQL-flavoured enumeration).
#[derive(Clone, Copy, Debug, PartialEq, Eq, Structural)]
pub enum MysqlTypeSystem {
    Tiny,
    Long,
    LongLong,
    Double,
    Decimal,
    Date,
    Time,
    Datetime,
    VarChar,
    Char,
}

impl MysqlTypeSystem {
    /// The unique physical representation of this logical type.
    pub open spec fn associate_spec(self) -> PhysicalType {
        match self {
            MysqlTypeSystem::Tiny => PhysicalType::Bool,
            MysqlTypeSystem::Long => PhysicalType::I64,
            MysqlTypeSystem::LongLong => PhysicalType::I64,
            MysqlTypeSystem::Double => PhysicalType::F64Bits,
            MysqlTypeSystem::Decimal => PhysicalType::Decimal,
            MysqlTypeSystem::Date => PhysicalType::Date,
            MysqlTypeSystem::Time => PhysicalType::Time,
            MysqlTypeSystem::Datetime => PhysicalType::DateTime,
            MysqlTypeSystem::VarChar => PhysicalType::Str,
            MysqlTypeSystem::Char => PhysicalType::Str,
        }
    }

    /// Total, pure association from logical to physical type.
    pub fn associate(self) -> (r: PhysicalType)
        ensures
            r == self.associate_spec(),
    {
        match self {
            MysqlTypeSystem::Tiny => PhysicalType::Bool,
            MysqlTypeSystem::Long => PhysicalType::I64,
            MysqlTypeSystem::LongLong => PhysicalType::I64,
            MysqlTypeSystem::Double => PhysicalType::F64Bits,
            MysqlTypeSystem::Decimal => PhysicalType::Decimal,
            MysqlTypeSystem::Date => PhysicalType::Date,
            MysqlTypeSystem::Time => PhysicalType::Time,
            MysqlTypeSystem::Datetime => PhysicalType::DateTime,
            MysqlTypeSystem::VarChar => PhysicalType::Str,
            MysqlTypeSystem::Char => PhysicalType::Str,
        }
    }
}

} // verus!
