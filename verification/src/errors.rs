//! The engine's uniform error taxonomy.
//!
//! Configuration and type errors are detected at probe or allocate time and
//! fail a transfer before any worker starts; conversion errors arise inside a
//! worker and carry the partition, row and column of the offending cell.

use vstd::prelude::*;
use crate::data_order::DataOrder;
use crate::typesystem::{DataType, MysqlTypeSystem, PhysicalType};

verus! {

#[derive(Clone, Copy, Debug, PartialEq, Eq, Structural)]
pub enum ConnectorAgentError {
    /// The requested layout is not among the destination's supported orders.
    UnsupportedDataOrder(DataOrder),
    /// A column whose logical type the destination cannot represent.
    UnsupportedSchema { col: usize, ty: DataType },
    /// No transport entry for a source logical type used by the query.
    UnsupportedType { col: usize, ty: MysqlTypeSystem },
    /// The protocol name is not served for the chosen source.
    UnsupportedProtocol,
    /// The partition counts do not sum to the destination's total row count.
    CountsMismatch { expected: usize, got: usize },
    /// A claimed physical type is not the representation of the logical type.
    TypeMismatch { expected: PhysicalType, found: PhysicalType },
    /// A converted value fell outside the finite range of the target type.
    ConversionOverflow { partition: usize, row: usize, col: usize },
    /// A value within range that the converter cannot represent exactly
    /// enough to round.
    ConversionLoss { partition: usize, row: usize, col: usize },
    /// A partition reader failed to produce the next expected cell.
    ProduceError { partition: usize, row: usize, col: usize },
    /// Contents were requested before all partition writers were returned.
    NotFinalized,
    /// A second finalization of the same destination.
    AlreadyFinalized,
}

} // verus!
