//! Core of a parallel database-to-columnar transfer engine.
//!
//! A transfer decomposes a logical query into independent partitions, probes
//! the source for a schema and per-partition row counts, pre-allocates a
//! columnar destination, and routes every cell through a typed transport
//! (source logical type to destination logical type, with a conversion per
//! entry). Each partition writes an exclusive, contiguous row range of the
//! destination; the unchecked cell-write path is safe because the transport
//! guarantees that every converted value has the physical type of its
//! destination column.

pub mod bool_writer;
pub mod data_order;
pub mod decimal;
pub mod destination;
pub mod dispatcher;
pub mod errors;
pub mod route;
pub mod source;
pub mod transport;
pub mod typesystem;
pub mod value;
