//! Source and protocol routing: which transport serves a transfer.
//!
//! A backend may be served by several wire protocols, and the relational
//! sources can run with or without TLS. The pairing of a backend, a
//! protocol and a TLS mode with one transport is decided once per transfer,
//! before any connection is opened; the connection work itself lives with
//! the caller.

use vstd::prelude::*;
use crate::errors::ConnectorAgentError;

verus! {

/// The relational backends a transfer can read from.
#[derive(Clone, Copy, Debug, PartialEq, Eq, Structural)]
pub enum SourceType {
    Postgres,
    Sqlite,
    Mysql,
    Mssql,
    Oracle,
    BigQuery,
}

/// The wire protocols a backend may speak.
#[derive(Clone, Copy, Debug, PartialEq, Eq, Structural)]
pub enum WireProtocol {
    Csv,
    Binary,
    Cursor,
    Simple,
    Text,
}

/// One fully decided route: backend, protocol variant and TLS mode.
#[derive(Clone, Copy, Debug, PartialEq, Eq, Structural)]
pub enum Route {
    PostgresCsv { tls: bool },
    PostgresBinary { tls: bool },
    PostgresCursor { tls: bool },
    PostgresSimple { tls: bool },
    MysqlBinary,
    MysqlText,
    Sqlite,
    Mssql,
    Oracle,
}

/// Whether a backend serves a protocol.
pub open spec fn protocol_served(ty: SourceType, protocol: WireProtocol) -> bool {
    match ty {
        SourceType::Postgres => matches!(
            protocol,
            WireProtocol::Csv | WireProtocol::Binary | WireProtocol::Cursor | WireProtocol::Simple,
        ),
        SourceType::Mysql => matches!(protocol, WireProtocol::Binary | WireProtocol::Text),
        SourceType::Sqlite => true,
        SourceType::Mssql => true,
        SourceType::Oracle => true,
        SourceType::BigQuery => false,
    }
}

/// The route a served combination is dispatched to.
pub open spec fn route_of(ty: SourceType, protocol: WireProtocol, tls: bool) -> Route {
    match ty {
        SourceType::Postgres => match protocol {
            WireProtocol::Csv => Route::PostgresCsv { tls },
            WireProtocol::Binary => Route::PostgresBinary { tls },
            WireProtocol::Cursor => Route::PostgresCursor { tls },
            _ => Route::PostgresSimple { tls },
        },
        SourceType::Mysql => if protocol == WireProtocol::Binary {
            Route::MysqlBinary
        } else {
            Route::MysqlText
        },
        SourceType::Sqlite => Route::Sqlite,
        SourceType::Mssql => Route::Mssql,
        _ => Route::Oracle,
    }
}

/// Decides the transport route for a transfer, once, before any worker
/// starts. Fails exactly on a protocol the backend does not serve; the
/// TLS mode matters only for the relational backends that support both.
pub fn select_route(ty: SourceType, protocol: WireProtocol, tls: bool) -> (r: Result<
    Route,
    ConnectorAgentError,
>)
    ensures
        r is Ok <==> protocol_served(ty, protocol),
        r is Ok ==> r->Ok_0 == route_of(ty, protocol, tls),
        r is Err ==> r == Result::<Route, ConnectorAgentError>::Err(
            ConnectorAgentError::UnsupportedProtocol,
        ),
{
    match ty {
        SourceType::Postgres => match protocol {
            WireProtocol::Csv => Ok(Route::PostgresCsv { tls }),
            WireProtocol::Binary => Ok(Route::PostgresBinary { tls }),
            WireProtocol::Cursor => Ok(Route::PostgresCursor { tls }),
            WireProtocol::Simple => Ok(Route::PostgresSimple { tls }),
            WireProtocol::Text => Err(ConnectorAgentError::UnsupportedProtocol),
        },
        SourceType::Mysql => match protocol {
            WireProtocol::Binary => Ok(Route::MysqlBinary),
            WireProtocol::Text => Ok(Route::MysqlText),
            _ => Err(ConnectorAgentError::UnsupportedProtocol),
        },
        SourceType::Sqlite => Ok(Route::Sqlite),
        SourceType::Mssql => Ok(Route::Mssql),
        SourceType::Oracle => Ok(Route::Oracle),
        SourceType::BigQuery => Err(ConnectorAgentError::UnsupportedProtocol),
    }
}

} // verus!
