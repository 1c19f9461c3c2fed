use connector_agent::bool_writer::{bool_matrix_get, bool_matrix_ncols, bool_matrix_nrows,
    BoolWriter};
use connector_agent::data_order::{select_data_order, DataOrder};
use connector_agent::decimal::{decimal_to_f64_bits, DecimalError};
use connector_agent::errors::ConnectorAgentError;
use connector_agent::route::{select_route, Route, SourceType, WireProtocol};
use connector_agent::typesystem::{DataType, MysqlTypeSystem, PhysicalType};
use connector_agent::value::{DecimalVal, Value};

#[test]
fn associate_is_total_and_check_is_exact() {
    assert_eq!(DataType::Bool.associate(), PhysicalType::Bool);
    assert_eq!(DataType::F64.associate(), PhysicalType::F64Bits);
    assert!(DataType::I64.check(PhysicalType::I64).is_ok());
    let err = DataType::I64.check(PhysicalType::Str).unwrap_err();
    assert_eq!(
        err,
        ConnectorAgentError::TypeMismatch {
            expected: PhysicalType::I64,
            found: PhysicalType::Str,
        }
    );
    assert_eq!(MysqlTypeSystem::Decimal.associate(), PhysicalType::Decimal);
    assert_eq!(MysqlTypeSystem::Char.associate(), PhysicalType::Str);
}

#[test]
fn decimal_small_value_rounds_exactly() {
    let bits = decimal_to_f64_bits(DecimalVal { mantissa: 3141, exp: -3 }).unwrap();
    assert_eq!(f64::from_bits(bits), 3.141);
}

#[test]
fn decimal_zero_is_positive_zero() {
    let bits = decimal_to_f64_bits(DecimalVal { mantissa: 0, exp: -900 }).unwrap();
    assert_eq!(f64::from_bits(bits), 0.0);
}

#[test]
fn decimal_folds_positive_exponent() {
    let bits = decimal_to_f64_bits(DecimalVal { mantissa: 5, exp: 2 }).unwrap();
    assert_eq!(f64::from_bits(bits), 500.0);
}

#[test]
fn decimal_overflow_is_classified_exactly() {
    let err = decimal_to_f64_bits(DecimalVal { mantissa: 1, exp: 309 }).unwrap_err();
    assert_eq!(err, DecimalError::Overflow);
    // 1.7e308 stays inside the finite binary64 range but outside the
    // converter's 96-bit window.
    let err = decimal_to_f64_bits(DecimalVal { mantissa: 17, exp: 307 }).unwrap_err();
    assert_eq!(err, DecimalError::Loss);
    // 1.8e308 is just above f64::MAX.
    let err = decimal_to_f64_bits(DecimalVal { mantissa: 18, exp: 307 }).unwrap_err();
    assert_eq!(err, DecimalError::Overflow);
}

#[test]
fn decimal_wide_mantissa_is_loss() {
    let wide = DecimalVal { mantissa: 79228162514264337593543950336, exp: 0 };
    assert_eq!(decimal_to_f64_bits(wide).unwrap_err(), DecimalError::Loss);
}

#[test]
fn route_selection_covers_protocol_matrix() {
    assert_eq!(
        select_route(SourceType::Postgres, WireProtocol::Csv, true).unwrap(),
        Route::PostgresCsv { tls: true }
    );
    assert_eq!(
        select_route(SourceType::Postgres, WireProtocol::Simple, false).unwrap(),
        Route::PostgresSimple { tls: false }
    );
    assert_eq!(
        select_route(SourceType::Mysql, WireProtocol::Text, false).unwrap(),
        Route::MysqlText
    );
    assert_eq!(select_route(SourceType::Sqlite, WireProtocol::Binary, false).unwrap(), Route::Sqlite);
    assert_eq!(
        select_route(SourceType::Mysql, WireProtocol::Csv, false).unwrap_err(),
        ConnectorAgentError::UnsupportedProtocol
    );
    assert_eq!(
        select_route(SourceType::BigQuery, WireProtocol::Binary, false).unwrap_err(),
        ConnectorAgentError::UnsupportedProtocol
    );
}

#[test]
fn data_order_prefers_row_major() {
    let src = vec![DataOrder::ColumnMajor, DataOrder::RowMajor];
    let dst = vec![DataOrder::RowMajor];
    assert_eq!(select_data_order(&src, &dst), Some(DataOrder::RowMajor));
    // Even when the plan lists column-major first and both sides support
    // both orders, row-major wins the tie-break.
    let both = vec![DataOrder::ColumnMajor, DataOrder::RowMajor];
    let dst_both = vec![DataOrder::ColumnMajor, DataOrder::RowMajor];
    assert_eq!(select_data_order(&both, &dst_both), Some(DataOrder::RowMajor));
    // Column-major is picked only when row-major is not common.
    let cm_only = vec![DataOrder::ColumnMajor];
    assert_eq!(
        select_data_order(&cm_only, &dst_both),
        Some(DataOrder::ColumnMajor)
    );
    let none = select_data_order(&cm_only, &dst);
    assert_eq!(none, None);
}

#[test]
fn bool_writer_round_trips_through_ndarray() {
    let schema = vec![DataType::Bool, DataType::Bool];
    let Ok(mut writer) = BoolWriter::allocate(3, schema, DataOrder::RowMajor) else {
        panic!("allocate failed");
    };
    let mut parts = writer.partition_writers(&vec![2, 1]).unwrap();
    assert_eq!(parts.len(), 2);
    assert_eq!(parts[0].nrows(), 2);
    assert_eq!(parts[1].nrows(), 1);
    parts[0].consume(0, 0, true);
    parts[0].consume(1, 1, true);
    parts[1].consume(0, 0, true);
    for p in &parts {
        writer.collect(p);
    }
    let m = writer.buffer();
    assert_eq!(bool_matrix_nrows(m), 3);
    assert_eq!(bool_matrix_ncols(m), 2);
    let expected = [[true, false], [false, true], [true, false]];
    for r in 0..3 {
        for c in 0..2 {
            assert_eq!(bool_matrix_get(m, r, c), expected[r][c]);
        }
    }
}

#[test]
fn bool_writer_rejects_non_bool_schema() {
    let schema = vec![DataType::Bool, DataType::I64];
    let Err(err) = BoolWriter::allocate(1, schema, DataOrder::RowMajor) else {
        panic!("expected an error");
    };
    assert_eq!(
        err,
        ConnectorAgentError::UnsupportedSchema { col: 1, ty: DataType::I64 }
    );
}

#[test]
fn bool_writer_rejects_column_major() {
    let schema = vec![DataType::Bool];
    let Err(err) = BoolWriter::allocate(1, schema, DataOrder::ColumnMajor) else {
        panic!("expected an error");
    };
    assert_eq!(err, ConnectorAgentError::UnsupportedDataOrder(DataOrder::ColumnMajor));
}

#[test]
fn bool_writer_counts_must_sum() {
    let schema = vec![DataType::Bool];
    let Ok(writer) = BoolWriter::allocate(3, schema, DataOrder::RowMajor) else {
        panic!("allocate failed");
    };
    let err = writer.partition_writers(&vec![1, 1]).unwrap_err();
    assert_eq!(err, ConnectorAgentError::CountsMismatch { expected: 3, got: 2 });
}

#[test]
fn bool_partition_checked_write_is_sound() {
    let schema = vec![DataType::Bool];
    let Ok(writer) = BoolWriter::allocate(1, schema, DataOrder::RowMajor) else {
        panic!("allocate failed");
    };
    let mut parts = writer.partition_writers(&vec![1]).unwrap();
    let err = parts[0].consume_checked(0, 0, Value::I64(3)).unwrap_err();
    assert_eq!(
        err,
        ConnectorAgentError::TypeMismatch {
            expected: PhysicalType::Bool,
            found: PhysicalType::I64,
        }
    );
    parts[0].consume_checked(0, 0, Value::Bool(true)).unwrap();
    assert!(parts[0].read_cell(0, 0));
}

#[test]
fn bool_writer_advertises_row_major_only() {
    let orders = BoolWriter::data_orders();
    assert_eq!(orders, vec![DataOrder::RowMajor]);
}
