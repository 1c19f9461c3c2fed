use connector_agent::data_order::{select_data_order, DataOrder};
use connector_agent::destination::Destination;
use connector_agent::dispatcher::Dispatcher;
use connector_agent::errors::ConnectorAgentError;
use connector_agent::source::MemSource;
use connector_agent::typesystem::{DataType, MysqlTypeSystem, PhysicalType};
use connector_agent::value::{DateTimeVal, DateVal, DecimalVal, TimeVal, Value};

fn bool_cells(rows: &[(bool, bool)]) -> Vec<Value> {
    let mut cells = Vec::new();
    for &(a, b) in rows {
        cells.push(Value::Bool(a));
        cells.push(Value::Bool(b));
    }
    cells
}

#[test]
fn bool_matrix_single_partition() {
    let schema = vec![MysqlTypeSystem::Tiny, MysqlTypeSystem::Tiny];
    let rows = [(true, false), (false, false), (true, true)];
    let source = MemSource::new(schema, 3, vec![(3, bool_cells(&rows))]).unwrap();
    let columns = Dispatcher::run(source, &vec![DataOrder::RowMajor]).unwrap();
    assert_eq!(columns.nrows(), 3);
    assert_eq!(columns.ncols(), 2);
    for (r, &(a, b)) in rows.iter().enumerate() {
        assert_eq!(*columns.cell(r, 0), Value::Bool(a));
        assert_eq!(*columns.cell(r, 1), Value::Bool(b));
    }
}

#[test]
fn two_partitions_concatenate_rows() {
    let schema = vec![MysqlTypeSystem::Tiny, MysqlTypeSystem::Tiny];
    let part0 = bool_cells(&[(true, true), (false, false)]);
    let part1 = bool_cells(&[(true, false)]);
    let source = MemSource::new(schema, 3, vec![(2, part0), (1, part1)]).unwrap();
    let columns = Dispatcher::run(source, &vec![DataOrder::RowMajor]).unwrap();
    assert_eq!(columns.nrows(), 3);
    assert_eq!(columns.ncols(), 2);
    let expected = [(true, true), (false, false), (true, false)];
    for (r, &(a, b)) in expected.iter().enumerate() {
        assert_eq!(*columns.cell(r, 0), Value::Bool(a));
        assert_eq!(*columns.cell(r, 1), Value::Bool(b));
    }
}

#[test]
fn date_widens_to_midnight_utc() {
    let schema = vec![MysqlTypeSystem::Date];
    let date = DateVal { year: 2024, month: 2, day: 29 };
    let source = MemSource::new(schema, 1, vec![(1, vec![Value::Date(date)])]).unwrap();
    let columns = Dispatcher::run(source, &vec![DataOrder::RowMajor]).unwrap();
    let expected = DateTimeVal {
        date: DateVal { year: 2024, month: 2, day: 29 },
        time: TimeVal { hour: 0, minute: 0, second: 0, nano: 0 },
    };
    assert_eq!(*columns.cell(0, 0), Value::DateTime(expected));
}

#[test]
fn decimal_above_f64_max_overflows() {
    let schema = vec![MysqlTypeSystem::Decimal];
    let big = DecimalVal { mantissa: 2, exp: 400 };
    let source = MemSource::new(schema, 1, vec![(1, vec![Value::Decimal(big)])]).unwrap();
    let err = Dispatcher::run(source, &vec![DataOrder::RowMajor]).unwrap_err();
    assert_eq!(
        err,
        ConnectorAgentError::ConversionOverflow { partition: 0, row: 0, col: 0 }
    );
}

#[test]
fn mismatched_counts_fail_before_workers() {
    let schema = vec![MysqlTypeSystem::Tiny];
    let part = |n: usize| (n, vec![Value::Bool(false); n]);
    let source = MemSource::new(schema, 10, vec![part(4), part(4)]).unwrap();
    let err = Dispatcher::run(source, &vec![DataOrder::RowMajor]).unwrap_err();
    assert_eq!(err, ConnectorAgentError::CountsMismatch { expected: 10, got: 8 });
}

#[test]
fn unsupported_data_order_fails_at_allocate() {
    let schema = vec![MysqlTypeSystem::Tiny];
    let source = MemSource::new(schema, 1, vec![(1, vec![Value::Bool(true)])]).unwrap();
    let err = Dispatcher::run(source, &vec![DataOrder::ColumnMajor]).unwrap_err();
    assert_eq!(err, ConnectorAgentError::UnsupportedDataOrder(DataOrder::ColumnMajor));
}

#[test]
fn row_major_preferred_among_mutually_supported() {
    let schema = vec![MysqlTypeSystem::Tiny];
    let source = MemSource::new(schema, 1, vec![(1, vec![Value::Bool(true)])]).unwrap();
    let plan = vec![DataOrder::ColumnMajor, DataOrder::RowMajor];
    let columns = Dispatcher::run(source, &plan).unwrap();
    assert_eq!(*columns.cell(0, 0), Value::Bool(true));
}

#[test]
fn empty_transfer_yields_zero_rows() {
    let schema = vec![MysqlTypeSystem::Tiny, MysqlTypeSystem::Long];
    let source = MemSource::new(schema, 0, vec![]).unwrap();
    let columns = Dispatcher::run(source, &vec![DataOrder::RowMajor]).unwrap();
    assert_eq!(columns.nrows(), 0);
    assert_eq!(columns.ncols(), 2);
}

#[test]
fn time_renders_canonical_text() {
    let schema = vec![MysqlTypeSystem::Time];
    let t = TimeVal { hour: 12, minute: 34, second: 56, nano: 0 };
    let source = MemSource::new(schema, 1, vec![(1, vec![Value::Time(t)])]).unwrap();
    let columns = Dispatcher::run(source, &vec![DataOrder::RowMajor]).unwrap();
    assert_eq!(*columns.cell(0, 0), Value::Str(String::from("12:34:56")));
}

#[test]
fn time_with_fraction_appends_it() {
    let schema = vec![MysqlTypeSystem::Time];
    let t = TimeVal { hour: 1, minute: 2, second: 3, nano: 500_000_000 };
    let source = MemSource::new(schema, 1, vec![(1, vec![Value::Time(t)])]).unwrap();
    let columns = Dispatcher::run(source, &vec![DataOrder::RowMajor]).unwrap();
    assert_eq!(*columns.cell(0, 0), Value::Str(String::from("01:02:03.500")));
}

#[test]
fn leap_second_accepted_only_at_second_59() {
    let schema = vec![MysqlTypeSystem::Time];
    let misplaced = TimeVal { hour: 0, minute: 0, second: 0, nano: 1_500_000_000 };
    let err = MemSource::new(schema, 1, vec![(1, vec![Value::Time(misplaced)])]).unwrap_err();
    assert!(matches!(err, ConnectorAgentError::TypeMismatch { .. }));

    let leap = TimeVal { hour: 23, minute: 59, second: 59, nano: 1_500_000_000 };
    let source = MemSource::new(
        vec![MysqlTypeSystem::Time],
        1,
        vec![(1, vec![Value::Time(leap)])],
    )
    .unwrap();
    let columns = Dispatcher::run(source, &vec![DataOrder::RowMajor]).unwrap();
    assert_eq!(*columns.cell(0, 0), Value::Str(String::from("23:59:60.500")));
}

#[test]
fn datetime_passes_as_utc_wall_clock() {
    let schema = vec![MysqlTypeSystem::Datetime];
    let dt = DateTimeVal {
        date: DateVal { year: 1999, month: 12, day: 31 },
        time: TimeVal { hour: 23, minute: 59, second: 59, nano: 0 },
    };
    let source = MemSource::new(schema, 1, vec![(1, vec![Value::DateTime(dt)])]).unwrap();
    let columns = Dispatcher::run(source, &vec![DataOrder::RowMajor]).unwrap();
    assert_eq!(*columns.cell(0, 0), Value::DateTime(dt));
}

#[test]
fn mixed_identity_schema_round_trips() {
    let schema = vec![
        MysqlTypeSystem::Long,
        MysqlTypeSystem::Double,
        MysqlTypeSystem::VarChar,
        MysqlTypeSystem::LongLong,
    ];
    let cells = vec![
        Value::I64(-7),
        Value::F64Bits(2.5f64.to_bits()),
        Value::Str(String::from("hello")),
        Value::I64(42),
    ];
    let source = MemSource::new(schema, 1, vec![(1, cells.clone())]).unwrap();
    let columns = Dispatcher::run(source, &vec![DataOrder::RowMajor]).unwrap();
    for (c, expected) in cells.iter().enumerate() {
        assert_eq!(columns.cell(0, c), expected);
    }
}

#[test]
fn source_rejects_mistyped_cell() {
    let schema = vec![MysqlTypeSystem::Tiny, MysqlTypeSystem::Tiny];
    let cells = vec![Value::Bool(true), Value::I64(1)];
    let err = MemSource::new(schema, 1, vec![(1, cells)]).unwrap_err();
    assert_eq!(
        err,
        ConnectorAgentError::TypeMismatch {
            expected: PhysicalType::Bool,
            found: PhysicalType::I64,
        }
    );
}

#[test]
fn source_rejects_misshaped_partition() {
    let schema = vec![MysqlTypeSystem::Tiny, MysqlTypeSystem::Tiny];
    let good = vec![Value::Bool(true), Value::Bool(false)];
    let short = vec![Value::Bool(true)];
    let err = MemSource::new(schema, 2, vec![(1, good), (1, short)]).unwrap_err();
    assert_eq!(err, ConnectorAgentError::CountsMismatch { expected: 2, got: 1 });
}

#[test]
fn second_finalize_fails() {
    let mut dest = Destination::allocate(1, vec![DataType::Bool], DataOrder::RowMajor).unwrap();
    let mut writers = dest.into_partitions(&vec![1]).unwrap();
    writers[0].consume(0, 0, Value::Bool(true));
    let columns = dest.finalize(writers).unwrap();
    assert_eq!(*columns.cell(0, 0), Value::Bool(true));
    let err = dest.finalize(Vec::new()).unwrap_err();
    assert_eq!(err, ConnectorAgentError::AlreadyFinalized);
}

#[test]
fn finalize_before_partitioning_fails() {
    let mut dest = Destination::allocate(2, vec![DataType::I64], DataOrder::RowMajor).unwrap();
    let err = dest.finalize(Vec::new()).unwrap_err();
    assert_eq!(err, ConnectorAgentError::NotFinalized);
}

#[test]
fn checked_write_rejects_wrong_physical_type() {
    let mut dest = Destination::allocate(1, vec![DataType::Bool], DataOrder::RowMajor).unwrap();
    let mut writers = dest.into_partitions(&vec![1]).unwrap();
    let err = writers[0].consume_checked(0, 0, Value::I64(9)).unwrap_err();
    assert!(matches!(err, ConnectorAgentError::TypeMismatch { .. }));
    writers[0].consume_checked(0, 0, Value::Bool(true)).unwrap();
    let columns = dest.finalize(writers).unwrap();
    assert_eq!(*columns.cell(0, 0), Value::Bool(true));
}

#[test]
fn reader_finish_requires_all_cells_consumed() {
    let schema = vec![MysqlTypeSystem::Tiny];
    let source = MemSource::new(schema, 1, vec![(1, vec![Value::Bool(true)])]).unwrap();
    let mut readers = source.into_partitions();
    let mut reader = readers.pop().unwrap();
    assert!(matches!(
        reader.finish(),
        Err(ConnectorAgentError::ProduceError { .. })
    ));
    let v = reader.produce();
    assert_eq!(v, Value::Bool(true));
    assert!(reader.finish().is_ok());
}

#[test]
fn error_positions_point_at_first_failing_cell() {
    let schema = vec![MysqlTypeSystem::Long, MysqlTypeSystem::Decimal];
    let ok_row = vec![Value::I64(1), Value::Decimal(DecimalVal { mantissa: 5, exp: 0 })];
    let bad_row = vec![Value::I64(2), Value::Decimal(DecimalVal { mantissa: 3, exp: 500 })];
    let part0 = ok_row.clone();
    let mut part1 = ok_row;
    part1.extend(bad_row);
    let source = MemSource::new(schema, 3, vec![(1, part0), (2, part1)]).unwrap();
    let err = Dispatcher::run(source, &vec![DataOrder::RowMajor]).unwrap_err();
    assert_eq!(
        err,
        ConnectorAgentError::ConversionOverflow { partition: 1, row: 1, col: 1 }
    );
}

#[test]
fn destination_advertises_row_major_only() {
    let dst = Destination::data_orders();
    let plan = vec![DataOrder::ColumnMajor, DataOrder::RowMajor];
    assert_eq!(select_data_order(&plan, &dst), Some(DataOrder::RowMajor));
    assert_eq!(select_data_order(&vec![DataOrder::ColumnMajor], &dst), None);
}
