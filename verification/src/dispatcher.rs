//! The dispatcher: the only stateful orchestrator of a transfer.
//!
//! It probes the source for a schema and per-partition row counts, routes
//! the schema through the transport, allocates the destination, splits it
//! into partition writers, pairs each partition reader with its writer, and
//! finalizes. Each worker traverses its partition in `(row, col)`
//! lexicographic order and writes through the unchecked path: the transport
//! contract proves every converted cell carries its destination column's
//! physical type. The first conversion failure, in partition order, aborts
//! the transfer; no partial columnar result is ever produced.

use vstd::prelude::*;
use vstd::arithmetic::div_mod::{
    lemma_fundamental_div_mod, lemma_fundamental_div_mod_converse, lemma_div_is_ordered,
};
use crate::data_order::DataOrder;
use crate::decimal::dec_overflows;
use crate::destination::{concat_cells, Columns, Destination, PartitionWriter};
use crate::errors::ConnectorAgentError;
use crate::source::{MemPartitionReader, MemSource};
use crate::transport::{
    convert, convert_defined, convert_spec, ConversionClass, ConvertError, MysqlPandasTransport,
};
use crate::typesystem::MysqlTypeSystem;
use crate::value::Value;

verus! {

/// The converted image of one partition's cells.
pub open spec fn converted_partition(schema: Seq<MysqlTypeSystem>, cells: Seq<Value>) -> Seq<
    Value,
> {
    Seq::new(cells.len(), |i: int| convert_spec(schema[i % schema.len() as int], cells[i]))
}

/// Every cell of a partition has a defined conversion.
pub open spec fn partition_defined(schema: Seq<MysqlTypeSystem>, cells: Seq<Value>) -> bool {
    forall|i: int|
        0 <= i < cells.len() ==> convert_defined(
            schema[i % schema.len() as int],
            #[trigger] cells[i],
        )
}

/// Every cell of every partition has a defined conversion.
pub open spec fn all_defined(schema: Seq<MysqlTypeSystem>, parts: Seq<Seq<Value>>) -> bool {
    forall|k: int| 0 <= k < parts.len() ==> partition_defined(schema, #[trigger] parts[k])
}

/// The whole transfer's converted cells: partitions concatenated in
/// partition order.
pub open spec fn concat_converted(schema: Seq<MysqlTypeSystem>, parts: Seq<Seq<Value>>) -> Seq<
    Value,
>
    decreases parts.len(),
{
    if parts.len() == 0 {
        Seq::empty()
    } else {
        concat_converted(schema, parts.drop_last()) + converted_partition(schema, parts.last())
    }
}

/// The raw cells of all partitions, concatenated in partition order.
pub open spec fn concat_parts(parts: Seq<Seq<Value>>) -> Seq<Value>
    decreases parts.len(),
{
    if parts.len() == 0 {
        Seq::empty()
    } else {
        concat_parts(parts.drop_last()) + parts.last()
    }
}

/// The positioned error reported for the failing flat cell `i` of
/// partition `p`: an overflow for a decimal above the binary64 range, a
/// reportable loss otherwise.
pub open spec fn conv_error_at(
    schema: Seq<MysqlTypeSystem>,
    cells: Seq<Value>,
    p: usize,
    i: int,
) -> ConnectorAgentError {
    let row = (i / schema.len() as int) as usize;
    let col = (i % schema.len() as int) as usize;
    match cells[i] {
        Value::Decimal(d) => if dec_overflows(d.mantissa as int, d.exp as int) {
            ConnectorAgentError::ConversionOverflow { partition: p, row, col }
        } else {
            ConnectorAgentError::ConversionLoss { partition: p, row, col }
        },
        _ => ConnectorAgentError::ConversionLoss { partition: p, row, col },
    }
}

/// `e` is the error for the first cell of `cells` whose conversion is
/// undefined, and such a cell exists.
pub open spec fn first_error_in(
    schema: Seq<MysqlTypeSystem>,
    cells: Seq<Value>,
    p: usize,
    e: ConnectorAgentError,
) -> bool {
    exists|i: int|
        #![auto]
        0 <= i < cells.len() && !convert_defined(schema[i % schema.len() as int], cells[i]) && (
        forall|j: int|
            0 <= j < i ==> convert_defined(schema[j % schema.len() as int], cells[j])) && e
            == conv_error_at(schema, cells, p, i)
}

/// The `(row, col)` coordinates of a full row-major traversal, in visit
/// order.
pub open spec fn row_major_log(nrows: int, ncols: int) -> Seq<(int, int)> {
    Seq::new((nrows * ncols) as nat, |i: int| (i / (ncols as int), i % (ncols as int)))
}

/// One worker: drains one partition reader into one partition writer, cell
/// by cell in `(row, col)` lexicographic order, converting each cell
/// through the transport. Fails on the first cell whose conversion is
/// undefined, with that cell's position.
pub fn worker(reader: &mut MemPartitionReader, writer: &mut PartitionWriter, partition: usize) -> (r:
    Result<(), ConnectorAgentError>)
    requires
        old(reader).wf(),
        old(writer).wf(),
        old(reader).pos_spec() == 0,
        old(reader).nrows_spec() == old(writer).nrows_spec(),
        old(reader).schema_spec().len() == old(writer).schema_spec().len(),
        forall|c: int|
            0 <= c < old(reader).schema_spec().len() ==> old(writer).schema_spec()[c]
                == MysqlPandasTransport::route_spec(#[trigger] old(reader).schema_spec()[c]).0,
        old(writer).write_log() == Seq::<(int, int)>::empty(),
    ensures
        final(writer).wf(),
        final(writer).schema_spec() == old(writer).schema_spec(),
        final(writer).nrows_spec() == old(writer).nrows_spec(),
        final(writer).offset_spec() == old(writer).offset_spec(),
        r is Ok <==> partition_defined(old(reader).schema_spec(), old(reader).cells_spec()),
        r is Ok ==> final(writer).cells() == converted_partition(
            old(reader).schema_spec(),
            old(reader).cells_spec(),
        ) && final(writer).write_log() == row_major_log(
            old(writer).nrows_spec(),
            old(writer).schema_spec().len() as int,
        ),
        r matches Err(e) ==> first_error_in(
            old(reader).schema_spec(),
            old(reader).cells_spec(),
            partition,
            e,
        ),
{
    let nrows = writer.nrows();
    let ncols = writer.ncols();
    let ghost src_schema = reader.schema_spec();
    let ghost src_cells = reader.cells_spec();
    let ghost w0 = *writer;
    proof {
        reader.lemma_shape();
        writer.lemma_shape();
    }
    let mut row: usize = 0;
    while row < nrows
        invariant
            row <= nrows,
            w0 == *old(writer),
            src_schema == old(reader).schema_spec(),
            src_cells == old(reader).cells_spec(),
            reader.pos_spec() >= 0,
            reader.wf(),
            writer.wf(),
            reader.schema_spec() == src_schema,
            reader.cells_spec() == src_cells,
            reader.nrows_spec() == nrows,
            writer.nrows_spec() == nrows,
            nrows == w0.nrows_spec(),
            writer.schema_spec() == w0.schema_spec(),
            writer.offset_spec() == w0.offset_spec(),
            ncols == writer.schema_spec().len(),
            ncols == src_schema.len(),
            src_cells.len() == nrows * ncols,
            writer.cells().len() == src_cells.len(),
            forall|c: int|
                0 <= c < src_schema.len() ==> w0.schema_spec()[c]
                    == MysqlPandasTransport::route_spec(#[trigger] src_schema[c]).0,
            reader.pos_spec() == row * ncols,
            forall|j: int|
                0 <= j < row * ncols ==> convert_defined(
                    src_schema[j % ncols as int],
                    #[trigger] src_cells[j],
                ) && writer.cells()[j] == convert_spec(src_schema[j % ncols as int], src_cells[j]),
            writer.write_log() == Seq::new((row * ncols) as nat, |i: int| (i / (ncols as int), i % (ncols as int))),
        decreases nrows - row,
    {
        let mut col: usize = 0;
        while col < ncols
            invariant
                col <= ncols,
                row < nrows,
                w0 == *old(writer),
                src_schema == old(reader).schema_spec(),
                src_cells == old(reader).cells_spec(),
                reader.wf(),
                writer.wf(),
                reader.schema_spec() == src_schema,
                reader.cells_spec() == src_cells,
                reader.nrows_spec() == nrows,
                writer.nrows_spec() == nrows,
                nrows == w0.nrows_spec(),
                writer.schema_spec() == w0.schema_spec(),
                writer.offset_spec() == w0.offset_spec(),
                ncols == writer.schema_spec().len(),
                ncols == src_schema.len(),
                src_cells.len() == nrows * ncols,
                writer.cells().len() == src_cells.len(),
                forall|c: int|
                    0 <= c < src_schema.len() ==> w0.schema_spec()[c]
                        == MysqlPandasTransport::route_spec(#[trigger] src_schema[c]).0,
                reader.pos_spec() == row * ncols + col,
                forall|j: int|
                    0 <= j < row * ncols + col ==> convert_defined(
                        src_schema[j % ncols as int],
                        #[trigger] src_cells[j],
                    ) && writer.cells()[j] == convert_spec(
                        src_schema[j % ncols as int],
                        src_cells[j],
                    ),
                writer.write_log() == Seq::new(
                    (row * ncols + col) as nat,
                    |i: int| (i / (ncols as int), i % (ncols as int)),
                ),
            decreases ncols - col,
        {
            proof {
                crate::destination::lemma_row_index_in_bounds(
                    row as int,
                    col as int,
                    nrows as int,
                    ncols as int,
                );
                lemma_fundamental_div_mod_converse(
                    (row * ncols + col) as int,
                    ncols as int,
                    row as int,
                    col as int,
                );
            }
            let ghost i = reader.pos_spec();
            let v = reader.produce();
            let src = reader.schema_of_col(col);
            match convert(src, v) {
                Ok(out) => {
                    writer.consume(row, col, out);
                    proof {
                        assert(writer.write_log() =~= Seq::new(
                            (row * ncols + col + 1) as nat,
                            |i: int| (i / (ncols as int), i % (ncols as int)),
                        ));
                    }
                },
                Err(e) => {
                    let err = match e {
                        ConvertError::Overflow => ConnectorAgentError::ConversionOverflow {
                            partition,
                            row,
                            col,
                        },
                        ConvertError::Loss => ConnectorAgentError::ConversionLoss {
                            partition,
                            row,
                            col,
                        },
                    };
                    proof {
                        assert(!convert_defined(src_schema[i % ncols as int], src_cells[i]));
                        assert(err == conv_error_at(src_schema, src_cells, partition, i));
                        assert(first_error_in(src_schema, src_cells, partition, err));
                    }
                    return Err(err);
                },
            }
            col += 1;
        }
        proof {
            assert((row + 1) * ncols == row * ncols + ncols) by (nonlinear_arith);
        }
        row += 1;
    }
    proof {
        assert(reader.pos_spec() == src_cells.len());
        assert(writer.cells() =~= converted_partition(src_schema, src_cells));
        assert(writer.write_log() =~= row_major_log(nrows as int, ncols as int));
    }
    match reader.finish() {
        Ok(()) => Ok(()),
        Err(_) => {
            proof {
                assert(false);
            }
            Err(ConnectorAgentError::ProduceError { partition, row: 0, col: 0 })
        },
    }
}

/// Writers whose partitions converted cell for cell concatenate to the
/// converted image of the whole source.
proof fn lemma_concat_matches(
    schema: Seq<MysqlTypeSystem>,
    parts: Seq<Seq<Value>>,
    ws: Seq<PartitionWriter>,
)
    requires
        ws.len() == parts.len(),
        forall|k: int|
            0 <= k < ws.len() ==> (#[trigger] ws[k]).cells() == converted_partition(
                schema,
                parts[k],
            ),
    ensures
        concat_cells(ws) == concat_converted(schema, parts),
    decreases ws.len(),
{
    if ws.len() > 0 {
        lemma_concat_matches(schema, parts.drop_last(), ws.drop_last());
        assert(ws.last().cells() == converted_partition(schema, parts.last()));
    }
}

/// The dispatcher for one transfer.
pub struct Dispatcher;

impl Dispatcher {
    /// Runs the end-to-end transfer: probe, allocate, partition, dispatch
    /// one worker per partition, finalize. Succeeds exactly when the layout
    /// is supported, the partition counts sum to the plan's row budget, and
    /// every cell converts; the result is then the converted source,
    /// partitions concatenated in order. A conversion failure reports the
    /// first failing cell in partition order and produces nothing.
    ///
    /// The probe step picks the order itself: the first order that the
    /// plan and the destination share, preferring row-major — for this
    /// destination, which advertises row-major only, that is row-major
    /// exactly when the plan lists it. A plan without a common order fails
    /// with its leading order as the unsupported one.
    #[verifier::rlimit(100)]
    pub fn run(source: MemSource, plan_orders: &Vec<DataOrder>) -> (r: Result<
        Columns,
        ConnectorAgentError,
    >)
        requires
            source.wf(),
            plan_orders@.len() > 0,
        ensures
            !crate::data_order::order_supported(plan_orders@, DataOrder::RowMajor) ==> r
                == Result::<Columns, ConnectorAgentError>::Err(
                ConnectorAgentError::UnsupportedDataOrder(plan_orders@[0]),
            ),
            crate::data_order::order_supported(plan_orders@, DataOrder::RowMajor)
                && crate::destination::sum_counts(
                source.counts_spec(),
            ) != source.total_rows_spec() ==> (r matches Err(
                ConnectorAgentError::CountsMismatch { expected, got },
            ) && expected == source.total_rows_spec()),
            crate::data_order::order_supported(plan_orders@, DataOrder::RowMajor)
                && crate::destination::sum_counts(
                source.counts_spec(),
            ) == source.total_rows_spec() ==> {
                &&& (r is Ok <==> all_defined(source.schema_spec(), source.parts_spec()))
                &&& (r matches Ok(c) ==> {
                    &&& c.wf()
                    &&& c.nrows_spec() == source.total_rows_spec()
                    &&& c.ncols_spec() == source.schema_spec().len()
                    &&& c.cells_spec() == concat_converted(
                        source.schema_spec(),
                        source.parts_spec(),
                    )
                })
                &&& (r matches Err(e) ==> exists|k: int|
                    #![auto]
                    {
                        &&& 0 <= k < source.parts_spec().len()
                        &&& forall|k2: int|
                            0 <= k2 < k ==> partition_defined(
                                source.schema_spec(),
                                #[trigger] source.parts_spec()[k2],
                            )
                        &&& first_error_in(
                            source.schema_spec(),
                            source.parts_spec()[k],
                            k as usize,
                            e,
                        )
                    })
            },
    {
        let ghost src = source;
        proof {
            src.lemma_shape();
        }
        let dest_orders = Destination::data_orders();
        proof {
            assert(dest_orders@.len() == 1 && dest_orders@[0] == DataOrder::RowMajor);
            assert(crate::data_order::order_in_prefix(dest_orders@, DataOrder::RowMajor, 1));
            assert(crate::data_order::order_supported(dest_orders@, DataOrder::RowMajor));
            assert(!crate::data_order::order_supported(dest_orders@, DataOrder::ColumnMajor)) by {
                assert(forall|i: int|
                    0 <= i < dest_orders@.len() ==> dest_orders@[i] != DataOrder::ColumnMajor);
            }
        }
        let data_order = match crate::data_order::select_data_order(plan_orders, &dest_orders) {
            Some(o) => o,
            None => {
                return Err(ConnectorAgentError::UnsupportedDataOrder(plan_orders[0]));
            },
        };
        proof {
            assert(data_order == DataOrder::RowMajor);
            assert(crate::data_order::order_supported(plan_orders@, DataOrder::RowMajor));
        }
        let dest_schema = MysqlPandasTransport::route_schema(source.schema());
        let total = source.total_rows();
        let mut readers = source.into_partitions();
        let n = readers.len();

        let mut counts: Vec<usize> = Vec::new();
        let mut k: usize = 0;
        while k < n
            invariant
                k <= n,
                n == readers@.len(),
                counts@.len() == k,
                n == src.counts_spec().len(),
                forall|j: int|
                    0 <= j < n ==> (#[trigger] readers@[j]).nrows_spec() == src.counts_spec()[j],
                forall|j: int| 0 <= j < k ==> counts@[j] == src.counts_spec()[j],
            decreases n - k,
        {
            counts.push(readers[k].nrows());
            k += 1;
        }
        proof {
            assert(counts@ =~= src.counts_spec());
        }

        let mut destination = match Destination::allocate(total, dest_schema, data_order) {
            Ok(d) => d,
            Err(e) => {
                proof {
                    assert(false);
                }
                return Err(e);
            },
        };
        let mut writers = match destination.into_partitions(&counts) {
            Ok(ws) => ws,
            Err(e) => {
                return Err(e);
            },
        };

        let ghost all_readers = readers@;
        let ghost all_writers = writers@;
        proof {
            assert(all_readers.skip(0) =~= all_readers);
            assert(all_writers.skip(0) =~= all_writers);
        }
        let mut done: Vec<PartitionWriter> = Vec::new();
        let mut p: usize = 0;
        while p < n
            invariant
                p <= n,
                src == source,
                data_order == DataOrder::RowMajor,
                crate::data_order::order_supported(plan_orders@, DataOrder::RowMajor),
                crate::destination::sum_counts(src.counts_spec()) == src.total_rows_spec(),
                n == all_readers.len() == all_writers.len() == src.parts_spec().len()
                    == src.counts_spec().len(),
                readers@ =~= all_readers.skip(p as int),
                writers@ =~= all_writers.skip(p as int),
                done@.len() == p,
                destination.wf(),
                destination.state_spec() == crate::destination::DestState::Partitioned,
                destination.nrows_spec() == src.total_rows_spec(),
                destination.counts_spec() == src.counts_spec(),
                destination.schema_spec().len() == src.schema_spec().len(),
                forall|c: int|
                    0 <= c < src.schema_spec().len() ==> destination.schema_spec()[c]
                        == MysqlPandasTransport::route_spec(#[trigger] src.schema_spec()[c]).0,
                forall|j: int|
                    0 <= j < all_readers.len() ==> {
                        &&& (#[trigger] all_readers[j]).wf()
                        &&& all_readers[j].schema_spec() == src.schema_spec()
                        &&& all_readers[j].pos_spec() == 0
                        &&& all_readers[j].cells_spec() == src.parts_spec()[j]
                        &&& all_readers[j].nrows_spec() == src.counts_spec()[j]
                    },
                forall|j: int|
                    p <= j < all_writers.len() ==> {
                        &&& (#[trigger] all_writers[j]).wf()
                        &&& all_writers[j].schema_spec() == destination.schema_spec()
                        &&& all_writers[j].nrows_spec() == src.counts_spec()[j]
                        &&& all_writers[j].offset_spec() == crate::destination::prefix_sum(
                            src.counts_spec(),
                            j,
                        )
                        &&& all_writers[j].write_log() == Seq::<(int, int)>::empty()
                    },
                forall|j: int|
                    0 <= j < p ==> {
                        &&& (#[trigger] done@[j]).wf()
                        &&& done@[j].schema_spec() == destination.schema_spec()
                        &&& done@[j].nrows_spec() == src.counts_spec()[j]
                        &&& done@[j].offset_spec() == crate::destination::prefix_sum(
                            src.counts_spec(),
                            j,
                        )
                        &&& done@[j].cells() == converted_partition(
                            src.schema_spec(),
                            src.parts_spec()[j],
                        )
                        &&& partition_defined(src.schema_spec(), src.parts_spec()[j])
                    },
            decreases n - p,
        {
            let mut reader = readers.remove(0);
            let mut writer = writers.remove(0);
            proof {
                assert(all_readers.skip(p as int)[0] == all_readers[p as int]);
                assert(all_readers.skip(p as int).remove(0) =~= all_readers.skip(p + 1));
                assert(all_writers.skip(p as int)[0] == all_writers[p as int]);
                assert(all_writers.skip(p as int).remove(0) =~= all_writers.skip(p + 1));
            }
            match worker(&mut reader, &mut writer, p) {
                Ok(()) => {
                    proof {
                        assert(writer.cells() == converted_partition(
                            src.schema_spec(),
                            src.parts_spec()[p as int],
                        ));
                        assert(partition_defined(src.schema_spec(), src.parts_spec()[p as int]));
                        assert(writer.schema_spec() == destination.schema_spec());
                        assert(writer.nrows_spec() == src.counts_spec()[p as int]);
                        assert(writer.offset_spec() == crate::destination::prefix_sum(
                            src.counts_spec(),
                            p as int,
                        ));
                    }
                    let ghost pre_done = done@;
                    done.push(writer);
                    proof {
                        assert forall|j: int| 0 <= j < p + 1 implies {
                            &&& (#[trigger] done@[j]).wf()
                            &&& done@[j].schema_spec() == destination.schema_spec()
                            &&& done@[j].nrows_spec() == src.counts_spec()[j]
                            &&& done@[j].offset_spec() == crate::destination::prefix_sum(
                                src.counts_spec(),
                                j,
                            )
                            &&& done@[j].cells() == converted_partition(
                                src.schema_spec(),
                                src.parts_spec()[j],
                            )
                            &&& partition_defined(src.schema_spec(), src.parts_spec()[j])
                        } by {
                            if j < p {
                                assert(done@[j] == pre_done[j]);
                                assert(pre_done[j].wf());
                            } else {
                                assert(done@[j] == writer);
                            }
                        }
                    }
                },
                Err(e) => {
                    proof {
                        assert(all_readers[p as int].schema_spec() == src.schema_spec());
                        assert(all_readers[p as int].cells_spec() == src.parts_spec()[p as int]);
                        assert(first_error_in(
                            src.schema_spec(),
                            src.parts_spec()[p as int],
                            p,
                            e,
                        ));
                        assert(!partition_defined(src.schema_spec(), src.parts_spec()[p as int]));
                        assert(exists|k: int|
                            #![auto]
                            {
                                &&& 0 <= k < src.parts_spec().len()
                                &&& forall|k2: int|
                                    0 <= k2 < k ==> partition_defined(
                                        src.schema_spec(),
                                        #[trigger] src.parts_spec()[k2],
                                    )
                                &&& first_error_in(
                                    src.schema_spec(),
                                    src.parts_spec()[k],
                                    k as usize,
                                    e,
                                )
                            }) by {
                            let k = p as int;
                            assert(src.parts_spec()[k] == src.parts_spec()[p as int]);
                            assert(k as usize == p);
                            assert(first_error_in(
                                src.schema_spec(),
                                src.parts_spec()[k],
                                k as usize,
                                e,
                            ));
                            assert forall|k2: int| 0 <= k2 < k implies partition_defined(
                                src.schema_spec(),
                                #[trigger] src.parts_spec()[k2],
                            ) by {
                                assert(done@[k2].wf());
                            }
                        }
                    }
                    return Err(e);
                },
            }
            p += 1;
        }

        let ghost done_view = done@;
        proof {
            assert forall|k2: int| 0 <= k2 < src.parts_spec().len() implies partition_defined(
                src.schema_spec(),
                #[trigger] src.parts_spec()[k2],
            ) by {
                assert(done@[k2].wf());
            }
            assert(all_defined(src.schema_spec(), src.parts_spec()));
        }
        match destination.finalize(done) {
            Ok(c) => {
                proof {
                    lemma_concat_matches(src.schema_spec(), src.parts_spec(), done_view);
                }
                Ok(c)
            },
            Err(_) => {
                proof {
                    assert(false);
                }
                Err(ConnectorAgentError::NotFinalized)
            },
        }
    }
}

/// Round trip: on a schema whose every transport entry has the identity
/// conversion class, every cell converts and the transfer's result — the
/// partitions' converted cells concatenated in order — equals the source's
/// own cells, row-major, partitions concatenated in order.
pub proof fn lemma_round_trip(schema: Seq<MysqlTypeSystem>, parts: Seq<Seq<Value>>)
    requires
        forall|c: int|
            0 <= c < schema.len() ==> MysqlPandasTransport::route_spec(#[trigger] schema[c]).1
                == ConversionClass::All,
        schema.len() == 0 ==> forall|k: int| 0 <= k < parts.len() ==> (#[trigger] parts[k]).len()
            == 0,
    ensures
        all_defined(schema, parts),
        concat_converted(schema, parts) == concat_parts(parts),
    decreases parts.len(),
{
    assert forall|k: int| 0 <= k < parts.len() implies partition_defined(
        schema,
        #[trigger] parts[k],
    ) by {
        assert forall|i: int| 0 <= i < parts[k].len() implies convert_defined(
            schema[i % schema.len() as int],
            #[trigger] parts[k][i],
        ) by {
            assert(schema.len() > 0);
            vstd::arithmetic::div_mod::lemma_mod_bound(i, schema.len() as int);
            let c = i % schema.len() as int;
            lemma_identity_entry(schema[c], parts[k][i]);
        }
    }
    if parts.len() > 0 {
        lemma_round_trip(schema, parts.drop_last());
        assert forall|i: int| 0 <= i < parts.last().len() implies convert_spec(
            schema[i % schema.len() as int],
            #[trigger] parts.last()[i],
        ) == parts.last()[i] by {
            assert(schema.len() > 0);
            vstd::arithmetic::div_mod::lemma_mod_bound(i, schema.len() as int);
            let c = i % schema.len() as int;
            lemma_identity_entry(schema[c], parts.last()[i]);
        }
        assert(converted_partition(schema, parts.last()) =~= parts.last());
    }
}

/// An identity-class entry moves the cell unchanged, and never fails.
pub proof fn lemma_identity_entry(src: MysqlTypeSystem, v: Value)
    requires
        MysqlPandasTransport::route_spec(src).1 == ConversionClass::All,
    ensures
        convert_defined(src, v),
        convert_spec(src, v) == v,
{
}

/// Ordering within a partition: the write log a worker produces visits
/// `(row, col)` pairs in strictly increasing lexicographic order.
pub proof fn lemma_write_order_lexicographic(nrows: int, ncols: int)
    requires
        0 < ncols,
        0 <= nrows,
    ensures
        forall|a: int, b: int|
            0 <= a < b < row_major_log(nrows, ncols).len() ==> {
                let wa = #[trigger] row_major_log(nrows, ncols)[a];
                let wb = #[trigger] row_major_log(nrows, ncols)[b];
                wa.0 < wb.0 || (wa.0 == wb.0 && wa.1 < wb.1)
            },
{
    assert forall|a: int, b: int|
        0 <= a < b < row_major_log(nrows, ncols).len() implies {
        let wa = #[trigger] row_major_log(nrows, ncols)[a];
        let wb = #[trigger] row_major_log(nrows, ncols)[b];
        wa.0 < wb.0 || (wa.0 == wb.0 && wa.1 < wb.1)
    } by {
        lemma_div_is_ordered(a, b, ncols);
        lemma_fundamental_div_mod(a, ncols);
        lemma_fundamental_div_mod(b, ncols);
        vstd::arithmetic::div_mod::lemma_mod_bound(a, ncols);
        vstd::arithmetic::div_mod::lemma_mod_bound(b, ncols);
        if a / ncols == b / ncols {
            assert(a == ncols * (a / ncols) + a % ncols);
            assert(b == ncols * (b / ncols) + b % ncols);
            assert(a % ncols < b % ncols);
        }
    }
}

} // verus!
