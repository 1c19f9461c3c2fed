//! A columnar destination with pre-allocated storage and partitioned writers.
//!
//! The destination is created by `allocate`, split into partition writers by
//! `into_partitions`, and read back by `finalize` once every writer has been
//! handed back. Each partition writer owns the storage of one exclusive,
//! contiguous row range; `finalize` concatenates the ranges in partition
//! order, so the merged result does not depend on the order in which workers
//! ran.

use vstd::prelude::*;
use vstd::arithmetic::div_mod::lemma_fundamental_div_mod_converse;
use crate::data_order::DataOrder;
use crate::errors::ConnectorAgentError;
use crate::typesystem::DataType;
use crate::value::{is_default_cell, Value};

verus! {

/// The sum of a vector of partition row counts.
pub open spec fn sum_counts(counts: Seq<usize>) -> int
    decreases counts.len(),
{
    if counts.len() == 0 {
        0
    } else {
        sum_counts(counts.drop_last()) + counts.last()
    }
}

/// The sum of the first `k` partition row counts: the global row offset of
/// partition `k`.
pub open spec fn prefix_sum(counts: Seq<usize>, k: int) -> int {
    sum_counts(counts.take(k))
}

/// Every cell of a row-major buffer carries the physical type of its column
/// and is well-formed.
pub open spec fn row_major_typed(cells: Seq<Value>, schema: Seq<DataType>) -> bool {
    forall|i: int|
        0 <= i < cells.len() ==> (#[trigger] cells[i]).physical_spec() == schema[i % schema.len(
        ) as int].associate_spec() && cells[i].wf()
}

/// Every cell of a row-major buffer is the default cell of its column's
/// physical type: the state of freshly allocated, unwritten storage.
pub open spec fn row_major_default(cells: Seq<Value>, schema: Seq<DataType>) -> bool {
    forall|i: int|
        0 <= i < cells.len() ==> is_default_cell(
            #[trigger] cells[i],
            schema[i % schema.len() as int].associate_spec(),
        )
}

/// The lifecycle of a destination: storage is fixed at allocation, split
/// into writers once, and readable only after finalization.
#[derive(Clone, Copy, Debug, PartialEq, Eq, Structural)]
pub enum DestState {
    Allocated,
    Partitioned,
    Finalized,
}

/// The writable half of one partition: an exclusive, contiguous row range
/// `[offset, offset + nrows)` of the destination, with its own storage.
pub struct PartitionWriter {
    schema: Vec<DataType>,
    nrows: usize,
    offset: usize,
    buffer: Vec<Value>,
    writes: Ghost<Seq<(int, int)>>,
}

impl PartitionWriter {
    pub closed spec fn wf(self) -> bool {
        self.buffer@.len() == self.nrows * self.schema@.len() && row_major_typed(
            self.buffer@,
            self.schema@,
        )
    }

    pub closed spec fn schema_spec(self) -> Seq<DataType> {
        self.schema@
    }

    pub closed spec fn nrows_spec(self) -> int {
        self.nrows as int
    }

    pub closed spec fn offset_spec(self) -> int {
        self.offset as int
    }

    /// The row-major contents of this partition's storage.
    pub closed spec fn cells(self) -> Seq<Value> {
        self.buffer@
    }

    /// The log of `(row, col)` coordinates written so far, in write order.
    pub closed spec fn write_log(self) -> Seq<(int, int)> {
        self.writes@
    }

    /// The shape facts a well-formed writer guarantees its callers.
    pub proof fn lemma_shape(self)
        requires
            self.wf(),
        ensures
            self.cells().len() == self.nrows_spec() * self.schema_spec().len(),
            row_major_typed(self.cells(), self.schema_spec()),
    {
    }

    pub fn nrows(&self) -> (r: usize)
        ensures
            r == self.nrows_spec(),
    {
        self.nrows
    }

    pub fn ncols(&self) -> (r: usize)
        ensures
            r == self.schema_spec().len(),
    {
        self.schema.len()
    }

    /// The unchecked cell write of the hot loop: the caller asserts that
    /// `value` carries the physical type of `schema[col]`. The dispatcher
    /// discharges that obligation once per transport entry, not per cell.
    pub fn consume(&mut self, row: usize, col: usize, value: Value)
        requires
            old(self).wf(),
            row < old(self).nrows_spec(),
            col < old(self).schema_spec().len(),
            value.physical_spec() == old(self).schema_spec()[col as int].associate_spec(),
            value.wf(),
        ensures
            final(self).wf(),
            final(self).schema_spec() == old(self).schema_spec(),
            final(self).nrows_spec() == old(self).nrows_spec(),
            final(self).offset_spec() == old(self).offset_spec(),
            final(self).cells() == old(self).cells().update(
                row * old(self).schema_spec().len() + col,
                value,
            ),
            final(self).write_log() == old(self).write_log().push((row as int, col as int)),
    {
        let ncols = self.schema.len();
        let _buflen = self.buffer.len();
        proof {
            lemma_row_index_in_bounds(row as int, col as int, self.nrows as int, ncols as int);
        }
        let idx = row * ncols + col;
        proof {
            lemma_fundamental_div_mod_converse(idx as int, ncols as int, row as int, col as int);
        }
        self.buffer.set(idx, value);
        proof {
            self.writes@ = self.writes@.push((row as int, col as int));
        }
    }

    /// The checked cell write of component edges: succeeds exactly when the
    /// value's physical type is the representation of `schema[col]`.
    pub fn consume_checked(&mut self, row: usize, col: usize, value: Value) -> (r: Result<
        (),
        ConnectorAgentError,
    >)
        requires
            old(self).wf(),
            row < old(self).nrows_spec(),
            col < old(self).schema_spec().len(),
            value.wf(),
        ensures
            final(self).wf(),
            final(self).schema_spec() == old(self).schema_spec(),
            final(self).nrows_spec() == old(self).nrows_spec(),
            final(self).offset_spec() == old(self).offset_spec(),
            r is Ok <==> value.physical_spec() == old(self).schema_spec()[
                col as int
            ].associate_spec(),
            r is Ok ==> final(self).cells() == old(self).cells().update(
                row * old(self).schema_spec().len() + col,
                value,
            ) && final(self).write_log() == old(self).write_log().push(
                (row as int, col as int),
            ),
            r is Err ==> *final(self) == *old(self) && r == Result::<(), ConnectorAgentError>::Err(
                ConnectorAgentError::TypeMismatch {
                    expected: old(self).schema_spec()[col as int].associate_spec(),
                    found: value.physical_spec(),
                },
            ),
    {
        let claimed = value.physical();
        match self.schema[col].check(claimed) {
            Ok(()) => {
                self.consume(row, col, value);
                Ok(())
            },
            Err(e) => Err(e),
        }
    }
}

/// The read-only columnar result of a finished transfer: `nrows * ncols`
/// cells in row-major order.
#[derive(Debug)]
pub struct Columns {
    nrows: usize,
    ncols: usize,
    cells: Vec<Value>,
}

impl Columns {
    pub closed spec fn wf(self) -> bool {
        self.cells@.len() == self.nrows * self.ncols
    }

    pub closed spec fn nrows_spec(self) -> int {
        self.nrows as int
    }

    pub closed spec fn ncols_spec(self) -> int {
        self.ncols as int
    }

    /// The row-major flattening of the result.
    pub closed spec fn cells_spec(self) -> Seq<Value> {
        self.cells@
    }

    pub fn nrows(&self) -> (r: usize)
        ensures
            r == self.nrows_spec(),
    {
        self.nrows
    }

    pub fn ncols(&self) -> (r: usize)
        ensures
            r == self.ncols_spec(),
    {
        self.ncols
    }

    pub fn cell(&self, row: usize, col: usize) -> (r: &Value)
        requires
            self.wf(),
            row < self.nrows_spec(),
            col < self.ncols_spec(),
        ensures
            *r == self.cells_spec()[row * self.ncols_spec() + col],
    {
        let _len = self.cells.len();
        proof {
            lemma_row_index_in_bounds(row as int, col as int, self.nrows as int, self.ncols as int);
        }
        &self.cells[row * self.ncols + col]
    }
}

/// A columnar destination for heterogeneous cell values. It advertises
/// row-major order only.
pub struct Destination {
    nrows: usize,
    schema: Vec<DataType>,
    counts: Vec<usize>,
    state: DestState,
}

impl Destination {
    /// The orders this destination supports, most preferred first.
    pub fn data_orders() -> (r: Vec<DataOrder>)
        ensures
            r@ =~= seq![DataOrder::RowMajor],
    {
        let mut v: Vec<DataOrder> = Vec::new();
        v.push(DataOrder::RowMajor);
        v
    }

    pub closed spec fn nrows_spec(self) -> int {
        self.nrows as int
    }

    pub closed spec fn schema_spec(self) -> Seq<DataType> {
        self.schema@
    }

    pub closed spec fn counts_spec(self) -> Seq<usize> {
        self.counts@
    }

    pub closed spec fn state_spec(self) -> DestState {
        self.state
    }

    /// Once partitioned, the recorded counts sum to the row budget.
    pub closed spec fn wf(self) -> bool {
        self.state != DestState::Allocated ==> sum_counts(self.counts@) == self.nrows
    }

    /// Fixes the row budget and the schema, and pre-allocation succeeds only
    /// for a supported data order.
    pub fn allocate(nrows: usize, schema: Vec<DataType>, data_order: DataOrder) -> (r: Result<
        Destination,
        ConnectorAgentError,
    >)
        ensures
            r is Ok <==> data_order == DataOrder::RowMajor,
            r is Err ==> r == Result::<Destination, ConnectorAgentError>::Err(
                ConnectorAgentError::UnsupportedDataOrder(data_order),
            ),
            r is Ok ==> r->Ok_0.nrows_spec() == nrows && r->Ok_0.schema_spec() == schema@
                && r->Ok_0.state_spec() == DestState::Allocated && r->Ok_0.wf(),
    {
        if !matches!(data_order, DataOrder::RowMajor) {
            return Err(ConnectorAgentError::UnsupportedDataOrder(data_order));
        }
        Ok(Destination { nrows, schema, counts: Vec::new(), state: DestState::Allocated })
    }

    /// Splits the destination into one writer per partition. Writer `k` owns
    /// rows `[prefix_sum(counts, k), prefix_sum(counts, k + 1))`; the split
    /// fails exactly when the counts do not sum to the row budget.
    pub fn into_partitions(&mut self, counts: &Vec<usize>) -> (r: Result<
        Vec<PartitionWriter>,
        ConnectorAgentError,
    >)
        requires
            old(self).state_spec() == DestState::Allocated,
        ensures
            final(self).wf(),
            r is Ok <==> sum_counts(counts@) == old(self).nrows_spec(),
            r is Err ==> *final(self) == *old(self) && (r matches Err(
                ConnectorAgentError::CountsMismatch { expected, got },
            ) && expected == old(self).nrows_spec() && (sum_counts(counts@) <= usize::MAX
                ==> got == sum_counts(counts@))),
            r is Ok ==> ({
                let ws = r->Ok_0;
                &&& final(self).state_spec() == DestState::Partitioned
                &&& final(self).nrows_spec() == old(self).nrows_spec()
                &&& final(self).schema_spec() == old(self).schema_spec()
                &&& final(self).counts_spec() == counts@
                &&& ws@.len() == counts@.len()
                &&& forall|k: int|
                    0 <= k < ws@.len() ==> {
                        &&& (#[trigger] ws@[k]).wf()
                        &&& ws@[k].schema_spec() == old(self).schema_spec()
                        &&& ws@[k].nrows_spec() == counts@[k]
                        &&& ws@[k].offset_spec() == prefix_sum(counts@, k)
                        &&& ws@[k].write_log() == Seq::<(int, int)>::empty()
                        &&& ws@[k].cells().len() == counts@[k] * old(self).schema_spec().len()
                        &&& row_major_default(ws@[k].cells(), old(self).schema_spec())
                    }
            }),
    {
        let ncols = self.schema.len();
        let mut total: usize = 0;
        let mut i: usize = 0;
        while i < counts.len()
            invariant
                i <= counts.len(),
                total == sum_counts(counts@.take(i as int)),
                *self == *old(self),
                self.state == DestState::Allocated,
            decreases counts.len() - i,
        {
            let c = counts[i];
            proof {
                assert(counts@.take(i + 1).drop_last() =~= counts@.take(i as int));
            }
            match total.checked_add(c) {
                Some(t) => total = t,
                None => {
                    proof {
                        assert(counts@.take(i + 1).last() == counts@[i as int]);
                        assert(sum_counts(counts@.take(i + 1)) == total + c);
                        lemma_prefix_sum_bounded(counts@, i + 1);
                        assert(sum_counts(counts@) > usize::MAX);
                    }
                    return Err(
                        ConnectorAgentError::CountsMismatch { expected: self.nrows, got: 0 },
                    );
                },
            }
            i += 1;
        }
        proof {
            assert(counts@.take(counts@.len() as int) =~= counts@);
        }
        if total != self.nrows {
            return Err(ConnectorAgentError::CountsMismatch { expected: self.nrows, got: total });
        }

        let mut writers: Vec<PartitionWriter> = Vec::new();
        let mut offset: usize = 0;
        let mut k: usize = 0;
        while k < counts.len()
            invariant
                k <= counts.len(),
                offset == prefix_sum(counts@, k as int),
                offset <= self.nrows,
                sum_counts(counts@) == self.nrows,
                ncols == self.schema@.len(),
                writers@.len() == k,
                forall|j: int|
                    0 <= j < k ==> {
                        &&& (#[trigger] writers@[j]).wf()
                        &&& writers@[j].schema_spec() == self.schema@
                        &&& writers@[j].nrows_spec() == counts@[j]
                        &&& writers@[j].offset_spec() == prefix_sum(counts@, j)
                        &&& writers@[j].write_log() == Seq::<(int, int)>::empty()
                        &&& writers@[j].cells().len() == counts@[j] * self.schema@.len()
                        &&& row_major_default(writers@[j].cells(), self.schema@)
                    },
            decreases counts.len() - k,
        {
            let count = counts[k];
            let mut buffer: Vec<Value> = Vec::new();
            let mut row: usize = 0;
            while row < count
                invariant
                    row <= count,
                    ncols == self.schema@.len(),
                    buffer@.len() == row * ncols,
                    row_major_typed(buffer@, self.schema@),
                    row_major_default(buffer@, self.schema@),
                decreases count - row,
            {
                let mut col: usize = 0;
                while col < ncols
                    invariant
                        col <= ncols,
                        ncols == self.schema@.len(),
                        buffer@.len() == row * ncols + col,
                        row < count,
                        row_major_typed(buffer@, self.schema@),
                        row_major_default(buffer@, self.schema@),
                    decreases ncols - col,
                {
                    let ghost oldbuf = buffer@;
                    buffer.push(Value::default_of(self.schema[col].associate()));
                    proof {
                        lemma_fundamental_div_mod_converse(
                            oldbuf.len() as int,
                            ncols as int,
                            row as int,
                            col as int,
                        );
                        assert(forall|i: int|
                            0 <= i < oldbuf.len() ==> buffer@[i] == oldbuf[i]);
                    }
                    col += 1;
                }
                proof {
                    assert((row + 1) * ncols == row * ncols + ncols) by (nonlinear_arith);
                }
                row += 1;
            }
            let mut schema_copy: Vec<DataType> = Vec::new();
            let mut s: usize = 0;
            while s < ncols
                invariant
                    s <= ncols,
                    ncols == self.schema@.len(),
                    schema_copy@ =~= self.schema@.take(s as int),
                decreases ncols - s,
            {
                schema_copy.push(self.schema[s]);
                s += 1;
            }
            proof {
                assert(schema_copy@ =~= self.schema@);
                lemma_prefix_sum_step(counts@, k as int);
                lemma_prefix_sum_bounded(counts@, k + 1);
            }
            writers.push(
                PartitionWriter {
                    schema: schema_copy,
                    nrows: count,
                    offset,
                    buffer,
                    writes: Ghost(Seq::empty()),
                },
            );
            offset = offset + count;
            k += 1;
        }
        self.counts = counts.clone();
        self.state = DestState::Partitioned;
        Ok(writers)
    }
}

/// The handed-back writers are exactly the ones this destination produced:
/// one per partition, in partition order, each still on its row range and on
/// the shared schema.
pub open spec fn writers_fit(
    ws: Seq<PartitionWriter>,
    counts: Seq<usize>,
    schema: Seq<DataType>,
) -> bool {
    ws.len() == counts.len() && forall|k: int|
        0 <= k < ws.len() ==> {
            &&& (#[trigger] ws[k]).nrows_spec() == counts[k]
            &&& ws[k].offset_spec() == prefix_sum(counts, k)
            &&& ws[k].schema_spec() == schema
        }
}

/// The row-major flattening of the partitions' storage, in partition order.
pub open spec fn concat_cells(ws: Seq<PartitionWriter>) -> Seq<Value>
    decreases ws.len(),
{
    if ws.len() == 0 {
        Seq::empty()
    } else {
        concat_cells(ws.drop_last()) + ws.last().cells()
    }
}

impl Destination {
    /// The destination's transition from writable to read-only. Succeeds
    /// exactly when the destination was partitioned and every partition
    /// writer was handed back in place; a second finalization fails with
    /// `AlreadyFinalized`.
    pub fn finalize(&mut self, writers: Vec<PartitionWriter>) -> (r: Result<
        Columns,
        ConnectorAgentError,
    >)
        requires
            old(self).wf(),
            forall|k: int| 0 <= k < writers@.len() ==> (#[trigger] writers@[k]).wf(),
        ensures
            final(self).wf(),
            r is Ok <==> (old(self).state_spec() == DestState::Partitioned && writers_fit(
                writers@,
                old(self).counts_spec(),
                old(self).schema_spec(),
            )),
            old(self).state_spec() == DestState::Finalized ==> *final(self) == *old(self) && r
                == Result::<Columns, ConnectorAgentError>::Err(
                ConnectorAgentError::AlreadyFinalized,
            ),
            r is Err && old(self).state_spec() != DestState::Finalized ==> *final(self) == *old(
                self,
            ) && r == Result::<Columns, ConnectorAgentError>::Err(
                ConnectorAgentError::NotFinalized,
            ),
            r is Ok ==> ({
                let c = r->Ok_0;
                &&& final(self).state_spec() == DestState::Finalized
                &&& final(self).nrows_spec() == old(self).nrows_spec()
                &&& final(self).schema_spec() == old(self).schema_spec()
                &&& final(self).counts_spec() == old(self).counts_spec()
                &&& c.wf()
                &&& c.nrows_spec() == old(self).nrows_spec()
                &&& c.ncols_spec() == old(self).schema_spec().len()
                &&& c.cells_spec() == concat_cells(writers@)
            }),
    {
        match self.state {
            DestState::Finalized => {
                return Err(ConnectorAgentError::AlreadyFinalized);
            },
            DestState::Allocated => {
                return Err(ConnectorAgentError::NotFinalized);
            },
            DestState::Partitioned => {},
        }
        let ncols = self.schema.len();
        if writers.len() != self.counts.len() {
            return Err(ConnectorAgentError::NotFinalized);
        }

        let mut cells: Vec<Value> = Vec::new();
        let mut rest = writers;
        let ghost all = rest@;
        let mut k: usize = 0;
        let n = rest.len();
        let mut offset: usize = 0;
        while k < n
            invariant
                k <= n,
                all == writers@,
                n == all.len() == self.counts@.len(),
                rest@ =~= all.skip(k as int),
                ncols == self.schema@.len(),
                offset == prefix_sum(self.counts@, k as int),
                offset <= self.nrows,
                sum_counts(self.counts@) == self.nrows,
                cells@ == concat_cells(all.take(k as int)),
                cells@.len() == prefix_sum(self.counts@, k as int) * ncols,
                forall|j: int| 0 <= j < all.len() ==> (#[trigger] all[j]).wf(),
                forall|j: int|
                    0 <= j < k ==> {
                        &&& (#[trigger] all[j]).nrows_spec() == self.counts@[j]
                        &&& all[j].offset_spec() == prefix_sum(self.counts@, j)
                        &&& all[j].schema_spec() == self.schema@
                    },
                *self == *old(self),
                self.state == DestState::Partitioned,
            decreases n - k,
        {
            let mut w = rest.remove(0);
            proof {
                assert(all.skip(k as int)[0] == all[k as int]);
                assert(all.skip(k as int).remove(0) =~= all.skip(k + 1));
            }
            let fits = w.nrows == self.counts[k] && w.offset == offset && schemas_equal(
                &w.schema,
                &self.schema,
            );
            if !fits {
                proof {
                    assert(w == all[k as int]);
                    assert(!writers_fit(all, self.counts@, self.schema@)) by {
                        if writers_fit(all, self.counts@, self.schema@) {
                            assert(all[k as int].nrows_spec() == self.counts@[k as int]);
                            assert(all[k as int].offset_spec() == prefix_sum(
                                self.counts@,
                                k as int,
                            ));
                            assert(all[k as int].schema_spec() == self.schema@);
                        }
                    }
                }
                return Err(ConnectorAgentError::NotFinalized);
            }
            proof {
                lemma_prefix_sum_step(self.counts@, k as int);
                lemma_prefix_sum_bounded(self.counts@, k + 1);
                assert(sum_counts(self.counts@) * ncols >= prefix_sum(self.counts@, k + 1)
                    * ncols >= 0) by (nonlinear_arith)
                    requires
                        prefix_sum(self.counts@, k + 1) <= sum_counts(self.counts@),
                        0 <= prefix_sum(self.counts@, k + 1),
                        ncols >= 0,
                ;
            }
            let ghost pre = cells@;
            cells.append(&mut w.buffer);
            proof {
                assert(all.take(k + 1).drop_last() =~= all.take(k as int));
                assert(all.take(k + 1).last() == all[k as int]);
                assert(cells@ == concat_cells(all.take(k + 1)));
                assert((prefix_sum(self.counts@, k as int) + self.counts@[k as int] as int) * ncols
                    == prefix_sum(self.counts@, k as int) * ncols + self.counts@[k as int] * ncols)
                    by (nonlinear_arith);
            }
            offset = offset + w.nrows;
            k += 1;
        }
        proof {
            assert(all.take(n as int) =~= all);
            assert(self.counts@.take(n as int) =~= self.counts@);
            assert(writers_fit(all, self.counts@, self.schema@));
        }
        let total = self.nrows;
        proof {
            assert(cells@.len() == self.nrows * ncols);
        }
        self.state = DestState::Finalized;
        Ok(Columns { nrows: total, ncols, cells })
    }
}

/// Element-wise comparison of two schemas.
pub fn schemas_equal(a: &Vec<DataType>, b: &Vec<DataType>) -> (r: bool)
    ensures
        r <==> a@ =~= b@,
{
    if a.len() != b.len() {
        return false;
    }
    let mut i: usize = 0;
    while i < a.len()
        invariant
            i <= a.len(),
            a@.len() == b@.len(),
            forall|j: int| 0 <= j < i ==> a@[j] == b@[j],
        decreases a.len() - i,
    {
        if a[i] != b[i] {
            return false;
        }
        i += 1;
    }
    true
}

/// Prefix sums grow monotonically with the number of partitions taken.
pub proof fn lemma_prefix_sum_monotone(counts: Seq<usize>, a: int, b: int)
    requires
        0 <= a <= b <= counts.len(),
    ensures
        prefix_sum(counts, a) <= prefix_sum(counts, b),
    decreases b - a,
{
    if a < b {
        lemma_prefix_sum_monotone(counts, a, b - 1);
        lemma_prefix_sum_step(counts, b - 1);
    }
}

/// Partition disjointness, first half: two distinct partitions own disjoint
/// global row ranges, because the earlier partition's range ends no later
/// than where the later one begins. A cell `(row, col)` is written by
/// partition `k` only for `row` in `[prefix_sum(counts, k),
/// prefix_sum(counts, k) + counts[k])`, so the written cell sets of two
/// workers never meet.
pub proof fn lemma_partition_rows_disjoint(counts: Seq<usize>, i: int, j: int)
    requires
        0 <= i < j < counts.len(),
    ensures
        prefix_sum(counts, i) + counts[i] <= prefix_sum(counts, j),
{
    lemma_prefix_sum_step(counts, i);
    lemma_prefix_sum_monotone(counts, i + 1, j);
}

/// Partition disjointness, second half: the row ranges together cover every
/// global row, so the union of the workers' written cell sets is the whole
/// destination rectangle.
pub proof fn lemma_partition_rows_cover(counts: Seq<usize>, row: int)
    requires
        0 <= row < sum_counts(counts),
    ensures
        exists|k: int|
            0 <= k < counts.len() && #[trigger] prefix_sum(counts, k) <= row < prefix_sum(
                counts,
                k,
            ) + counts[k],
    decreases counts.len(),
{
    assert(counts.len() > 0);
    let last = counts.len() - 1;
    lemma_prefix_sum_step(counts, last);
    assert(counts.take(counts.len() as int) =~= counts);
    assert(prefix_sum(counts, last) + counts[last] == sum_counts(counts));
    assert(counts.take(last) =~= counts.drop_last());
    if row >= prefix_sum(counts, last) {
        assert(prefix_sum(counts, last) <= row < prefix_sum(counts, last) + counts[last]);
    } else {
        lemma_partition_rows_cover(counts.drop_last(), row);
        let k = choose|k: int|
            0 <= k < counts.drop_last().len() && #[trigger] prefix_sum(counts.drop_last(), k)
                <= row < prefix_sum(counts.drop_last(), k) + counts.drop_last()[k];
        assert(counts.drop_last().take(k) =~= counts.take(k));
        assert(counts.drop_last().take(k + 1) =~= counts.take(k + 1));
        lemma_prefix_sum_step(counts, k);
        lemma_prefix_sum_step(counts.drop_last(), k);
        assert(prefix_sum(counts, k) <= row < prefix_sum(counts, k) + counts[k]);
    }
}

/// Every prefix sum of non-negative counts is at most the full sum.
pub proof fn lemma_prefix_sum_bounded(counts: Seq<usize>, k: int)
    requires
        0 <= k <= counts.len(),
    ensures
        prefix_sum(counts, k) <= sum_counts(counts),
    decreases counts.len() - k,
{
    if k == counts.len() {
        assert(counts.take(k) =~= counts);
    } else {
        lemma_prefix_sum_bounded(counts, k + 1);
        lemma_prefix_sum_step(counts, k);
    }
}

/// Extending a prefix by one partition adds that partition's count.
pub proof fn lemma_prefix_sum_step(counts: Seq<usize>, k: int)
    requires
        0 <= k < counts.len(),
    ensures
        prefix_sum(counts, k + 1) == prefix_sum(counts, k) + counts[k],
{
    assert(counts.take(k + 1).drop_last() =~= counts.take(k));
}

/// `row * ncols + col` stays below `nrows * ncols` whenever the pair is in
/// bounds.
pub proof fn lemma_row_index_in_bounds(row: int, col: int, nrows: int, ncols: int)
    requires
        0 <= row < nrows,
        0 <= col < ncols,
    ensures
        row * ncols + col < nrows * ncols,
        0 <= row * ncols + col,
{
    assert(row * ncols + col < nrows * ncols) by (nonlinear_arith)
        requires
            0 <= row < nrows,
            0 <= col < ncols,
    ;
    assert(0 <= row * ncols + col) by (nonlinear_arith)
        requires
            0 <= row,
            0 <= col,
            0 < ncols,
    ;
}

} // verus!
