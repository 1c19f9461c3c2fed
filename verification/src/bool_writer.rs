//! A destination that can only hold booleans: a homogeneous matrix.
//!
//! The column storage is one shared two-dimensional ndarray of `bool`; the
//! schema disambiguates nothing because every column is `Bool`. Partition
//! writers own staging rows for their exclusive row range and are absorbed
//! back into the matrix when the transfer is done.

use vstd::prelude::*;
use crate::data_order::DataOrder;
use crate::destination::{prefix_sum, sum_counts, lemma_prefix_sum_step, lemma_prefix_sum_bounded,
    lemma_row_index_in_bounds};
use crate::errors::ConnectorAgentError;
use crate::typesystem::{DataType, PhysicalType};
use crate::value::Value;

verus! {

/// A two-dimensional boolean array of the outside array crate, held whole
/// behind this opaque struct because its element storage is not visible to
/// the verifier.
#[verifier::external_body]
pub struct BoolMatrix {
    inner: ndarray::Array2<bool>,
}

/// The elements of the matrix in row-major index order, as ndarray's
/// two-dimensional indexing sees them: entry `(r, c)` at `r * cols + c`.
pub uninterp spec fn bool_matrix_cells(m: BoolMatrix) -> Seq<bool>;

/// The number of rows the matrix was created with.
pub uninterp spec fn bool_matrix_rows(m: BoolMatrix) -> int;

/// The number of columns the matrix was created with.
pub uninterp spec fn bool_matrix_cols(m: BoolMatrix) -> int;

/// Relies on ndarray::Array2::from_elem: an `nrows x ncols` array holding
/// `false` everywhere, with those dimensions reported back. from_elem
/// panics when the product of the non-zero axis lengths exceeds
/// `isize::MAX` — for a zero axis that product is the other axis alone —
/// so the cell count and each single axis are excluded here.
#[verifier::external_body]
fn bool_matrix_new(nrows: usize, ncols: usize) -> (r: BoolMatrix)
    requires
        nrows * ncols <= isize::MAX,
        nrows <= isize::MAX,
        ncols <= isize::MAX,
    ensures
        bool_matrix_rows(r) == nrows,
        bool_matrix_cols(r) == ncols,
        bool_matrix_cells(r) == Seq::new((nrows * ncols) as nat, |i: int| false),
{
    BoolMatrix { inner: ndarray::Array2::from_elem((nrows, ncols), false) }
}

/// Relies on ndarray's IndexMut for Array2: writes the one element at
/// `(row, col)` and moves nothing else.
#[verifier::external_body]
fn bool_matrix_set(m: &mut BoolMatrix, row: usize, col: usize, v: bool)
    requires
        row < bool_matrix_rows(*old(m)),
        col < bool_matrix_cols(*old(m)),
    ensures
        bool_matrix_rows(*final(m)) == bool_matrix_rows(*old(m)),
        bool_matrix_cols(*final(m)) == bool_matrix_cols(*old(m)),
        bool_matrix_cells(*final(m)) == bool_matrix_cells(*old(m)).update(
            row * bool_matrix_cols(*old(m)) + col,
            v,
        ),
{
    m.inner[[row, col]] = v;
}

/// Relies on ndarray's Index for Array2: reads the element at `(row, col)`.
#[verifier::external_body]
pub fn bool_matrix_get(m: &BoolMatrix, row: usize, col: usize) -> (r: bool)
    requires
        row < bool_matrix_rows(*m),
        col < bool_matrix_cols(*m),
    ensures
        r == bool_matrix_cells(*m)[row * bool_matrix_cols(*m) + col],
{
    m.inner[[row, col]]
}

/// Relies on ndarray::ArrayBase::nrows.
#[verifier::external_body]
pub fn bool_matrix_nrows(m: &BoolMatrix) -> (r: usize)
    ensures
        r == bool_matrix_rows(*m),
{
    m.inner.nrows()
}

/// Relies on ndarray::ArrayBase::ncols.
#[verifier::external_body]
pub fn bool_matrix_ncols(m: &BoolMatrix) -> (r: usize)
    ensures
        r == bool_matrix_cols(*m),
{
    m.inner.ncols()
}

/// The staging writer of one partition of a `BoolWriter`: an exclusive,
/// contiguous row range, buffered locally until it is absorbed.
#[derive(Debug)]
pub struct BoolPartitionWriter {
    nrows: usize,
    ncols: usize,
    offset: usize,
    cells: Vec<bool>,
}

impl BoolPartitionWriter {
    pub closed spec fn wf(self) -> bool {
        self.cells@.len() == self.nrows * self.ncols
    }

    pub closed spec fn nrows_spec(self) -> int {
        self.nrows as int
    }

    pub closed spec fn ncols_spec(self) -> int {
        self.ncols as int
    }

    pub closed spec fn offset_spec(self) -> int {
        self.offset as int
    }

    pub closed spec fn cells_spec(self) -> Seq<bool> {
        self.cells@
    }

    fn new(nrows: usize, ncols: usize, offset: usize) -> (r: BoolPartitionWriter)
        requires
            nrows * ncols <= usize::MAX,
        ensures
            r.wf(),
            r.nrows_spec() == nrows,
            r.ncols_spec() == ncols,
            r.offset_spec() == offset,
            r.cells_spec() == Seq::new((nrows * ncols) as nat, |i: int| false),
    {
        let mut cells: Vec<bool> = Vec::new();
        let total = nrows * ncols;
        let mut i: usize = 0;
        while i < total
            invariant
                i <= total,
                cells@ =~= Seq::new(i as nat, |j: int| false),
            decreases total - i,
        {
            cells.push(false);
            proof {
                assert(cells@ =~= Seq::new((i + 1) as nat, |j: int| false));
            }
            i += 1;
        }
        BoolPartitionWriter { nrows, ncols, offset, cells }
    }

    /// The shape fact a well-formed staging writer guarantees its callers.
    pub proof fn lemma_shape(self)
        requires
            self.wf(),
        ensures
            self.cells_spec().len() == self.nrows_spec() * self.ncols_spec(),
    {
    }

    pub fn nrows(&self) -> (r: usize)
        ensures
            r == self.nrows_spec(),
    {
        self.nrows
    }

    pub fn ncols(&self) -> (r: usize)
        ensures
            r == self.ncols_spec(),
    {
        self.ncols
    }

    /// The unchecked write path: the caller asserts the cell is a boolean
    /// of this writer's partition.
    pub fn consume(&mut self, row: usize, col: usize, value: bool)
        requires
            old(self).wf(),
            row < old(self).nrows_spec(),
            col < old(self).ncols_spec(),
        ensures
            final(self).wf(),
            final(self).nrows_spec() == old(self).nrows_spec(),
            final(self).ncols_spec() == old(self).ncols_spec(),
            final(self).offset_spec() == old(self).offset_spec(),
            final(self).cells_spec() == old(self).cells_spec().update(
                row * old(self).ncols_spec() + col,
                value,
            ),
    {
        let _n = self.cells.len();
        proof {
            lemma_row_index_in_bounds(row as int, col as int, self.nrows as int, self.ncols as int);
        }
        self.cells.set(row * self.ncols + col, value);
    }

    /// The checked write path: succeeds exactly when the claimed cell is a
    /// boolean, the physical type of every column of this destination.
    pub fn consume_checked(&mut self, row: usize, col: usize, value: Value) -> (r: Result<
        (),
        ConnectorAgentError,
    >)
        requires
            old(self).wf(),
            row < old(self).nrows_spec(),
            col < old(self).ncols_spec(),
        ensures
            final(self).wf(),
            final(self).nrows_spec() == old(self).nrows_spec(),
            final(self).ncols_spec() == old(self).ncols_spec(),
            final(self).offset_spec() == old(self).offset_spec(),
            r is Ok <==> value.physical_spec() == PhysicalType::Bool,
            r is Ok ==> final(self).cells_spec() == old(self).cells_spec().update(
                row * old(self).ncols_spec() + col,
                value->Bool_0,
            ),
            r is Err ==> *final(self) == *old(self) && r == Result::<(), ConnectorAgentError>::Err(
                ConnectorAgentError::TypeMismatch {
                    expected: PhysicalType::Bool,
                    found: value.physical_spec(),
                },
            ),
    {
        match value {
            Value::Bool(b) => {
                self.consume(row, col, b);
                Ok(())
            },
            other => Err(
                ConnectorAgentError::TypeMismatch {
                    expected: PhysicalType::Bool,
                    found: other.physical(),
                },
            ),
        }
    }
}

/// The boolean-matrix destination. Every column's logical type must be
/// `Bool`, and only row-major order is supported.
pub struct BoolWriter {
    nrows: usize,
    schema: Vec<DataType>,
    buffer: BoolMatrix,
}

impl BoolWriter {
    /// The data orders this writer supports.
    pub fn data_orders() -> (r: Vec<DataOrder>)
        ensures
            r@ =~= seq![DataOrder::RowMajor],
    {
        let mut v: Vec<DataOrder> = Vec::new();
        v.push(DataOrder::RowMajor);
        v
    }

    pub closed spec fn wf(self) -> bool {
        &&& bool_matrix_rows(self.buffer) == self.nrows
        &&& bool_matrix_cols(self.buffer) == self.schema@.len()
        &&& bool_matrix_cells(self.buffer).len() == self.nrows * self.schema@.len()
        &&& self.nrows * self.schema@.len() <= isize::MAX
        &&& forall|c: int| 0 <= c < self.schema@.len() ==> self.schema@[c] == DataType::Bool
    }

    pub closed spec fn nrows_spec(self) -> int {
        self.nrows as int
    }

    pub closed spec fn schema_spec(self) -> Seq<DataType> {
        self.schema@
    }

    /// The row-major contents of the matrix.
    pub closed spec fn cells_spec(self) -> Seq<bool> {
        bool_matrix_cells(self.buffer)
    }

    /// Allocation succeeds exactly when every column is `Bool`, the order
    /// is row-major, and the cell count fits the address space.
    pub fn allocate(nrows: usize, schema: Vec<DataType>, data_order: DataOrder) -> (r: Result<
        BoolWriter,
        ConnectorAgentError,
    >)
        requires
            nrows * schema@.len() <= isize::MAX,
            nrows <= isize::MAX,
            schema@.len() <= isize::MAX,
        ensures
            r is Ok <==> (data_order == DataOrder::RowMajor && forall|c: int|
                0 <= c < schema@.len() ==> schema@[c] == DataType::Bool),
            r is Ok ==> ({
                let w = r->Ok_0;
                &&& w.wf()
                &&& w.nrows_spec() == nrows
                &&& w.schema_spec() == schema@
                &&& w.cells_spec() == Seq::new((nrows * schema@.len()) as nat, |i: int| false)
            }),
            r is Err ==> (r matches Err(ConnectorAgentError::UnsupportedSchema { col, ty })
                && 0 <= col < schema@.len() && schema@[col as int] == ty && ty != DataType::Bool)
                || (r == Result::<BoolWriter, ConnectorAgentError>::Err(
                ConnectorAgentError::UnsupportedDataOrder(data_order),
            ) && data_order != DataOrder::RowMajor),
    {
        let ncols = schema.len();
        let mut c: usize = 0;
        while c < ncols
            invariant
                c <= ncols,
                ncols == schema@.len(),
                forall|j: int| 0 <= j < c ==> schema@[j] == DataType::Bool,
            decreases ncols - c,
        {
            if !matches!(schema[c], DataType::Bool) {
                return Err(ConnectorAgentError::UnsupportedSchema { col: c, ty: schema[c] });
            }
            c += 1;
        }
        if !matches!(data_order, DataOrder::RowMajor) {
            return Err(ConnectorAgentError::UnsupportedDataOrder(data_order));
        }
        let buffer = bool_matrix_new(nrows, ncols);
        Ok(BoolWriter { nrows, schema, buffer })
    }

    pub fn schema(&self) -> (r: &Vec<DataType>)
        ensures
            r@ == self.schema_spec(),
    {
        &self.schema
    }

    /// A read-only view of the matrix storage.
    pub fn buffer(&self) -> (r: &BoolMatrix)
        requires
            self.wf(),
        ensures
            bool_matrix_cells(*r) == self.cells_spec(),
            bool_matrix_rows(*r) == self.nrows_spec(),
            bool_matrix_cols(*r) == self.schema_spec().len(),
    {
        &self.buffer
    }

    /// One staging writer per partition, each owning the contiguous row
    /// range `[prefix_sum(counts, k), prefix_sum(counts, k + 1))`. Fails
    /// exactly when the counts do not sum to the row budget.
    pub fn partition_writers(&self, counts: &Vec<usize>) -> (r: Result<
        Vec<BoolPartitionWriter>,
        ConnectorAgentError,
    >)
        requires
            self.wf(),
        ensures
            r is Ok <==> sum_counts(counts@) == self.nrows_spec(),
            r is Err ==> (r matches Err(ConnectorAgentError::CountsMismatch { expected, got })
                && expected == self.nrows_spec() && (sum_counts(counts@) <= usize::MAX ==> got
                == sum_counts(counts@))),
            r is Ok ==> ({
                let ws = r->Ok_0;
                &&& ws@.len() == counts@.len()
                &&& forall|k: int|
                    0 <= k < ws@.len() ==> {
                        &&& (#[trigger] ws@[k]).wf()
                        &&& ws@[k].nrows_spec() == counts@[k]
                        &&& ws@[k].ncols_spec() == self.schema_spec().len()
                        &&& ws@[k].offset_spec() == prefix_sum(counts@, k)
                        &&& ws@[k].cells_spec() == Seq::new(
                            (counts@[k] * self.schema_spec().len()) as nat,
                            |i: int| false,
                        )
                    }
            }),
    {
        let ncols = self.schema.len();
        let mut total: usize = 0;
        let mut i: usize = 0;
        while i < counts.len()
            invariant
                i <= counts.len(),
                total == sum_counts(counts@.take(i as int)),
            decreases counts.len() - i,
        {
            let c = counts[i];
            proof {
                assert(counts@.take(i + 1).drop_last() =~= counts@.take(i as int));
            }
            match total.checked_add(c) {
                Some(t) => total = t,
                None => {
                    proof {
                        assert(counts@.take(i + 1).last() == counts@[i as int]);
                        assert(sum_counts(counts@.take(i + 1)) == total + c);
                        lemma_prefix_sum_bounded(counts@, i + 1);
                        assert(sum_counts(counts@) > usize::MAX);
                    }
                    return Err(
                        ConnectorAgentError::CountsMismatch { expected: self.nrows, got: 0 },
                    );
                },
            }
            i += 1;
        }
        proof {
            assert(counts@.take(counts@.len() as int) =~= counts@);
        }
        if total != self.nrows {
            return Err(ConnectorAgentError::CountsMismatch { expected: self.nrows, got: total });
        }
        let mut ws: Vec<BoolPartitionWriter> = Vec::new();
        let mut offset: usize = 0;
        let mut k: usize = 0;
        while k < counts.len()
            invariant
                k <= counts.len(),
                ncols == self.schema@.len(),
                self.wf(),
                offset == prefix_sum(counts@, k as int),
                offset <= self.nrows,
                sum_counts(counts@) == self.nrows,
                ws@.len() == k,
                forall|j: int|
                    0 <= j < k ==> {
                        &&& (#[trigger] ws@[j]).wf()
                        &&& ws@[j].nrows_spec() == counts@[j]
                        &&& ws@[j].ncols_spec() == ncols
                        &&& ws@[j].offset_spec() == prefix_sum(counts@, j)
                        &&& ws@[j].cells_spec() == Seq::new(
                            (counts@[j] * (ncols as int)) as nat,
                            |i: int| false,
                        )
                    },
            decreases counts.len() - k,
        {
            let count = counts[k];
            proof {
                lemma_prefix_sum_step(counts@, k as int);
                lemma_prefix_sum_bounded(counts@, k + 1);
                assert(count * ncols <= self.nrows * ncols) by (nonlinear_arith)
                    requires
                        0 <= count <= self.nrows,
                        0 <= ncols,
                ;
                assert(self.nrows * ncols == bool_matrix_cells(self.buffer).len());
            }
            ws.push(BoolPartitionWriter::new(count, ncols, offset));
            offset = offset + count;
            k += 1;
        }
        Ok(ws)
    }

    /// Absorbs one partition's staged rows into the shared matrix: the
    /// writer's flat cell `j` lands at flat matrix index
    /// `offset * ncols + j`, so staged cell `(r, c)` lands at matrix row
    /// `offset + r`. Cells outside the partition's row range are untouched.
    pub fn collect(&mut self, w: &BoolPartitionWriter)
        requires
            old(self).wf(),
            w.wf(),
            w.ncols_spec() == old(self).schema_spec().len(),
            w.offset_spec() + w.nrows_spec() <= old(self).nrows_spec(),
        ensures
            final(self).wf(),
            final(self).nrows_spec() == old(self).nrows_spec(),
            final(self).schema_spec() == old(self).schema_spec(),
            final(self).cells_spec().len() == old(self).cells_spec().len(),
            forall|j: int|
                0 <= j < w.nrows_spec() * w.ncols_spec() ==> final(self).cells_spec()[
                    w.offset_spec() * old(self).schema_spec().len() + j
                ] == #[trigger] w.cells_spec()[j],
            forall|i: int|
                0 <= i < old(self).cells_spec().len() && !((w.offset_spec()
                    * old(self).schema_spec().len() <= i) && (i < w.offset_spec()
                    * old(self).schema_spec().len() + w.nrows_spec() * w.ncols_spec()))
                    ==> final(self).cells_spec()[i] == old(self).cells_spec()[i],
    {
        let ncols = self.schema.len();
        let wrows = w.nrows();
        let off = w.offset();
        let total = w.cell_count();
        proof {
            assert(w.offset_spec() * (ncols as int) + total <= self.nrows_spec() * (
            ncols as int)) by (nonlinear_arith)
                requires
                    total == w.nrows_spec() * (ncols as int),
                    w.offset_spec() + w.nrows_spec() <= self.nrows_spec(),
                    0 <= w.offset_spec(),
                    0 <= ncols,
                    0 <= w.nrows_spec(),
            ;
        }
        let mut j: usize = 0;
        while j < total
            invariant
                j <= total,
                self.wf(),
                w.wf(),
                ncols == self.schema@.len(),
                ncols == w.ncols_spec(),
                wrows == w.nrows_spec(),
                off == w.offset_spec(),
                total == w.nrows_spec() * w.ncols_spec(),
                w.offset_spec() + w.nrows_spec() <= self.nrows_spec(),
                off * ncols + total <= self.nrows_spec() * (ncols as int),
                self.nrows == old(self).nrows,
                self.schema@ == old(self).schema@,
                self.cells_spec().len() == old(self).cells_spec().len(),
                self.cells_spec().len() == self.nrows_spec() * (ncols as int),
                forall|j2: int|
                    0 <= j2 < j ==> self.cells_spec()[off * (ncols as int) + j2]
                        == w.cells_spec()[j2],
                forall|i: int|
                    0 <= i < old(self).cells_spec().len() && !((off * (ncols as int) <= i) && (i
                        < off * (ncols as int) + j)) ==> self.cells_spec()[i]
                        == old(self).cells_spec()[i],
            decreases total - j,
        {
            proof {
                assert(ncols > 0) by (nonlinear_arith)
                    requires
                        j < total,
                        total == w.nrows_spec() * (ncols as int),
                        0 <= ncols,
                ;
            }
            let row = j / ncols;
            let col = j % ncols;
            proof {
                vstd::arithmetic::div_mod::lemma_fundamental_div_mod(j as int, ncols as int);
                vstd::arithmetic::div_mod::lemma_mod_bound(j as int, ncols as int);
                assert(row < wrows) by (nonlinear_arith)
                    requires
                        j as int == (ncols as int) * (row as int) + (col as int),
                        0 <= col < ncols,
                        j < total,
                        total == (wrows as int) * (ncols as int),
                        0 <= row,
                ;
                assert((off + row) * (ncols as int) + col == off * (ncols as int) + j)
                    by (nonlinear_arith)
                    requires
                        j as int == (ncols as int) * (row as int) + (col as int),
                ;
                assert(off * (ncols as int) + j < self.cells_spec().len());
                assert((row as int) * (ncols as int) + col == j);
            }
            let ghost pre = self.cells_spec();
            let v = w.read_cell(row, col);
            bool_matrix_set(&mut self.buffer, off + row, col, v);
            proof {
                let xx = off * (ncols as int) + j;
                assert(self.cells_spec() == pre.update(xx, v));
                assert forall|j2: int| 0 <= j2 < j + 1 implies self.cells_spec()[off * (
                ncols as int) + j2] == w.cells_spec()[j2] by {
                    if j2 < j {
                        assert(off * (ncols as int) + j2 != xx);
                        assert(pre[off * (ncols as int) + j2] == w.cells_spec()[j2]);
                    }
                }
            }
            j += 1;
        }
    }
}

impl BoolPartitionWriter {
    /// Reads one staged cell.
    pub fn read_cell(&self, row: usize, col: usize) -> (r: bool)
        requires
            self.wf(),
            row < self.nrows_spec(),
            col < self.ncols_spec(),
        ensures
            r == self.cells_spec()[row * self.ncols_spec() + col],
    {
        let _n = self.cells.len();
        proof {
            lemma_row_index_in_bounds(row as int, col as int, self.nrows as int, self.ncols as int);
        }
        self.cells[row * self.ncols + col]
    }

    /// The number of staged cells.
    pub fn cell_count(&self) -> (r: usize)
        requires
            self.wf(),
        ensures
            r == self.nrows_spec() * self.ncols_spec(),
    {
        self.cells.len()
    }

    /// The global row offset of this partition.
    pub fn offset(&self) -> (r: usize)
        ensures
            r == self.offset_spec(),
    {
        self.offset
    }
}

} // verus!
