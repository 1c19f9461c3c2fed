//! An in-memory source: the verified model of a backend's partition readers.
//!
//! A real backend opens connections and streams rows; what the engine relies
//! on is only the reader contract — each partition yields exactly
//! `partition_rows * ncols` cells, in row-major order, each carrying the
//! physical type of its column. Here that contract is established once, when
//! the source is built, by a checked validation of the cell buffers.

use vstd::prelude::*;
use crate::errors::ConnectorAgentError;
use crate::typesystem::MysqlTypeSystem;
use crate::value::Value;

verus! {

/// Every cell of a row-major buffer carries the physical type of its source
/// column and is well-formed.
pub open spec fn source_cells_typed(cells: Seq<Value>, schema: Seq<MysqlTypeSystem>) -> bool {
    forall|i: int|
        0 <= i < cells.len() ==> (#[trigger] cells[i]).physical_spec() == schema[i % schema.len(
        ) as int].associate_spec() && cells[i].wf()
}

/// The cell at flat position `i` carries the physical type of its column
/// and is well-formed.
pub open spec fn source_cell_ok(cells: Seq<Value>, schema: Seq<MysqlTypeSystem>, i: int) -> bool {
    cells[i].physical_spec() == schema[i % schema.len() as int].associate_spec() && cells[i].wf()
}

/// A partition entry has the right shape: `rows * ncols` cells of their
/// columns' physical types.
pub open spec fn source_entry_ok(entry: (usize, Vec<Value>), schema: Seq<MysqlTypeSystem>) -> bool {
    entry.1@.len() == entry.0 * schema.len() && source_cells_typed(entry.1@, schema)
}

/// `e` describes the first flaw of a flawed partition entry: a wrong cell
/// count reports the expected and actual counts; otherwise the first
/// mistyped or ill-formed cell reports its column's physical type and the
/// cell's own.
pub open spec fn entry_error_matches(
    entry: (usize, Vec<Value>),
    schema: Seq<MysqlTypeSystem>,
    e: ConnectorAgentError,
) -> bool {
    if entry.1@.len() != entry.0 * schema.len() {
        e matches ConnectorAgentError::CountsMismatch { expected, got } && got == entry.1@.len()
            && (entry.0 * schema.len() <= usize::MAX ==> expected == entry.0 * schema.len())
    } else {
        exists|i: int|
            #![auto]
            0 <= i < entry.1@.len() && !source_cell_ok(entry.1@, schema, i) && (forall|j: int|
                0 <= j < i ==> source_cell_ok(entry.1@, schema, j)) && e
                == ConnectorAgentError::TypeMismatch {
                expected: schema[i % schema.len() as int].associate_spec(),
                found: entry.1@[i].physical_spec(),
            }
    }
}

/// `e` is the validation error for the first flawed partition: every
/// earlier partition is well-shaped, and `e` describes the flawed one's
/// first flaw.
pub open spec fn first_source_error(
    partitions: Seq<(usize, Vec<Value>)>,
    schema: Seq<MysqlTypeSystem>,
    e: ConnectorAgentError,
) -> bool {
    exists|k: int|
        #![auto]
        0 <= k < partitions.len() && (forall|k2: int|
            0 <= k2 < k ==> source_entry_ok(#[trigger] partitions[k2], schema))
            && !source_entry_ok(partitions[k], schema) && entry_error_matches(
            partitions[k],
            schema,
            e,
        )
}

/// One partition's independent cursor over its cells.
#[derive(Debug)]
pub struct MemPartitionReader {
    schema: Vec<MysqlTypeSystem>,
    nrows: usize,
    cells: Vec<Value>,
    pos: usize,
}

impl MemPartitionReader {
    pub closed spec fn wf(self) -> bool {
        self.cells@.len() == self.nrows * self.schema@.len() && source_cells_typed(
            self.cells@,
            self.schema@,
        ) && self.pos <= self.cells@.len()
    }

    pub closed spec fn schema_spec(self) -> Seq<MysqlTypeSystem> {
        self.schema@
    }

    pub closed spec fn nrows_spec(self) -> int {
        self.nrows as int
    }

    pub closed spec fn cells_spec(self) -> Seq<Value> {
        self.cells@
    }

    pub closed spec fn pos_spec(self) -> int {
        self.pos as int
    }

    pub fn nrows(&self) -> (r: usize)
        ensures
            r == self.nrows_spec(),
    {
        self.nrows
    }

    pub fn ncols(&self) -> (r: usize)
        ensures
            r == self.schema_spec().len(),
    {
        self.schema.len()
    }

    /// The shape facts a well-formed reader guarantees its callers.
    pub proof fn lemma_shape(self)
        requires
            self.wf(),
        ensures
            self.cells_spec().len() == self.nrows_spec() * self.schema_spec().len(),
            source_cells_typed(self.cells_spec(), self.schema_spec()),
            0 <= self.pos_spec() <= self.cells_spec().len(),
    {
    }

    /// The source logical type of one column.
    pub fn schema_of_col(&self, col: usize) -> (r: MysqlTypeSystem)
        requires
            col < self.schema_spec().len(),
        ensures
            r == self.schema_spec()[col as int],
    {
        self.schema[col]
    }

    /// Yields the next cell of the partition's row-major traversal.
    pub fn produce(&mut self) -> (r: Value)
        requires
            old(self).wf(),
            old(self).pos_spec() < old(self).cells_spec().len(),
        ensures
            final(self).wf(),
            r == old(self).cells_spec()[old(self).pos_spec()],
            final(self).pos_spec() == old(self).pos_spec() + 1,
            final(self).cells_spec() == old(self).cells_spec(),
            final(self).schema_spec() == old(self).schema_spec(),
            final(self).nrows_spec() == old(self).nrows_spec(),
            r.physical_spec() == old(self).schema_spec()[old(self).pos_spec() % old(
                self,
            ).schema_spec().len() as int].associate_spec(),
            r.wf(),
    {
        let _n = self.cells.len();
        let v = self.cells[self.pos].clone_value();
        self.pos = self.pos + 1;
        v
    }

    /// Succeeds exactly when every expected cell has been consumed.
    pub fn finish(&self) -> (r: Result<(), ConnectorAgentError>)
        ensures
            r is Ok <==> self.pos_spec() == self.cells_spec().len(),
    {
        if self.pos == self.cells.len() {
            Ok(())
        } else {
            Err(ConnectorAgentError::ProduceError { partition: 0, row: 0, col: 0 })
        }
    }
}

impl Value {
    /// A deep copy of a cell, equal to the original.
    pub fn clone_value(&self) -> (r: Value)
        ensures
            r == *self,
    {
        match self {
            Value::Bool(b) => Value::Bool(*b),
            Value::I64(x) => Value::I64(*x),
            Value::F64Bits(x) => Value::F64Bits(*x),
            Value::Str(s) => Value::Str(clone_string(s)),
            Value::Date(d) => Value::Date(*d),
            Value::Time(t) => Value::Time(*t),
            Value::DateTime(dt) => Value::DateTime(*dt),
            Value::Decimal(d) => Value::Decimal(*d),
        }
    }
}

/// Relies on String::clone: the copy equals the original.
#[verifier::external_body]
fn clone_string(s: &String) -> (r: String)
    ensures
        r == *s,
{
    s.clone()
}

/// The in-memory source: a schema, the total row count its plan reports,
/// and one cell buffer per partition.
#[derive(Debug)]
pub struct MemSource {
    schema: Vec<MysqlTypeSystem>,
    total_rows: usize,
    partitions: Vec<MemPartitionReader>,
}

impl MemSource {
    pub closed spec fn wf(self) -> bool {
        forall|k: int|
            0 <= k < self.partitions@.len() ==> (#[trigger] self.partitions@[k]).wf()
                && self.partitions@[k].schema_spec() == self.schema@
                && self.partitions@[k].pos_spec() == 0
    }

    pub closed spec fn schema_spec(self) -> Seq<MysqlTypeSystem> {
        self.schema@
    }

    pub closed spec fn total_rows_spec(self) -> int {
        self.total_rows as int
    }

    /// The cell buffers of the partitions, in partition order.
    pub closed spec fn parts_spec(self) -> Seq<Seq<Value>> {
        self.partitions@.map(|k: int, p: MemPartitionReader| p.cells_spec())
    }

    /// The per-partition row counts.
    pub closed spec fn counts_spec(self) -> Seq<usize> {
        self.partitions@.map(|k: int, p: MemPartitionReader| p.nrows as usize)
    }

    /// There is one cell buffer and one row count per partition.
    pub proof fn lemma_shape(self)
        ensures
            self.counts_spec().len() == self.parts_spec().len(),
    {
    }

    /// Builds a source after validating that every partition buffer is
    /// `rows * ncols` cells of the column's physical types. The validation
    /// fails with the first mismatching cell's expected and found types.
    pub fn new(
        schema: Vec<MysqlTypeSystem>,
        total_rows: usize,
        partitions: Vec<(usize, Vec<Value>)>,
    ) -> (r: Result<MemSource, ConnectorAgentError>)
        ensures
            r is Ok ==> ({
                let s = r->Ok_0;
                &&& s.wf()
                &&& s.schema_spec() == schema@
                &&& s.total_rows_spec() == total_rows
                &&& s.parts_spec().len() == partitions@.len()
                &&& forall|k: int|
                    0 <= k < partitions@.len() ==> (#[trigger] s.parts_spec()[k])
                        == partitions@[k].1@ && s.counts_spec()[k] == partitions@[k].0
            }),
            r is Ok <==> forall|k: int|
                0 <= k < partitions@.len() ==> (#[trigger] partitions@[k].1@).len() == partitions@[
                    k
                ].0 * schema@.len() && source_cells_typed(partitions@[k].1@, schema@),
            r matches Err(e) ==> first_source_error(partitions@, schema@, e),
    {
        let ncols = schema.len();
        let mut readers: Vec<MemPartitionReader> = Vec::new();
        let mut rest = partitions;
        let ghost all = rest@;
        let n = rest.len();
        let mut k: usize = 0;
        while k < n
            invariant
                k <= n,
                n == all.len(),
                all == partitions@,
                rest@ =~= all.skip(k as int),
                ncols == schema@.len(),
                readers@.len() == k,
                forall|j: int|
                    0 <= j < k ==> {
                        &&& (#[trigger] readers@[j]).wf()
                        &&& readers@[j].schema_spec() == schema@
                        &&& readers@[j].pos_spec() == 0
                        &&& readers@[j].cells_spec() == all[j].1@
                        &&& readers@[j].nrows_spec() == all[j].0
                        &&& all[j].1@.len() == all[j].0 * schema@.len()
                        &&& source_cells_typed(all[j].1@, schema@)
                    },
                forall|j: int| 0 <= j < k ==> source_entry_ok(#[trigger] all[j], schema@),
            decreases n - k,
        {
            let (rows, cells) = rest.remove(0);
            proof {
                assert(all.skip(k as int)[0] == all[k as int]);
                assert(all.skip(k as int).remove(0) =~= all.skip(k + 1));
            }
            match rows.checked_mul(ncols) {
                Some(expected) => {
                    if cells.len() != expected {
                        let e = ConnectorAgentError::CountsMismatch {
                            expected,
                            got: cells.len(),
                        };
                        proof {
                            assert(all[k as int].1@ == cells@ && all[k as int].0 == rows);
                            assert(entry_error_matches(all[k as int], schema@, e));
                            assert(first_source_error(partitions@, schema@, e)) by {
                                assert(!source_entry_ok(all[k as int], schema@));
                                assert(forall|k2: int|
                                    0 <= k2 < k ==> source_entry_ok(
                                        #[trigger] all[k2],
                                        schema@,
                                    ));
                            }
                        }
                        return Err(e);
                    }
                },
                None => {
                    let e = ConnectorAgentError::CountsMismatch { expected: 0, got: cells.len() };
                    proof {
                        assert(all[k as int].1@ == cells@ && all[k as int].0 == rows);
                        assert(cells@.len() != rows * ncols);
                        assert(entry_error_matches(all[k as int], schema@, e));
                        assert(first_source_error(partitions@, schema@, e)) by {
                            assert(!source_entry_ok(all[k as int], schema@));
                            assert(forall|k2: int|
                                0 <= k2 < k ==> source_entry_ok(#[trigger] all[k2], schema@));
                        }
                    }
                    return Err(e);
                },
            }
            let mut i: usize = 0;
            let len = cells.len();
            while i < len
                invariant
                    i <= len,
                    len == cells@.len(),
                    ncols == schema@.len(),
                    len == all[k as int].0 * ncols,
                    k < n == all.len(),
                    all == partitions@,
                    cells@ == all[k as int].1@,
                    forall|j: int|
                        0 <= j < i ==> (#[trigger] cells@[j]).physical_spec() == schema@[j % (
                        ncols as int)].associate_spec() && cells@[j].wf(),
                    forall|k2: int| 0 <= k2 < k ==> source_entry_ok(#[trigger] all[k2], schema@),
                decreases len - i,
            {
                let col = i % ncols;
                let expected = schema[col].associate();
                let found = cells[i].physical();
                let flawed = found != expected || !check_value_wf(&cells[i]);
                if flawed {
                    let e = ConnectorAgentError::TypeMismatch { expected, found };
                    proof {
                        assert(!source_cell_ok(cells@, schema@, i as int));
                        assert(forall|j: int|
                            0 <= j < i ==> source_cell_ok(cells@, schema@, j));
                        assert(entry_error_matches(all[k as int], schema@, e)) by {
                            assert(cells@.len() == all[k as int].0 * schema@.len());
                        }
                        assert(first_source_error(partitions@, schema@, e)) by {
                            assert(!source_entry_ok(all[k as int], schema@));
                            assert(forall|k2: int|
                                0 <= k2 < k ==> source_entry_ok(#[trigger] all[k2], schema@));
                        }
                    }
                    return Err(e);
                }
                i += 1;
            }
            readers.push(MemPartitionReader { schema: clone_schema(&schema), nrows: rows, cells, pos: 0 });
            k += 1;
        }
        proof {
            assert(all.skip(0) =~= all);
            assert forall|k2: int| 0 <= k2 < partitions@.len() implies (#[trigger] partitions@[
                k2
            ].1@).len() == partitions@[k2].0 * schema@.len() && source_cells_typed(
                partitions@[k2].1@,
                schema@,
            ) by {
                assert(readers@[k2].wf());
                assert(readers@[k2].cells_spec() == all[k2].1@);
            }
        }
        Ok(MemSource { schema, total_rows, partitions: readers })
    }

    pub fn schema(&self) -> (r: &Vec<MysqlTypeSystem>)
        ensures
            r@ == self.schema_spec(),
    {
        &self.schema
    }

    pub fn total_rows(&self) -> (r: usize)
        ensures
            r == self.total_rows_spec(),
    {
        self.total_rows
    }

    /// Hands out the independent partition readers.
    pub fn into_partitions(self) -> (r: Vec<MemPartitionReader>)
        requires
            self.wf(),
        ensures
            r@.len() == self.parts_spec().len(),
            forall|k: int|
                0 <= k < r@.len() ==> {
                    &&& (#[trigger] r@[k]).wf()
                    &&& r@[k].schema_spec() == self.schema_spec()
                    &&& r@[k].pos_spec() == 0
                    &&& r@[k].cells_spec() == self.parts_spec()[k]
                    &&& r@[k].nrows_spec() == self.counts_spec()[k]
                },
    {
        self.partitions
    }
}

/// Copies a source schema for a reader's private use.
fn clone_schema(schema: &Vec<MysqlTypeSystem>) -> (r: Vec<MysqlTypeSystem>)
    ensures
        r@ =~= schema@,
{
    let mut out: Vec<MysqlTypeSystem> = Vec::new();
    let mut i: usize = 0;
    while i < schema.len()
        invariant
            i <= schema@.len(),
            out@ =~= schema@.take(i as int),
        decreases schema@.len() - i,
    {
        out.push(schema[i]);
        i += 1;
    }
    proof {
        assert(schema@.take(schema@.len() as int) =~= schema@);
    }
    out
}

/// Whether a cell's date or time payload denotes a valid civil instant.
pub fn check_value_wf(v: &Value) -> (r: bool)
    ensures
        r <==> v.wf(),
{
    match v {
        Value::Date(d) => check_date_wf(d),
        Value::Time(t) => check_time_wf(t),
        Value::DateTime(dt) => check_date_wf(&dt.date) && check_time_wf(&dt.time),
        _ => true,
    }
}

/// Whether a wall-clock time is valid: a nanosecond count of a second or
/// more stands for a leap second and is allowed only at second 59.
fn check_time_wf(t: &crate::value::TimeVal) -> (r: bool)
    ensures
        r <==> t.wf(),
{
    t.hour < 24 && t.minute < 60 && t.second < 60 && t.nano < 2_000_000_000 && (t.nano
        < 1_000_000_000 || t.second == 59)
}

/// Whether a date is a valid civil date.
fn check_date_wf(d: &crate::value::DateVal) -> (r: bool)
    ensures
        r <==> d.wf(),
{
    if d.month < 1 || d.month > 12 || d.day < 1 {
        return false;
    }
    let leap = (d.year % 4 == 0 && d.year % 100 != 0) || d.year % 400 == 0;
    let limit: u8 = if d.month == 2 {
        if leap {
            29
        } else {
            28
        }
    } else if d.month == 4 || d.month == 6 || d.month == 9 || d.month == 11 {
        30
    } else {
        31
    };
    d.day <= limit
}

} // verus!
