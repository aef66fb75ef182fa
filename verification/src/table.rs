//! Rows of plain values as Arrow record batches.
//!
//! A record type lists its fields and turns itself into a row of cells. The rows are turned into
//! columns here, and the columns into the arrays of a record batch.
use arrow::array::{ArrayRef, BooleanArray, StringArray, UInt16Array, UInt32Array, UInt64Array};
use arrow::datatypes::{DataType, Field, Schema};
use arrow::record_batch::RecordBatch;
use std::sync::Arc;
use vstd::prelude::*;

verus! {

#[verifier::external_type_specification]
#[verifier::external_body]
pub struct ExSchema(arrow::datatypes::Schema);

/// A table, held as an Arrow record batch.
#[verifier::external_body]
pub struct Table {
    pub batch: RecordBatch,
}

/// The sorts of values that a field can hold.
#[derive(Debug, Clone, Copy, PartialEq, Eq, Structural)]
pub enum CellKind {
    Text,
    U64,
    U32,
    U16,
    Flag,
}

/// A field of a record type.
#[derive(Debug, Clone, Copy)]
pub struct FieldSpec {
    pub name: &'static str,
    pub kind: CellKind,
    /// Whether a row may lack a value.
    pub nullable: bool,
}

/// A field, by its contents.
#[verifier::ext_equal]
pub struct FieldView {
    pub name: Seq<char>,
    pub kind: CellKind,
    pub nullable: bool,
}

impl View for FieldSpec {
    type V = FieldView;

    open spec fn view(&self) -> FieldView {
        FieldView { name: self.name@, kind: self.kind, nullable: self.nullable }
    }
}

/// Fields, by their contents.
pub open spec fn field_views(fields: Seq<FieldSpec>) -> Seq<FieldView> {
    fields.map_values(|f: FieldSpec| f@)
}

/// A field that always has a value.
pub open spec fn required_field(name: Seq<char>, kind: CellKind) -> FieldView {
    FieldView { name, kind, nullable: false }
}

/// A field that may lack a value.
pub open spec fn optional_field(name: Seq<char>, kind: CellKind) -> FieldView {
    FieldView { name, kind, nullable: true }
}

/// A field that always has a value.
pub fn required(name: &'static str, kind: CellKind) -> (field: FieldSpec)
    ensures
        field@ == required_field(name@, kind),
{
    FieldSpec { name, kind, nullable: false }
}

/// A field that may lack a value.
pub fn optional(name: &'static str, kind: CellKind) -> (field: FieldSpec)
    ensures
        field@ == optional_field(name@, kind),
{
    FieldSpec { name, kind, nullable: true }
}

/// One value of a row, or the lack of one.
#[derive(Debug)]
pub enum Cell {
    Text(Option<String>),
    U64(Option<u64>),
    U32(Option<u32>),
    U16(Option<u16>),
    Flag(Option<bool>),
}

/// One value of a row, by its contents.
#[verifier::ext_equal]
pub enum CellView {
    Text(Option<Seq<char>>),
    U64(Option<u64>),
    U32(Option<u32>),
    U16(Option<u16>),
    Flag(Option<bool>),
}

/// An optional text, by its contents.
pub open spec fn text_view(text: Option<String>) -> Option<Seq<char>> {
    match text {
        Some(t) => Some(t@),
        None => None,
    }
}

impl View for Cell {
    type V = CellView;

    open spec fn view(&self) -> CellView {
        match self {
            Cell::Text(text) => CellView::Text(text_view(*text)),
            Cell::U64(value) => CellView::U64(*value),
            Cell::U32(value) => CellView::U32(*value),
            Cell::U16(value) => CellView::U16(*value),
            Cell::Flag(value) => CellView::Flag(*value),
        }
    }
}

impl CellView {
    pub open spec fn kind(self) -> CellKind {
        match self {
            CellView::Text(_) => CellKind::Text,
            CellView::U64(_) => CellKind::U64,
            CellView::U32(_) => CellKind::U32,
            CellView::U16(_) => CellKind::U16,
            CellView::Flag(_) => CellKind::Flag,
        }
    }

    /// Whether the value is lacking.
    pub open spec fn is_null(self) -> bool {
        match self {
            CellView::Text(value) => value is None,
            CellView::U64(value) => value is None,
            CellView::U32(value) => value is None,
            CellView::U16(value) => value is None,
            CellView::Flag(value) => value is None,
        }
    }

    /// Number of bytes of a text.
    pub open spec fn bytes(self) -> nat {
        match self {
            CellView::Text(Some(text)) => vstd::utf8::encode_utf8(text).len(),
            _ => 0,
        }
    }
}

/// Cells, by their contents.
pub open spec fn cell_views(cells: Seq<Cell>) -> Seq<CellView> {
    cells.map_values(|c: Cell| c@)
}

/// Number of bytes of the texts of a column.
pub open spec fn column_bytes(column: Seq<CellView>) -> nat
    decreases column.len(),
{
    if column.len() == 0 {
        0
    } else {
        column_bytes(column.drop_last()) + column.last().bytes()
    }
}

/// The values of one field over all rows.
pub enum Column {
    Text(Vec<Option<String>>),
    U64(Vec<Option<u64>>),
    U32(Vec<Option<u32>>),
    U16(Vec<Option<u16>>),
    Flag(Vec<Option<bool>>),
}

impl View for Column {
    type V = Seq<CellView>;

    open spec fn view(&self) -> Seq<CellView> {
        match self {
            Column::Text(values) => Seq::new(
                values@.len(),
                |i: int| CellView::Text(text_view(values@[i])),
            ),
            Column::U64(values) => Seq::new(values@.len(), |i: int| CellView::U64(values@[i])),
            Column::U32(values) => Seq::new(values@.len(), |i: int| CellView::U32(values@[i])),
            Column::U16(values) => Seq::new(values@.len(), |i: int| CellView::U16(values@[i])),
            Column::Flag(values) => Seq::new(values@.len(), |i: int| CellView::Flag(values@[i])),
        }
    }
}

impl Column {
    pub open spec fn kind(&self) -> CellKind {
        match self {
            Column::Text(_) => CellKind::Text,
            Column::U64(_) => CellKind::U64,
            Column::U32(_) => CellKind::U32,
            Column::U16(_) => CellKind::U16,
            Column::Flag(_) => CellKind::Flag,
        }
    }

    /// A column without rows.
    pub fn new(kind: CellKind) -> (column: Column)
        ensures
            column.kind() == kind,
            column@ == Seq::<CellView>::empty(),
    {
        let column = match kind {
            CellKind::Text => Column::Text(Vec::new()),
            CellKind::U64 => Column::U64(Vec::new()),
            CellKind::U32 => Column::U32(Vec::new()),
            CellKind::U16 => Column::U16(Vec::new()),
            CellKind::Flag => Column::Flag(Vec::new()),
        };
        assert(column@ =~= Seq::<CellView>::empty());
        column
    }

    /// Adds a value of the column's kind.
    pub fn push(&mut self, cell: Cell)
        requires
            old(self).kind() == cell@.kind(),
        ensures
            final(self).kind() == old(self).kind(),
            final(self)@ == old(self)@.push(cell@),
    {
        let ghost before = self@;
        match self {
            Column::Text(values) => {
                if let Cell::Text(value) = cell {
                    values.push(value);
                }
            },
            Column::U64(values) => {
                if let Cell::U64(value) = cell {
                    values.push(value);
                }
            },
            Column::U32(values) => {
                if let Cell::U32(value) = cell {
                    values.push(value);
                }
            },
            Column::U16(values) => {
                if let Cell::U16(value) = cell {
                    values.push(value);
                }
            },
            Column::Flag(values) => {
                if let Cell::Flag(value) = cell {
                    values.push(value);
                }
            },
        }
        assert(self@ =~= before.push(cell@));
    }
}

/// The fields of a schema, in order.
pub uninterp spec fn schema_fields(schema: Schema) -> Seq<FieldView>;

/// Calls `Field::new` for each field and `Schema::new` for all of them: the schema has exactly
/// these fields, with the data types `Utf8`, `UInt64`, `UInt32`, `UInt16` and `Boolean`.
#[verifier::external_body]
pub(crate) fn make_schema(fields: &Vec<FieldSpec>) -> (schema: Arc<Schema>)
    ensures
        schema_fields(*schema) == field_views(fields@),
{
    Arc::new(Schema::new(fields.iter().map(|f| {
        let data_type = match f.kind {
            CellKind::Text => DataType::Utf8,
            CellKind::U64 => DataType::UInt64,
            CellKind::U32 => DataType::UInt32,
            CellKind::U16 => DataType::UInt16,
            CellKind::Flag => DataType::Boolean,
        };
        Field::new(f.name, data_type, f.nullable)
    }).collect::<Vec<Field>>()))
}

/// The fields of a table, in order.
pub uninterp spec fn table_fields(table: Table) -> Seq<FieldView>;

/// The columns of a table, in order.
pub uninterp spec fn table_columns(table: Table) -> Seq<Seq<CellView>>;

/// Whether the columns are what a schema with these fields asks for: one column per field, of its
/// kind, all of the same length, without lacking values where none may lack, and with no more text
/// in a column than 32-bit offsets reach.
pub open spec fn columns_fit(fields: Seq<FieldView>, columns: Seq<Column>) -> bool {
    &&& columns.len() > 0
    &&& columns.len() == fields.len()
    &&& forall|j: int|
        0 <= j < columns.len() ==> {
            &&& (#[trigger] columns[j]).kind() == fields[j].kind
            &&& columns[j]@.len() == columns[0]@.len()
            &&& column_bytes(columns[j]@) <= i32::MAX
        }
    &&& forall|j: int, i: int|
        0 <= j < columns.len() && 0 <= i < columns[j]@.len() && !fields[j].nullable ==> !(
        #[trigger] columns[j]@[i]).is_null()
}

/// Columns, by their contents.
pub open spec fn column_views(columns: Seq<Column>) -> Seq<Seq<CellView>> {
    columns.map_values(|c: Column| c@)
}

/// Builds an Arrow array from each column and calls `RecordBatch::try_new`, which accepts columns
/// that fit the schema: the table has the schema's fields and these columns.
#[verifier::external_body]
pub(crate) fn make_table(schema: Arc<Schema>, columns: Vec<Column>) -> (table: Table)
    requires
        columns_fit(schema_fields(*schema), columns@),
    ensures
        table_fields(table) == schema_fields(*schema),
        table_columns(table) == column_views(columns@),
{
    let arrays = columns.into_iter().map(|column| match column {
        Column::Text(values) => Arc::new(StringArray::from(values)) as ArrayRef,
        Column::U64(values) => Arc::new(UInt64Array::from(values)),
        Column::U32(values) => Arc::new(UInt32Array::from(values)),
        Column::U16(values) => Arc::new(UInt16Array::from(values)),
        Column::Flag(values) => Arc::new(BooleanArray::from(values)),
    });
    Table { batch: RecordBatch::try_new(schema, arrays.collect()).expect("columns fit") }
}

/// Whether a row has one cell for each field, of its kind, and lacks values only where it may.
pub open spec fn row_fits(row: Seq<CellView>, fields: Seq<FieldView>) -> bool {
    &&& row.len() == fields.len()
    &&& forall|j: int|
        0 <= j < row.len() ==> (#[trigger] row[j]).kind() == fields[j].kind && (row[j].is_null()
            ==> fields[j].nullable)
}

/// A record type that is written as rows of a table.
pub trait TableRow: Sized {
    /// The fields.
    spec fn field_list() -> Seq<FieldView>;

    /// The record's row.
    spec fn row(&self) -> Seq<CellView>;

    /// A bound on the bytes of the text in a cell.
    spec fn cell_bound(&self, j: int) -> nat;

    /// Rows fit the fields.
    proof fn lemma_row_fits(&self)
        ensures
            row_fits(self.row(), Self::field_list()),
    ;

    /// The fields.
    fn fields() -> (fields: Vec<FieldSpec>)
        ensures
            field_views(fields@) == Self::field_list(),
            fields@.len() > 0,
    ;

    /// The record's row.
    fn cells(&self) -> (cells: Vec<Cell>)
        ensures
            cell_views(cells@) == self.row(),
            forall|j: int|
                0 <= j < self.row().len() ==> (#[trigger] self.row()[j]).bytes()
                    <= self.cell_bound(j),
    ;
}

/// A bound on the bytes of the texts in column `j`.
pub open spec fn bound_total<T: TableRow>(records: Seq<T>, j: int) -> nat
    decreases records.len(),
{
    if records.len() == 0 {
        0
    } else {
        bound_total(records.drop_last(), j) + records.last().cell_bound(j)
    }
}

/// The columns hold the records' rows: column `j` of row `i` is cell `j` of record `i`.
pub open spec fn is_table_of<T: TableRow>(
    columns: Seq<Seq<CellView>>,
    records: Seq<T>,
) -> bool {
    &&& columns.len() == T::field_list().len()
    &&& forall|j: int|
        0 <= j < columns.len() ==> (#[trigger] columns[j]) == Seq::new(
            records.len(),
            |i: int| records[i].row()[j],
        )
}

proof fn lemma_bound_grows<T: TableRow>(records: Seq<T>, n: int, j: int)
    requires
        0 <= n <= records.len(),
    ensures
        bound_total(records.subrange(0, n), j) <= bound_total(records, j),
    decreases records.len() - n,
{
    if n == records.len() {
        assert(records.subrange(0, n) =~= records);
    } else {
        lemma_bound_grows(records, n + 1, j);
        assert(records.subrange(0, n + 1).drop_last() =~= records.subrange(0, n));
    }
}

/// The columns of the records' table.
fn columns_of<T: TableRow>(records: &[T]) -> (columns: Vec<Column>)
    requires
        forall|j: int|
            0 <= j < T::field_list().len() ==> #[trigger] bound_total(records@, j) <= i32::MAX,
    ensures
        columns_fit(T::field_list(), columns@),
        is_table_of(column_views(columns@), records@),
{
    let fields = T::fields();
    let ghost list = T::field_list();
    let width: usize = fields.len();
    let mut columns: Vec<Column> = Vec::new();
    while columns.len() < width
        invariant
            list == T::field_list(),
            width == fields@.len(),
            field_views(fields@) == list,
            columns@.len() <= width,
            forall|j: int|
                0 <= j < columns@.len() ==> (#[trigger] columns@[j]).kind() == list[j].kind
                    && columns@[j]@ == Seq::<CellView>::empty(),
        decreases width - columns@.len(),
    {
        let at: usize = columns.len();
        assert(list[at as int] == fields@[at as int]@);
        columns.push(Column::new(fields[at].kind));
    }
    let mut i: usize = 0;
    proof {
        assert forall|j: int| 0 <= j < width implies (#[trigger] columns@[j])@ == Seq::new(
            0nat,
            |k: int| records@[k].row()[j],
        ) by {
            assert(columns@[j]@ =~= Seq::new(0nat, |k: int| records@[k].row()[j]));
        }
    }
    while i < records.len()
        invariant
            list == T::field_list(),
            width == list.len(),
            width > 0,
            columns@.len() == width,
            i <= records@.len(),
            forall|j: int|
                0 <= j < width ==> (#[trigger] columns@[j]).kind() == list[j].kind && columns@[j]@
                    == Seq::new(i as nat, |k: int| records@[k].row()[j]) && column_bytes(
                    columns@[j]@,
                ) <= bound_total(records@.subrange(0, i as int), j),
        decreases records@.len() - i,
    {
        let mut cells = records[i].cells();
        let ghost row = records@[i as int].row();
        proof {
            records@[i as int].lemma_row_fits();
            assert(records@.subrange(0, i + 1).drop_last() =~= records@.subrange(0, i as int));
            assert(cells@.len() == row.len());
        }
        let ghost before = columns@;
        let mut left: usize = width;
        while left > 0
            invariant
                list == T::field_list(),
                width == list.len(),
                i < records@.len(),
                row == records@[i as int].row(),
                row_fits(row, list),
                left <= width,
                cells@.len() == left,
                forall|j: int| 0 <= j < left ==> (#[trigger] cells@[j])@ == row[j],
                columns@.len() == width,
                before.len() == width,
                forall|j: int| 0 <= j < width ==> (#[trigger] before[j]).kind() == list[j].kind,
                forall|j: int| 0 <= j < left ==> #[trigger] columns@[j] == before[j],
                forall|j: int|
                    left <= j < width ==> (#[trigger] columns@[j]).kind() == list[j].kind
                        && columns@[j]@ == before[j]@.push(row[j]),
            decreases left,
        {
            if let Some(cell) = cells.pop() {
                left = left - 1;
                let ghost held = columns@;
                assert(cell@ == row[left as int]);
                assert(columns@[left as int] == before[left as int]);
                columns[left].push(cell);
                assert(columns@[left as int]@ == before[left as int]@.push(row[left as int]));
                assert forall|j: int| left < j < width implies #[trigger] columns@[j]
                    == held[j] by {}
            }
        }
        proof {
            assert forall|j: int| 0 <= j < width implies (#[trigger] columns@[j]).kind()
                == list[j].kind && columns@[j]@ == Seq::new(
                (i + 1) as nat,
                |k: int| records@[k].row()[j],
            ) && column_bytes(columns@[j]@) <= bound_total(
                records@.subrange(0, i + 1),
                j,
            ) by {
                assert(before[j]@ == Seq::new(i as nat, |k: int| records@[k].row()[j]));
                assert(columns@[j]@ =~= Seq::new((i + 1) as nat, |k: int| records@[k].row()[j]));
                assert(columns@[j]@.drop_last() =~= before[j]@);
                assert(row[j].bytes() <= records@[i as int].cell_bound(j));
            }
        }
        i += 1;
    }
    proof {
        assert(records@.subrange(0, records@.len() as int) =~= records@);
        assert forall|j: int| 0 <= j < width implies column_bytes((#[trigger] columns@[j])@)
            <= i32::MAX by {
            assert(bound_total(records@, j) <= i32::MAX);
        }
        assert forall|j: int, k: int|
            0 <= j < columns@.len() && 0 <= k < columns@[j]@.len() && !list[j].nullable implies !(
        #[trigger] columns@[j]@[k]).is_null() by {
            records@[k].lemma_row_fits();
            assert(columns@[j]@[k] == records@[k].row()[j]);
        }
        assert forall|j: int| 0 <= j < columns@.len() implies (#[trigger] column_views(
            columns@,
        )[j]) == Seq::new(records@.len(), |k: int| records@[k].row()[j]) by {
            assert(columns@[j]@ == Seq::new(records@.len(), |k: int| records@[k].row()[j]));
        }
    }
    columns
}

/// A record type that is turned into Arrow tables.
pub trait IntoRecordBatch: TableRow {
    /// The schema of the table.
    fn arrow_schema() -> (schema: Arc<Schema>)
        ensures
            schema_fields(*schema) == Self::field_list(),
    {
        let fields = Self::fields();
        make_schema(&fields)
    }

    /// The records as a table: one row per record, in order.
    fn to_record_batch(records: &[Self]) -> (table: Table)
        requires
            forall|j: int|
                0 <= j < Self::field_list().len() ==> #[trigger] bound_total(records@, j)
                    <= i32::MAX,
        ensures
            table_fields(table) == Self::field_list(),
            is_table_of(table_columns(table), records@),
    {
        let columns = columns_of(records);
        make_table(Self::arrow_schema(), columns)
    }
}

} // verus!
