//! Row-level mutations for the live table, and a mathematical model of the
//! sink that receives them: which rows exist, and what each cell holds, after
//! a sequence of operations is applied.

use vstd::prelude::*;

verus! {

/// One mutation of the externally visible table. The sink applies each
/// operation idempotently; `SetCell` carries the tick's timestamp and is
/// last-write-wins per cell.
pub enum RowOp {
    /// Establish the row addressed by `row`, with its display key.
    CreateRow { row: u64, key: String },
    /// Overwrite one cell of the row.
    SetCell { row: u64, col: u64, value: String, ts: u64 },
    /// Remove the row.
    DeleteRow { row: u64 },
}

/// The mathematical shape of a [`RowOp`]: strings become character
/// sequences so that contracts can speak of exact contents.
pub enum RowOpModel {
    CreateRow { row: u64, key: Seq<char> },
    SetCell { row: u64, col: u64, value: Seq<char>, ts: u64 },
    DeleteRow { row: u64 },
}

impl View for RowOp {
    type V = RowOpModel;

    open spec fn view(&self) -> RowOpModel {
        match self {
            RowOp::CreateRow { row, key } => RowOpModel::CreateRow { row: *row, key: key@ },
            RowOp::SetCell { row, col, value, ts } => RowOpModel::SetCell {
                row: *row,
                col: *col,
                value: value@,
                ts: *ts,
            },
            RowOp::DeleteRow { row } => RowOpModel::DeleteRow { row: *row },
        }
    }
}

/// The views of a sequence of operations, in order.
pub open spec fn ops_view(ops: Seq<RowOp>) -> Seq<RowOpModel> {
    ops.map_values(|op: RowOp| op@)
}

/// The set of existing row identities after the sink applies `ops` to a
/// table whose rows are `rows`.
pub open spec fn apply_rows(rows: Set<u64>, ops: Seq<RowOpModel>) -> Set<u64>
    decreases ops.len(),
{
    if ops.len() == 0 {
        rows
    } else {
        let rest = ops.drop_first();
        match ops.first() {
            RowOpModel::CreateRow { row, .. } => apply_rows(rows.insert(row), rest),
            RowOpModel::SetCell { .. } => apply_rows(rows, rest),
            RowOpModel::DeleteRow { row } => apply_rows(rows.remove(row), rest),
        }
    }
}

/// The cell contents after the sink applies `ops` to a table whose cells are
/// `cells`, keyed by row identity and column index. Only `SetCell` writes a
/// value; each write overwrites the previous one for its cell.
pub open spec fn apply_cells(
    cells: Map<(u64, u64), Seq<char>>,
    ops: Seq<RowOpModel>,
) -> Map<(u64, u64), Seq<char>>
    decreases ops.len(),
{
    if ops.len() == 0 {
        cells
    } else {
        let rest = ops.drop_first();
        match ops.first() {
            RowOpModel::SetCell { row, col, value, .. } => apply_cells(
                cells.insert((row, col), value),
                rest,
            ),
            _ => apply_cells(cells, rest),
        }
    }
}

/// How many times `ops` creates the row `id`.
pub open spec fn create_count(ops: Seq<RowOpModel>, id: u64) -> nat
    decreases ops.len(),
{
    if ops.len() == 0 {
        0
    } else {
        (if ops.first() matches RowOpModel::CreateRow { row, .. } && row == id {
            1nat
        } else {
            0nat
        }) + create_count(ops.drop_first(), id)
    }
}

/// How many times `ops` deletes the row `id`.
pub open spec fn delete_count(ops: Seq<RowOpModel>, id: u64) -> nat
    decreases ops.len(),
{
    if ops.len() == 0 {
        0
    } else {
        (if ops.first() matches RowOpModel::DeleteRow { row } && row == id {
            1nat
        } else {
            0nat
        }) + delete_count(ops.drop_first(), id)
    }
}

/// Holds when `ops` neither creates nor deletes any row: it only overwrites
/// cells.
pub open spec fn mutation_free(ops: Seq<RowOpModel>) -> bool {
    forall|i: int| 0 <= i < ops.len() ==> (#[trigger] ops[i]) matches RowOpModel::SetCell { .. }
}

/// Applying the operations of `a` followed by those of `b` reaches the same
/// row set as applying the concatenation.
pub proof fn lemma_apply_rows_concat(rows: Set<u64>, a: Seq<RowOpModel>, b: Seq<RowOpModel>)
    ensures
        apply_rows(rows, a + b) == apply_rows(apply_rows(rows, a), b),
    decreases a.len(),
{
    if a.len() == 0 {
        assert(a + b =~= b);
    } else {
        assert((a + b).drop_first() =~= a.drop_first() + b);
        match a.first() {
            RowOpModel::CreateRow { row, .. } => {
                lemma_apply_rows_concat(rows.insert(row), a.drop_first(), b);
            },
            RowOpModel::SetCell { .. } => {
                lemma_apply_rows_concat(rows, a.drop_first(), b);
            },
            RowOpModel::DeleteRow { row } => {
                lemma_apply_rows_concat(rows.remove(row), a.drop_first(), b);
            },
        }
    }
}

/// Applying the operations of `a` followed by those of `b` reaches the same
/// cell contents as applying the concatenation.
pub proof fn lemma_apply_cells_concat(
    cells: Map<(u64, u64), Seq<char>>,
    a: Seq<RowOpModel>,
    b: Seq<RowOpModel>,
)
    ensures
        apply_cells(cells, a + b) == apply_cells(apply_cells(cells, a), b),
    decreases a.len(),
{
    if a.len() == 0 {
        assert(a + b =~= b);
    } else {
        assert((a + b).drop_first() =~= a.drop_first() + b);
        match a.first() {
            RowOpModel::SetCell { row, col, value, .. } => {
                lemma_apply_cells_concat(cells.insert((row, col), value), a.drop_first(), b);
            },
            _ => {
                lemma_apply_cells_concat(cells, a.drop_first(), b);
            },
        }
    }
}

} // verus!
