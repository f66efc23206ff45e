use crate::parse::ast::{LiteralValue, ValueV};
use crate::parse::token::bytes_eq;
use vstd::prelude::*;

verus! {

/// One cell: a value together with the name of the column it belongs
/// to.
#[derive(Debug)]
pub struct Column {
    data: LiteralValue,
    name: Vec<u8>,
}

/// Specification-level form of a cell.
pub struct ColumnV {
    pub data: ValueV,
    pub name: Seq<u8>,
}

impl View for Column {
    type V = ColumnV;

    closed spec fn view(&self) -> ColumnV {
        ColumnV { data: self.data@, name: self.name@ }
    }
}

impl DeepView for Column {
    type V = ColumnV;

    open spec fn deep_view(&self) -> ColumnV {
        self.view()
    }
}

impl ColumnV {
    /// The value it holds is well formed.
    pub open spec fn wf(self) -> bool {
        self.data.wf()
    }
}

impl Clone for Column {
    fn clone(&self) -> (r: Column)
        ensures
            r@ == self@,
    {
        Column { data: self.data.clone(), name: self.name.clone() }
    }
}

impl Column {
    /// A cell with value `data` under column `name`.
    pub fn new(data: LiteralValue, name: Vec<u8>) -> (r: Column)
        ensures
            r@ == (ColumnV { data: data@, name: name@ }),
    {
        Column { data, name }
    }

    /// The cell's value.
    pub fn data(&self) -> (r: &LiteralValue)
        ensures
            r@ == self@.data,
    {
        &self.data
    }

    /// The name of the column this cell belongs to.
    pub fn name(&self) -> (r: &Vec<u8>)
        ensures
            r@ == self@.name,
    {
        &self.name
    }
}

/// Every cell value of the sequence is well formed.
pub open spec fn cells_wf(cells: Seq<ColumnV>) -> bool {
    forall|i: int| 0 <= i < cells.len() ==> (#[trigger] cells[i]).wf()
}

/// The first cell of `cells` named `name`, if any.
pub open spec fn spec_find_cell(cells: Seq<ColumnV>, name: Seq<u8>) -> Option<ValueV>
    decreases cells.len(),
{
    if cells.len() == 0 {
        None
    } else if cells[0].name == name {
        Some(cells[0].data)
    } else {
        spec_find_cell(cells.skip(1), name)
    }
}

/// The first cell of `cells` named `name`.
pub fn find_cell<'a>(cells: &'a [Column], name: &[u8]) -> (r: Option<&'a LiteralValue>)
    ensures
        match r {
            Some(v) => spec_find_cell(cells.deep_view(), name@) == Some(v@) && (cells_wf(
                cells.deep_view(),
            ) ==> v@.wf()),
            None => spec_find_cell(cells.deep_view(), name@) is None,
        },
{
    let n = cells.len();
    let mut i: usize = 0;
    proof {
        assert(cells.deep_view().skip(0) =~= cells.deep_view());
    }
    while i < n
        invariant
            n == cells@.len(),
            i <= n,
            spec_find_cell(cells.deep_view(), name@) == spec_find_cell(
                cells.deep_view().skip(i as int),
                name@,
            ),
        decreases n - i,
    {
        proof {
            let rest = cells.deep_view().skip(i as int);
            assert(rest[0] == cells.deep_view()[i as int]);
            assert(rest.skip(1) =~= cells.deep_view().skip(i + 1));
        }
        if bytes_eq(cells[i].name().as_slice(), name) {
            proof {
                assert(cells.deep_view()[i as int] == cells@[i as int]@);
            }
            return Some(cells[i].data());
        }
        i = i + 1;
    }
    proof {
        assert(cells.deep_view().skip(n as int) =~= Seq::<ColumnV>::empty());
    }
    None
}

/// One stored row: the primary-key cell, and the remaining cells.
#[derive(Debug)]
pub struct Row {
    primary_key_col: Column,
    cols: Vec<Column>,
}

/// Specification-level form of a row.
pub struct RowV {
    pub primary_key_col: ColumnV,
    pub cols: Seq<ColumnV>,
}

impl View for Row {
    type V = RowV;

    closed spec fn view(&self) -> RowV {
        RowV { primary_key_col: self.primary_key_col@, cols: self.cols.deep_view() }
    }
}

impl DeepView for Row {
    type V = RowV;

    open spec fn deep_view(&self) -> RowV {
        self.view()
    }
}

impl RowV {
    /// Every cell value of the row is well formed.
    pub open spec fn wf(self) -> bool {
        &&& self.primary_key_col.wf()
        &&& forall|i: int| 0 <= i < self.cols.len() ==> (#[trigger] self.cols[i]).wf()
    }

    /// All cells of the row, the primary-key cell last.
    pub open spec fn all_cells(self) -> Seq<ColumnV> {
        self.cols + seq![self.primary_key_col]
    }

    /// The value of this row in the column `name`, if the row has a
    /// cell for it.
    pub open spec fn cell(self, name: Seq<u8>) -> Option<ValueV> {
        spec_find_cell(self.all_cells(), name)
    }

    /// The primary-key value of the row.
    pub open spec fn pk(self) -> ValueV {
        self.primary_key_col.data
    }
}

impl Clone for Row {
    fn clone(&self) -> (r: Row)
        ensures
            r@ == self@,
    {
        let r = Row { primary_key_col: self.primary_key_col.clone(), cols: clone_cells(&self.cols) };
        r
    }
}

/// An element-wise clone of a cell vector.
pub fn clone_cells(cells: &Vec<Column>) -> (r: Vec<Column>)
    ensures
        r.deep_view() == cells.deep_view(),
{
    let mut out: Vec<Column> = Vec::new();
    let n = cells.len();
    let mut i: usize = 0;
    while i < n
        invariant
            n == cells@.len(),
            i <= n,
            out.deep_view() == cells.deep_view().take(i as int),
        decreases n - i,
    {
        proof {
            assert(cells.deep_view().len() == cells@.len());
            assert(out.deep_view().len() == out@.len());
            assert(out@.len() == i);
        }
        out.push(cells[i].clone());
        proof {
            assert(out@.len() == i + 1);
            assert(out@[i as int]@ == cells@[i as int]@);
            assert(forall|k: int| 0 <= k <= i ==> out.deep_view()[k] == out@[k]@);
            assert(forall|k: int| 0 <= k < cells@.len() ==> cells.deep_view()[k] == cells@[k]@);
            assert(out.deep_view() =~= cells.deep_view().take((i + 1) as int));
        }
        i = i + 1;
    }
    proof {
        assert(cells.deep_view().take(n as int) =~= cells.deep_view());
    }
    out
}

impl Row {
    /// A row from its primary-key cell and its remaining cells.
    pub fn new(primary_key_col: Column, cols: Vec<Column>) -> (r: Row)
        ensures
            r@ == (RowV { primary_key_col: primary_key_col@, cols: cols.deep_view() }),
    {
        Row { primary_key_col, cols }
    }

    /// The primary-key cell.
    pub fn primary_key_col(&self) -> (r: &Column)
        ensures
            r@ == self@.primary_key_col,
    {
        &self.primary_key_col
    }

    /// The non-key cells.
    pub fn other_cols(&self) -> (r: &Vec<Column>)
        ensures
            r.deep_view() == self@.cols,
    {
        &self.cols
    }

    /// All cells of the row, the primary-key cell last.
    pub fn all_cols(&self) -> (r: Vec<Column>)
        ensures
            r.deep_view() == self@.all_cells(),
    {
        let mut out = clone_cells(&self.cols);
        out.push(self.primary_key_col.clone());
        proof {
            assert(out.deep_view() =~= self@.all_cells());
        }
        out
    }

    /// The row's values in the order of `names`, or `None` when some
    /// requested column has no cell in this row.
    pub fn cols(&self, names: &[Vec<u8>]) -> (r: Option<Vec<LiteralValue>>)
        ensures
            match r {
                Some(vals) => vals.deep_view().len() == names.deep_view().len() && forall|i: int|
                    0 <= i < names.deep_view().len() ==> self@.cell(
                        #[trigger] names.deep_view()[i],
                    ) == Some(vals.deep_view()[i]),
                None => exists|i: int|
                    0 <= i < names.deep_view().len() && self@.cell(
                        #[trigger] names.deep_view()[i],
                    ) is None,
            },
    {
        let all = self.all_cols();
        let all_slice = all.as_slice();
        proof {
            assert(all_slice.deep_view() =~= all.deep_view());
        }
        let mut out: Vec<LiteralValue> = Vec::new();
        let n = names.len();
        let mut i: usize = 0;
        while i < n
            invariant
                n == names@.len(),
                i <= n,
                all_slice.deep_view() == self@.all_cells(),
                out.deep_view().len() == i,
                forall|k: int|
                    0 <= k < i ==> self@.cell(#[trigger] names.deep_view()[k]) == Some(
                        out.deep_view()[k],
                    ),
            decreases n - i,
        {
            proof {
                assert(names.deep_view()[i as int] == names@[i as int]@);
            }
            match find_cell(all_slice, names[i].as_slice()) {
                Some(v) => {
                    proof {
                        assert(spec_find_cell(all_slice.deep_view(), names@[i as int]@) == Some(
                            v@,
                        ));
                        assert(self@.all_cells() == all_slice.deep_view());
                        assert(self@.cell(names@[i as int]@) == Some(v@));
                    }
                    let ghost prev = out.deep_view();
                    let cell = v.clone();
                    proof {
                        assert(cell@ == v@);
                        assert(out.deep_view().len() == out@.len());
                        assert(out@.len() == i);
                    }
                    out.push(cell);
                    proof {
                        assert(out@.len() == i + 1);
                        assert(forall|k: int| 0 <= k <= i ==> out.deep_view()[k] == out@[k]@);
                        assert(forall|k: int| 0 <= k < i ==> prev[k] == out@[k]@);
                        assert(out.deep_view()[i as int] == v@);
                        assert(self@.cell(names.deep_view()[i as int]) == Some(
                            out.deep_view()[i as int],
                        ));
                        assert(forall|k: int|
                            0 <= k < i ==> self@.cell(#[trigger] names.deep_view()[k]) == Some(
                                out.deep_view()[k],
                            ));
                    }
                },
                None => {
                    return None;
                },
            }
            i = i + 1;
        }
        Some(out)
    }
}


} // verus!
