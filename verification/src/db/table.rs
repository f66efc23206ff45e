use crate::db::column_header::{spec_hidden_header, ColumnHeader, DefaultOpt, DefaultV, HeaderV};
use crate::db::error::{DbErrV, DbError};
use crate::db::row::{cells_wf, spec_find_cell, Column, ColumnV, Row, RowV};
use crate::decimal::Decimal;
use crate::parse::ast::{
    lemma_value_lt_trans, lemma_value_lt_trichotomy, spec_eval, value_lt, LiteralValue, Ty,
    ValueV,
};
use crate::parse::token::bytes_eq;
use vstd::prelude::*;
use vstd::string::StringSliceAdditionalSpecFns;

verus! {

/// Specification-level form of a table: its headers in declaration
/// order and its rows in primary-key order.
pub struct TableV {
    pub col_headers: Seq<HeaderV>,
    pub rows: Seq<RowV>,
}

/// The first header of `hs` named `name`, if any.
pub open spec fn spec_find_header(hs: Seq<HeaderV>, name: Seq<u8>) -> Option<HeaderV>
    decreases hs.len(),
{
    if hs.len() == 0 {
        None
    } else if hs[0].name == name {
        Some(hs[0])
    } else {
        spec_find_header(hs.skip(1), name)
    }
}

/// `p` is the position of the one primary-key header.
pub open spec fn pk_at(hs: Seq<HeaderV>, p: int) -> bool {
    &&& 0 <= p < hs.len()
    &&& hs[p].is_primary_key
    &&& forall|k: int| 0 <= k < hs.len() && k != p ==> !(#[trigger] hs[k]).is_primary_key
}

/// Exactly one header carries the primary-key flag.
pub open spec fn one_pk(hs: Seq<HeaderV>) -> bool {
    exists|p: int| pk_at(hs, p)
}

/// The position of the primary-key header.
pub open spec fn pk_idx(hs: Seq<HeaderV>) -> int {
    choose|p: int| pk_at(hs, p)
}

/// Header names are pairwise distinct.
pub open spec fn names_unique(hs: Seq<HeaderV>) -> bool {
    forall|i: int, j: int|
        0 <= i < j < hs.len() ==> (#[trigger] hs[i]).name != (#[trigger] hs[j]).name
}

/// Rows are sorted strictly ascending by primary-key value.
pub open spec fn rows_sorted(rows: Seq<RowV>) -> bool {
    forall|i: int, j: int|
        0 <= i < j < rows.len() ==> value_lt((#[trigger] rows[i]).pk(), (#[trigger] rows[j]).pk())
}

/// The two rows hold different values in column `name`, counting only
/// rows that have a cell there with a non-null value.
pub open spec fn distinct_at(a: RowV, b: RowV, name: Seq<u8>) -> bool {
    match (a.cell(name), b.cell(name)) {
        (Some(x), Some(y)) => !(x is Null) && !(y is Null) ==> x != y,
        _ => true,
    }
}

impl TableV {
    /// No two rows share a non-null value in any unique column.
    pub open spec fn unique_ok(self) -> bool {
        forall|k: int, i: int, j: int|
            0 <= k < self.col_headers.len() && 0 <= i < self.rows.len() && 0 <= j
                < self.rows.len() && i != j && self.col_headers[k].unique ==> #[trigger] distinct_at(
                self.rows[i],
                self.rows[j],
                self.col_headers[k].name,
            )
    }

    /// The name of the primary-key column.
    pub open spec fn pk_name(self) -> Seq<u8> {
        self.col_headers[pk_idx(self.col_headers)].name
    }

    /// The table invariant: well-formed headers with distinct names
    /// and exactly one primary key; rows that are well formed, carry
    /// their primary-key cell under the primary-key column's name and
    /// only there, and stand sorted strictly ascending by primary-key
    /// value; and no duplicated value in any unique column.
    pub open spec fn wf(self) -> bool {
        &&& forall|i: int| 0 <= i < self.col_headers.len() ==> (#[trigger] self.col_headers[i]).wf()
        &&& names_unique(self.col_headers)
        &&& one_pk(self.col_headers)
        &&& forall|i: int| 0 <= i < self.rows.len() ==> (#[trigger] self.rows[i]).wf()
        &&& forall|i: int|
            0 <= i < self.rows.len() ==> (#[trigger] self.rows[i]).primary_key_col.name
                == self.pk_name()
        &&& forall|i: int|
            0 <= i < self.rows.len() ==> spec_find_cell(
                (#[trigger] self.rows[i]).cols,
                self.pk_name(),
            ) is None
        &&& rows_sorted(self.rows)
        &&& self.unique_ok()
    }
}

/// `rows` with `row` placed at its sorted position; a row whose
/// primary-key value is already present leaves the sequence unchanged.
pub open spec fn spec_insert_row(rows: Seq<RowV>, row: RowV) -> Seq<RowV>
    decreases rows.len(),
{
    if rows.len() == 0 {
        seq![row]
    } else if value_lt(row.pk(), rows[0].pk()) {
        seq![row] + rows
    } else if row.pk() == rows[0].pk() {
        rows
    } else {
        seq![rows[0]] + spec_insert_row(rows.skip(1), row)
    }
}

/// Some row of `rows` holds value `v` in column `name`.
pub open spec fn spec_has_value(rows: Seq<RowV>, name: Seq<u8>, v: ValueV) -> bool {
    exists|i: int| 0 <= i < rows.len() && (#[trigger] rows[i]).cell(name) == Some(v)
}

/// Validation of one appended cell against the table, in the order the
/// engine applies: the column must exist; a null value passes exactly
/// when the column is nullable, and skips the remaining checks; a
/// value already present in a unique column is rejected; the value
/// must fit the declared type; and any check expression must evaluate
/// to true against all the appended cells.
pub open spec fn spec_check_cell(t: TableV, cells: Seq<ColumnV>, c: ColumnV) -> Result<
    (),
    DbErrV,
> {
    match spec_find_header(t.col_headers, c.name) {
        None => Err(DbErrV::ColumnNotFound(c.name)),
        Some(h) => if c.data is Null {
            if h.not_null {
                Err(DbErrV::NotNullable(h.name))
            } else {
                Ok(())
            }
        } else if h.unique && spec_has_value(t.rows, h.name, c.data) {
            Err(DbErrV::NotUnique(h.name))
        } else if !c.data.matches_ty(h.ty) {
            Err(DbErrV::TypeMismatch(h.ty))
        } else {
            match h.check {
                Some(e) => match spec_eval(e, cells) {
                    Ok(v) => if v == ValueV::Bool(true) {
                        Ok(())
                    } else {
                        Err(DbErrV::CheckFailed(h.name))
                    },
                    Err(ev) => Err(DbErrV::Eval(ev)),
                },
                None => Ok(()),
            }
        },
    }
}

/// Validation of all appended cells, left to right; the first failure
/// wins.
pub open spec fn spec_check_cells(t: TableV, cells: Seq<ColumnV>, i: int) -> Result<(), DbErrV>
    decreases cells.len() - i when 0 <= i <= cells.len()
{
    if i == cells.len() {
        Ok(())
    } else {
        match spec_check_cell(t, cells, cells[i]) {
            Err(e) => Err(e),
            Ok(_) => spec_check_cells(t, cells, i + 1),
        }
    }
}

/// The cells of `cells` named `name`, in order.
pub open spec fn keep_named(cells: Seq<ColumnV>, name: Seq<u8>) -> Seq<ColumnV>
    decreases cells.len(),
{
    if cells.len() == 0 {
        Seq::empty()
    } else if cells[0].name == name {
        seq![cells[0]] + keep_named(cells.skip(1), name)
    } else {
        keep_named(cells.skip(1), name)
    }
}

/// The cells of `cells` not named `name`, in order.
pub open spec fn drop_named(cells: Seq<ColumnV>, name: Seq<u8>) -> Seq<ColumnV>
    decreases cells.len(),
{
    if cells.len() == 0 {
        Seq::empty()
    } else if cells[0].name != name {
        seq![cells[0]] + drop_named(cells.skip(1), name)
    } else {
        drop_named(cells.skip(1), name)
    }
}

/// What appending `cells` to table `t` yields: the validated table
/// with the assembled row placed at its sorted position (and the
/// primary-key counter advanced when it supplied the key), or the
/// first validation error.
pub open spec fn spec_append(t: TableV, cells: Seq<ColumnV>) -> Result<TableV, DbErrV>
    recommends
        t.wf(),
{
    match spec_check_cells(t, cells, 0) {
        Err(e) => Err(e),
        Ok(_) => {
            let p = pk_idx(t.col_headers);
            let pkname = t.col_headers[p].name;
            let pk_cells = keep_named(cells, pkname);
            let others = drop_named(cells, pkname);
            if pk_cells.len() == 0 {
                match t.col_headers[p].default {
                    DefaultV::Incrementing(ctr) => if ctr < u64::MAX {
                        let row = RowV {
                            primary_key_col: ColumnV {
                                data: ValueV::Number(Decimal { mantissa: ctr, scale: 0 }),
                                name: pkname,
                            },
                            cols: others,
                        };
                        let bumped = HeaderV {
                            default: DefaultV::Incrementing((ctr + 1) as u64),
                            ..t.col_headers[p]
                        };
                        Ok(
                            TableV {
                                col_headers: t.col_headers.update(p, bumped),
                                rows: spec_insert_row(t.rows, row),
                            },
                        )
                    } else {
                        Err(DbErrV::Internal)
                    },
                    _ => Err(DbErrV::MustSpecifyPrimaryKey),
                }
            } else if pk_cells.len() == 1 {
                let row = RowV { primary_key_col: pk_cells[0], cols: others };
                Ok(TableV { col_headers: t.col_headers, rows: spec_insert_row(t.rows, row) })
            } else {
                Err(DbErrV::Internal)
            }
        },
    }
}

/// What building a table from headers yields: the headers as given
/// when exactly one carries the primary-key flag, the headers plus the
/// implicit hidden `ID` column when none does, and an error otherwise
/// or when two headers share a name.
pub open spec fn spec_new_table(hs: Seq<HeaderV>) -> Result<TableV, DbErrV> {
    if !names_unique(hs) {
        Err(DbErrV::DuplicateColumns)
    } else if spec_pk_count(hs) == 0 {
        if exists|k: int| 0 <= k < hs.len() && (#[trigger] hs[k]).name == ("ID").spec_bytes() {
            Err(DbErrV::DuplicateColumns)
        } else {
            Ok(TableV { col_headers: hs.push(spec_hidden_header()), rows: Seq::empty() })
        }
    } else if spec_pk_count(hs) == 1 {
        Ok(TableV { col_headers: hs, rows: Seq::empty() })
    } else {
        Err(DbErrV::MultiplePrimaryKeys(spec_pk_count(hs) as u64))
    }
}

/// How many headers carry the primary-key flag.
pub open spec fn spec_pk_count(hs: Seq<HeaderV>) -> int
    decreases hs.len(),
{
    if hs.len() == 0 {
        0int
    } else {
        (if hs.last().is_primary_key {
            1int
        } else {
            0int
        }) + spec_pk_count(hs.drop_last())
    }
}

/// The visible (non-hidden) headers, in declaration order.
pub open spec fn spec_visible(hs: Seq<HeaderV>) -> Seq<HeaderV>
    decreases hs.len(),
{
    if hs.len() == 0 {
        Seq::empty()
    } else {
        let rest = spec_visible(hs.drop_last());
        if !hs.last().is_hidden {
            rest.push(hs.last())
        } else {
            rest
        }
    }
}

/// The first header of a slice named `name`.
pub fn find_header<'a>(hs: &'a [ColumnHeader], name: &[u8]) -> (r: Option<&'a ColumnHeader>)
    ensures
        match r {
            Some(h) => spec_find_header(hs.deep_view(), name@) == Some(h@) && ((forall|i: int|
                0 <= i < hs.deep_view().len() ==> (#[trigger] hs.deep_view()[i]).wf())
                ==> h@.wf()),
            None => spec_find_header(hs.deep_view(), name@) is None,
        },
{
    let n = hs.len();
    let mut i: usize = 0;
    proof {
        assert(hs.deep_view().skip(0) =~= hs.deep_view());
    }
    while i < n
        invariant
            n == hs@.len(),
            i <= n,
            spec_find_header(hs.deep_view(), name@) == spec_find_header(
                hs.deep_view().skip(i as int),
                name@,
            ),
        decreases n - i,
    {
        proof {
            let rest = hs.deep_view().skip(i as int);
            assert(rest[0] == hs.deep_view()[i as int]);
            assert(rest.skip(1) =~= hs.deep_view().skip(i + 1));
            assert(hs.deep_view()[i as int] == hs@[i as int]@);
        }
        if bytes_eq(hs[i].name().as_slice(), name) {
            return Some(&hs[i]);
        }
        i = i + 1;
    }
    proof {
        assert(hs.deep_view().skip(n as int) =~= Seq::<HeaderV>::empty());
    }
    None
}

/// Whether `v` fits a column of type `ty`.
pub fn value_matches_ty(v: &LiteralValue, ty: &Ty) -> (r: bool)
    ensures
        r == v@.matches_ty(*ty),
{
    match (v, ty) {
        (LiteralValue::String(_), Ty::String) => true,
        (LiteralValue::Number(_), Ty::Number) => true,
        (LiteralValue::Bool(_), Ty::Bool) => true,
        _ => false,
    }
}

/// An in-memory table: its column headers in declaration order and
/// its rows sorted ascending by primary-key value.
#[derive(Debug)]
pub struct Table {
    col_headers: Vec<ColumnHeader>,
    rows: Vec<Row>,
}

impl View for Table {
    type V = TableV;

    closed spec fn view(&self) -> TableV {
        TableV { col_headers: self.col_headers.deep_view(), rows: self.rows.deep_view() }
    }
}

impl DeepView for Table {
    type V = TableV;

    open spec fn deep_view(&self) -> TableV {
        self.view()
    }
}

impl Table {
    /// Builds a table from column headers, appending the implicit
    /// hidden `ID` column when no header carries the primary-key flag.
    pub fn try_from(cols: Vec<ColumnHeader>) -> (r: Result<Table, DbError>)
        ensures
            match r {
                Ok(t) => spec_new_table(cols.deep_view()) == Ok::<TableV, DbErrV>(t@),
                Err(e) => spec_new_table(cols.deep_view()) == Err::<TableV, DbErrV>(e@),
            },
    {
        let ghost hs = cols.deep_view();
        let n = cols.len();
        proof {
            assert(hs.len() == cols@.len());
            assert(forall|k: int| 0 <= k < n ==> hs[k] == cols@[k]@);
        }
        // reject duplicated column names
        let mut i: usize = 0;
        while i < n
            invariant
                n == cols@.len(),
                hs == cols.deep_view(),
                hs.len() == n,
                forall|k: int| 0 <= k < n ==> #[trigger] hs[k] == cols@[k]@,
                i <= n,
                forall|a: int, b: int| 0 <= a < b < n && a < i ==> hs[a].name != hs[b].name,
            decreases n - i,
        {
            let mut j: usize = i + 1;
            while j < n
                invariant
                    n == cols@.len(),
                    hs == cols.deep_view(),
                    hs.len() == n,
                    forall|k: int| 0 <= k < n ==> #[trigger] hs[k] == cols@[k]@,
                    i < j <= n,
                    forall|b: int| i < b < j ==> hs[i as int].name != hs[b].name,
                decreases n - j,
            {
                if bytes_eq(cols[i].name().as_slice(), cols[j].name().as_slice()) {
                    proof {
                        assert(hs[i as int].name == hs[j as int].name);
                        assert(!names_unique(hs)) by {
                            if names_unique(hs) {
                                assert((hs[i as int]).name != (hs[j as int]).name);
                            }
                        }
                    }
                    return Err(DbError::DuplicateColumns);
                }
                j = j + 1;
            }
            i = i + 1;
        }
        proof {
            assert(names_unique(hs));
        }
        // count primary keys
        let mut count: u64 = 0;
        let mut i: usize = 0;
        while i < n
            invariant
                n == cols@.len(),
                hs == cols.deep_view(),
                hs.len() == n,
                forall|k: int| 0 <= k < n ==> #[trigger] hs[k] == cols@[k]@,
                i <= n,
                count as int == spec_pk_count(hs.take(i as int)),
                count <= i,
            decreases n - i,
        {
            proof {
                assert(hs.take((i + 1) as int).drop_last() =~= hs.take(i as int));
                assert(hs.take((i + 1) as int).last() == hs[i as int]);
            }
            if cols[i].is_primary() {
                count = count + 1;
            }
            i = i + 1;
        }
        proof {
            assert(hs.take(n as int) =~= hs);
        }
        if count == 0 {
            // a declared column named like the implicit key would
            // collide with it
            let mut i: usize = 0;
            while i < n
                invariant
                    n == cols@.len(),
                    hs == cols.deep_view(),
                    hs.len() == n,
                    forall|k: int| 0 <= k < n ==> #[trigger] hs[k] == cols@[k]@,
                    names_unique(hs),
                    spec_pk_count(hs) == 0,
                    i <= n,
                    forall|k: int| 0 <= k < i ==> (#[trigger] hs[k]).name != ("ID").spec_bytes(),
                decreases n - i,
            {
                if bytes_eq(cols[i].name().as_slice(), ("ID").as_bytes()) {
                    proof {
                        assert(hs[i as int].name == ("ID").spec_bytes());
                    }
                    return Err(DbError::DuplicateColumns);
                }
                i = i + 1;
            }
            let mut col_headers = cols;
            col_headers.push(ColumnHeader::new_hidden());
            let rows_new: Vec<Row> = Vec::new();
            proof {
                assert(col_headers.deep_view() =~= hs.push(spec_hidden_header()));
                assert(rows_new.deep_view() =~= Seq::<RowV>::empty());
            }
            Ok(Table { col_headers, rows: rows_new })
        } else if count == 1 {
            let rows_new: Vec<Row> = Vec::new();
            proof {
                assert(rows_new.deep_view() =~= Seq::<RowV>::empty());
            }
            Ok(Table { col_headers: cols, rows: rows_new })
        } else {
            Err(DbError::MultiplePrimaryKeys(count))
        }
    }

    /// The stored rows, in primary-key order.
    pub fn rows(&self) -> (r: &Vec<Row>)
        ensures
            r.deep_view() == self@.rows,
    {
        &self.rows
    }

    /// The column headers, in declaration order.
    pub fn col_headers(&self) -> (r: &[ColumnHeader])
        ensures
            r.deep_view() == self@.col_headers,
    {
        let s = self.col_headers.as_slice();
        proof {
            assert(s.deep_view() =~= self@.col_headers);
        }
        s
    }

    /// Clones of the visible (non-hidden) headers, in order.
    pub fn visible_keys(&self) -> (r: Vec<ColumnHeader>)
        ensures
            r.deep_view() == spec_visible(self@.col_headers),
    {
        let mut out: Vec<ColumnHeader> = Vec::new();
        let n = self.col_headers.len();
        let mut i: usize = 0;
        proof {
            assert(self@.col_headers.take(0) =~= Seq::<HeaderV>::empty());
            assert(out.deep_view() =~= Seq::<HeaderV>::empty());
        }
        while i < n
            invariant
                n == self.col_headers@.len(),
                self@.col_headers.len() == n,
                forall|k: int|
                    0 <= k < n ==> #[trigger] self@.col_headers[k] == self.col_headers@[k]@,
                i <= n,
                out.deep_view() == spec_visible(self@.col_headers.take(i as int)),
            decreases n - i,
        {
            proof {
                assert(self@.col_headers.take((i + 1) as int).drop_last() =~= self@.col_headers.take(
                    i as int,
                ));
                assert(self@.col_headers.take((i + 1) as int).last() == self@.col_headers[i as int]);
            }
            let ghost before = out.deep_view();
            if !self.col_headers[i].is_hidden() {
                out.push(self.col_headers[i].clone());
                proof {
                    assert(out.deep_view() =~= before.push(self@.col_headers[i as int]));
                }
            }
            i = i + 1;
        }
        proof {
            assert(self@.col_headers.take(n as int) =~= self@.col_headers);
        }
        out
    }

    /// The position of the primary-key header.
    fn pk_index(&self) -> (r: usize)
        requires
            one_pk(self@.col_headers),
        ensures
            pk_at(self@.col_headers, r as int),
    {
        let ghost hs = self@.col_headers;
        let ghost p = pk_idx(hs);
        proof {
            assert(pk_at(hs, p));
        }
        let n = self.col_headers.len();
        let mut i: usize = 0;
        while i < n
            invariant
                n == self.col_headers@.len(),
                hs == self@.col_headers,
                hs.len() == n,
                forall|k: int| 0 <= k < n ==> #[trigger] hs[k] == self.col_headers@[k]@,
                pk_at(hs, p),
                i <= n,
                forall|k: int| 0 <= k < i ==> !(#[trigger] hs[k]).is_primary_key,
            decreases n - i,
        {
            if self.col_headers[i].is_primary() {
                proof {
                    assert(hs[i as int].is_primary_key);
                    assert(i as int == p);
                }
                return i;
            }
            i = i + 1;
        }
        proof {
            assert(!hs[p].is_primary_key);
            assert(false);
        }
        0
    }

    /// Whether some stored row holds `v` in column `name`.
    fn has_value(&self, name: &[u8], v: &LiteralValue) -> (r: bool)
        ensures
            r == spec_has_value(self@.rows, name@, v@),
    {
        let n = self.rows.len();
        let mut i: usize = 0;
        while i < n
            invariant
                n == self.rows@.len(),
                self@.rows.len() == n,
                forall|k: int| 0 <= k < n ==> #[trigger] self@.rows[k] == self.rows@[k]@,
                i <= n,
                forall|k: int| 0 <= k < i ==> (#[trigger] self@.rows[k]).cell(name@) != Some(v@),
            decreases n - i,
        {
            let all = self.rows[i].all_cols();
            let all_slice = all.as_slice();
            proof {
                assert(all_slice.deep_view() =~= all.deep_view());
            }
            match crate::db::row::find_cell(all_slice, name) {
                Some(x) => {
                    if crate::parse::ast::value_eq(x, v) {
                        proof {
                            assert(self@.rows[i as int].cell(name@) == Some(v@));
                        }
                        return true;
                    }
                },
                None => {},
            }
            i = i + 1;
        }
        false
    }
}

/// Under sortedness, the sorted position that a left-to-right scan
/// finds agrees with the recursive insertion: stopping at the first
/// index whose key is not below the new key either finds the key
/// already present or splits the sequence there.
pub proof fn lemma_insert_row_exec(rows: Seq<RowV>, row: RowV, i: int)
    requires
        rows_sorted(rows),
        row.pk().wf(),
        forall|k: int| 0 <= k < rows.len() ==> (#[trigger] rows[k]).pk().wf(),
        0 <= i <= rows.len(),
        forall|k: int| 0 <= k < i ==> value_lt((#[trigger] rows[k]).pk(), row.pk()),
        i < rows.len() ==> !value_lt(rows[i].pk(), row.pk()),
    ensures
        spec_insert_row(rows, row) == if i < rows.len() && rows[i].pk() == row.pk() {
            rows
        } else {
            rows.take(i) + seq![row] + rows.skip(i)
        },
    decreases i,
{
    if rows.len() == 0 {
        assert(rows.take(0) + seq![row] + rows.skip(0) =~= seq![row]);
    } else if i == 0 {
        if rows[0].pk() == row.pk() {
        } else {
            lemma_value_lt_trichotomy(row.pk(), rows[0].pk());
            assert(value_lt(row.pk(), rows[0].pk()));
            assert(rows.take(0) + seq![row] + rows.skip(0) =~= seq![row] + rows);
        }
    } else {
        assert(value_lt(rows[0].pk(), row.pk()));
        crate::parse::ast::lemma_value_lt_asym(rows[0].pk(), row.pk());
        crate::parse::ast::lemma_value_lt_irrefl(row.pk());
        assert(rows[0].pk() != row.pk());
        let rest = rows.skip(1);
        assert(rows_sorted(rest)) by {
            assert forall|a: int, b: int| 0 <= a < b < rest.len() implies value_lt(
                (#[trigger] rest[a]).pk(),
                (#[trigger] rest[b]).pk(),
            ) by {
                assert(rest[a] == rows[a + 1]);
                assert(rest[b] == rows[b + 1]);
            }
        }
        assert(forall|k: int| 0 <= k < rest.len() ==> (#[trigger] rest[k]).pk().wf());
        assert(forall|k: int| 0 <= k < i - 1 ==> value_lt((#[trigger] rest[k]).pk(), row.pk()));
        assert(i - 1 < rest.len() ==> !value_lt(rest[i - 1].pk(), row.pk()));
        lemma_insert_row_exec(rest, row, i - 1);
        if i < rows.len() && rows[i].pk() == row.pk() {
            assert(rest[i - 1].pk() == row.pk());
        } else {
            assert(seq![rows[0]] + (rest.take(i - 1) + seq![row] + rest.skip(i - 1)) =~= rows.take(
                i,
            ) + seq![row] + rows.skip(i));
        }
    }
}

impl Table {
    /// Places `row` at its sorted position; a row whose primary-key
    /// value is already stored leaves the table unchanged.
    fn insert_row(&mut self, row: Row)
        requires
            rows_sorted(old(self)@.rows),
            row@.pk().wf(),
            forall|k: int|
                0 <= k < old(self)@.rows.len() ==> (#[trigger] old(self)@.rows[k]).pk().wf(),
        ensures
            final(self)@.col_headers == old(self)@.col_headers,
            final(self)@.rows == spec_insert_row(old(self)@.rows, row@),
    {
        let ghost rs = self@.rows;
        let n = self.rows.len();
        proof {
            assert(rs.len() == self.rows@.len());
            assert(forall|k: int| 0 <= k < rs.len() ==> (#[trigger] self.rows@[k])@ == rs[k]);
        }
        let mut i: usize = 0;
        while i < n && crate::parse::ast::value_lt_exec(
            self.rows[i].primary_key_col().data(),
            row.primary_key_col().data(),
        )
            invariant
                n == self.rows@.len(),
                rs == self@.rows,
                rs.len() == n,
                forall|k: int| 0 <= k < n ==> #[trigger] rs[k] == self.rows@[k]@,
                rows_sorted(rs),
                row@.pk().wf(),
                forall|k: int| 0 <= k < n ==> (#[trigger] self.rows@[k])@.pk().wf(),
                i <= n,
                forall|k: int| 0 <= k < i ==> value_lt((#[trigger] rs[k]).pk(), row@.pk()),
            decreases n - i,
    {
            i = i + 1;
        }
        proof {
            lemma_insert_row_exec(rs, row@, i as int);
        }
        if i < n && crate::parse::ast::value_eq(
            self.rows[i].primary_key_col().data(),
            row.primary_key_col().data(),
        ) {
            // the primary-key value is already present: leave the rows
            // unchanged
        } else {
            let ghost before = self.rows.deep_view();
            self.rows.insert(i, row);
            proof {
                assert(self.rows@.len() == n + 1);
                assert(forall|k: int|
                    0 <= k <= n ==> #[trigger] self.rows.deep_view()[k] == self.rows@[k]@);
                assert(self.rows.deep_view() =~= rs.take(i as int) + seq![row@] + rs.skip(i as int));
            }
        }
    }

    /// Validates `cells` and appends the assembled row.
    ///
    /// Validation follows the order of [`spec_check_cell`]; on success
    /// the primary-key cell is split off (or, when absent, drawn from
    /// the key column's counter, which then advances) and the row is
    /// placed at its sorted position. A failed append leaves the table
    /// unchanged.
    pub fn append(&mut self, cells: Vec<Column>) -> (r: Result<(), DbError>)
        requires
            old(self)@.wf(),
            cells_wf(cells.deep_view()),
        ensures
            match r {
                Ok(_) => spec_append(old(self)@, cells.deep_view()) == Ok::<TableV, DbErrV>(
                    final(self)@,
                ),
                Err(e) => spec_append(old(self)@, cells.deep_view()) == Err::<TableV, DbErrV>(e@)
                    && final(self)@ == old(self)@,
            },
    {
        let ghost t0 = self@;
        let ghost cs = cells.deep_view();
        proof {
            assert(cs.len() == cells@.len());
            assert(forall|k: int| 0 <= k < cs.len() ==> #[trigger] cs[k] == cells@[k]@);
        }
        let n = cells.len();
        let mut i: usize = 0;
        while i < n
            invariant
                self@ == t0,
                t0.wf(),
                self.col_headers == old(self).col_headers,
                self.rows == old(self).rows,
                cells_wf(cs),
                cs == cells.deep_view(),
                n == cells@.len(),
                cs.len() == n,
                forall|k: int| 0 <= k < n ==> #[trigger] cs[k] == cells@[k]@,
                i <= n,
                spec_check_cells(t0, cs, 0) == spec_check_cells(t0, cs, i as int),
            decreases n - i,
        {
            let c = &cells[i];
            proof {
                assert(c@ == cs[i as int]);
            }
            let hs_slice = self.col_headers.as_slice();
            proof {
                assert(hs_slice.deep_view() =~= t0.col_headers);
            }
            match find_header(hs_slice, c.name().as_slice()) {
                None => {
                    return Err(DbError::ColumnNotFound(c.name().clone()));
                },
                Some(h) => {
                    proof {
                        assert(h@.wf());
                    }
                    let is_null = matches!(c.data(), LiteralValue::Null);
                    if is_null {
                        if h.not_null() {
                            return Err(DbError::NotNullable(h.name().clone()));
                        }
                    } else {
                        if h.unique() && self.has_value(h.name().as_slice(), c.data()) {
                            return Err(DbError::NotUnique(h.name().clone()));
                        }
                        if !value_matches_ty(c.data(), h.ty()) {
                            return Err(DbError::TypeMismatch(*h.ty()));
                        }
                        match h.check() {
                            Some(e) => {
                                let cells_arg = cells.as_slice();
                                proof {
                                    assert(cells_arg.deep_view() =~= cs);
                                }
                                match e.eval(cells_arg) {
                                    Ok(v) => {
                                        let is_true = matches!(v, LiteralValue::Bool(true));
                                        if !is_true {
                                            proof {
                                                assert(v@ != ValueV::Bool(true));
                                            }
                                            return Err(DbError::CheckFailed(h.name().clone()));
                                        }
                                    },
                                    Err(ev) => {
                                        return Err(DbError::Eval(ev));
                                    },
                                }
                            },
                            None => {},
                        }
                    }
                },
            }
            i = i + 1;
        }
        proof {
            assert(spec_check_cells(t0, cs, n as int) == Ok::<(), DbErrV>(()));
        }
        // split off the primary-key cell
        let p = self.pk_index();
        proof {
            assert(pk_at(t0.col_headers, pk_idx(t0.col_headers)));
            assert(p as int == pk_idx(t0.col_headers));
        }
        let pkname = self.col_headers[p].name().clone();
        let mut pk_cells: Vec<Column> = Vec::new();
        let mut others: Vec<Column> = Vec::new();
        let mut i: usize = 0;
        proof {
            assert(cs.skip(0) =~= cs);
            assert(pk_cells.deep_view() =~= Seq::<ColumnV>::empty());
            assert(others.deep_view() =~= Seq::<ColumnV>::empty());
        }
        while i < n
            invariant
                self@ == t0,
                self.col_headers == old(self).col_headers,
                self.rows == old(self).rows,
                cs == cells.deep_view(),
                n == cells@.len(),
                cs.len() == n,
                forall|k: int| 0 <= k < n ==> #[trigger] cs[k] == cells@[k]@,
                i <= n,
                pkname@ == t0.col_headers[pk_idx(t0.col_headers)].name,
                keep_named(cs, pkname@) == pk_cells.deep_view() + keep_named(
                    cs.skip(i as int),
                    pkname@,
                ),
                drop_named(cs, pkname@) == others.deep_view() + drop_named(
                    cs.skip(i as int),
                    pkname@,
                ),
            decreases n - i,
        {
            proof {
                let rest = cs.skip(i as int);
                assert(rest[0] == cs[i as int]);
                assert(rest.skip(1) =~= cs.skip(i + 1));
            }
            let ghost pk_before = pk_cells.deep_view();
            let ghost others_before = others.deep_view();
            if bytes_eq(cells[i].name().as_slice(), pkname.as_slice()) {
                pk_cells.push(cells[i].clone());
                proof {
                    assert(pk_cells.deep_view() =~= pk_before.push(cs[i as int]));
                    assert(pk_before + (seq![cs[i as int]] + keep_named(cs.skip(i + 1), pkname@))
                        =~= pk_cells.deep_view() + keep_named(cs.skip(i + 1), pkname@));
                }
            } else {
                others.push(cells[i].clone());
                proof {
                    assert(others.deep_view() =~= others_before.push(cs[i as int]));
                    assert(others_before + (seq![cs[i as int]] + drop_named(
                        cs.skip(i + 1),
                        pkname@,
                    )) =~= others.deep_view() + drop_named(cs.skip(i + 1), pkname@));
                }
            }
            i = i + 1;
        }
        proof {
            assert(cs.skip(n as int) =~= Seq::<ColumnV>::empty());
            assert(pk_cells.deep_view() + Seq::<ColumnV>::empty() =~= pk_cells.deep_view());
            assert(others.deep_view() + Seq::<ColumnV>::empty() =~= others.deep_view());
        }
        if pk_cells.len() == 0 {
            let ctr = match self.col_headers[p].default() {
                DefaultOpt::Incrementing(c0) => *c0,
                _ => {
                    return Err(DbError::MustSpecifyPrimaryKey);
                },
            };
            if ctr == u64::MAX {
                return Err(DbError::Internal);
            }
            // advance the key counter
            let mut h = self.col_headers.remove(p);
            let ghost hv0 = h@;
            let bumped = h.inc();
            self.col_headers.insert(p, h);
            proof {
                assert(self.col_headers.deep_view() =~= t0.col_headers.update(
                    p as int,
                    HeaderV {
                        default: DefaultV::Incrementing((ctr + 1) as u64),
                        ..t0.col_headers[p as int]
                    },
                ));
            }
            let row = Row::new(
                Column::new(LiteralValue::Number(Decimal::from_int(ctr)), pkname),
                others,
            );
            proof {
                lemma_rows_pks_wf(t0);
            }
            self.insert_row(row);
            Ok(())
        } else if pk_cells.len() == 1 {
            let pkc = pk_cells.remove(0);
            proof {
                assert(pkc@ == keep_named(cs, pkname@)[0]);
            }
            let row = Row::new(pkc, others);
            proof {
                lemma_rows_pks_wf(t0);
                lemma_keep_named_wf(cs, pkname@);
            }
            self.insert_row(row);
            Ok(())
        } else {
            Err(DbError::Internal)
        }
    }
}

/// In a well-formed table every stored primary-key value is well
/// formed.
pub proof fn lemma_rows_pks_wf(t: TableV)
    requires
        t.wf(),
    ensures
        forall|k: int| 0 <= k < t.rows.len() ==> (#[trigger] t.rows[k]).pk().wf(),
{
}

/// Cells filtered by name stay well formed.
pub proof fn lemma_keep_named_wf(cells: Seq<ColumnV>, name: Seq<u8>)
    requires
        cells_wf(cells),
    ensures
        cells_wf(keep_named(cells, name)),
        forall|k: int|
            0 <= k < keep_named(cells, name).len() ==> (#[trigger] keep_named(cells, name)[k]).name
                == name,
    decreases cells.len(),
{
    if cells.len() > 0 {
        assert(cells_wf(cells.skip(1)));
        lemma_keep_named_wf(cells.skip(1), name);
    }
}

/// Finding a cell in a concatenation looks left first.
#[verifier::rlimit(50)]
pub proof fn lemma_find_cell_concat(a: Seq<ColumnV>, c: ColumnV, name: Seq<u8>)
    ensures
        spec_find_cell(a + seq![c], name) == match spec_find_cell(a, name) {
            Some(v) => Some(v),
            None => if c.name == name {
                Some(c.data)
            } else {
                None
            },
        },
    decreases a.len(),
{
    let w = a + seq![c];
    if a.len() == 0 {
        assert(w =~= seq![c]);
        assert(w.len() == 1);
        assert(w[0] == c);
        assert(w.skip(1) =~= Seq::<ColumnV>::empty());
        if c.name == name {
            assert(spec_find_cell(w, name) == Some(c.data));
        } else {
            assert(spec_find_cell(w, name) == spec_find_cell(w.skip(1), name));
            assert(spec_find_cell(w, name) is None);
        }
    } else {
        assert(w[0] == a[0]);
        assert(w.skip(1) =~= a.skip(1) + seq![c]);
        lemma_find_cell_concat(a.skip(1), c, name);
        if a[0].name == name {
            assert(spec_find_cell(w, name) == Some(a[0].data));
            assert(spec_find_cell(a, name) == Some(a[0].data));
        } else {
            assert(spec_find_cell(w, name) == spec_find_cell(a.skip(1) + seq![c], name));
            assert(spec_find_cell(a, name) == spec_find_cell(a.skip(1), name));
        }
    }
}

/// Dropping cells of another name does not change what a lookup finds.
pub proof fn lemma_find_in_drop(cells: Seq<ColumnV>, pkname: Seq<u8>, name: Seq<u8>)
    requires
        name != pkname,
    ensures
        spec_find_cell(drop_named(cells, pkname), name) == spec_find_cell(cells, name),
    decreases cells.len(),
{
    if cells.len() > 0 {
        lemma_find_in_drop(cells.skip(1), pkname, name);
        if cells[0].name != pkname {
            let d = drop_named(cells, pkname);
            assert(d == seq![cells[0]] + drop_named(cells.skip(1), pkname));
            assert(d[0] == cells[0]);
            assert(d.skip(1) =~= drop_named(cells.skip(1), pkname));
        }
    }
}

/// No dropped-name cell survives the dropping.
pub proof fn lemma_drop_has_none(cells: Seq<ColumnV>, pkname: Seq<u8>)
    ensures
        spec_find_cell(drop_named(cells, pkname), pkname) is None,
        cells_wf(cells) ==> cells_wf(drop_named(cells, pkname)),
    decreases cells.len(),
{
    if cells.len() > 0 {
        assert(cells_wf(cells) ==> cells_wf(cells.skip(1)));
        lemma_drop_has_none(cells.skip(1), pkname);
        if cells[0].name != pkname {
            let d = drop_named(cells, pkname);
            assert(d == seq![cells[0]] + drop_named(cells.skip(1), pkname));
            assert(d[0] == cells[0]);
            assert(d.skip(1) =~= drop_named(cells.skip(1), pkname));
        }
    }
}

/// Every kept cell is one of the original cells.
pub proof fn lemma_keep_members(cells: Seq<ColumnV>, name: Seq<u8>)
    ensures
        forall|q: int|
            0 <= q < keep_named(cells, name).len() ==> exists|m: int|
                0 <= m < cells.len() && cells[m] == #[trigger] keep_named(cells, name)[q],
    decreases cells.len(),
{
    if cells.len() > 0 {
        lemma_keep_members(cells.skip(1), name);
        let kept = keep_named(cells, name);
        let rest = keep_named(cells.skip(1), name);
        assert forall|q: int| 0 <= q < kept.len() implies exists|m: int|
            0 <= m < cells.len() && cells[m] == #[trigger] kept[q] by {
            if cells[0].name == name {
                if q == 0 {
                    assert(kept[0] == cells[0]);
                } else {
                    assert(kept[q] == rest[q - 1]);
                    let m0 = choose|m0: int|
                        0 <= m0 < cells.skip(1).len() && cells.skip(1)[m0] == rest[q - 1];
                    assert(cells[m0 + 1] == kept[q]);
                }
            } else {
                assert(kept[q] == rest[q]);
                let m0 = choose|m0: int|
                    0 <= m0 < cells.skip(1).len() && cells.skip(1)[m0] == rest[q];
                assert(cells[m0 + 1] == kept[q]);
            }
        }
    }
}

/// A found cell is the first of the original cells with that name.
pub proof fn lemma_find_is_member(cells: Seq<ColumnV>, name: Seq<u8>)
    ensures
        spec_find_cell(cells, name) matches Some(v) ==> exists|m: int|
            0 <= m < cells.len() && (#[trigger] cells[m]).name == name && cells[m].data == v,
    decreases cells.len(),
{
    if cells.len() > 0 && cells[0].name != name {
        lemma_find_is_member(cells.skip(1), name);
        if spec_find_cell(cells, name) is Some {
            let v = spec_find_cell(cells, name)->Some_0;
            let m0 = choose|m0: int|
                0 <= m0 < cells.skip(1).len() && (#[trigger] cells.skip(1)[m0]).name == name
                    && cells.skip(1)[m0].data == v;
            assert((cells[m0 + 1]).name == name && cells[m0 + 1].data == v);
        }
    }
}

/// When the whole cell list validates, each single cell does.
pub proof fn lemma_check_all(t: TableV, cells: Seq<ColumnV>, i: int)
    requires
        0 <= i <= cells.len(),
        spec_check_cells(t, cells, i) is Ok,
    ensures
        forall|m: int| i <= m < cells.len() ==> #[trigger] spec_check_cell(t, cells, cells[m]) is Ok,
    decreases cells.len() - i,
{
    if i < cells.len() {
        lemma_check_all(t, cells, i + 1);
    }
}

/// With distinct names, looking a header up by a held name finds it.
pub proof fn lemma_find_header_of(hs: Seq<HeaderV>, k: int)
    requires
        names_unique(hs),
        0 <= k < hs.len(),
    ensures
        spec_find_header(hs, hs[k].name) == Some(hs[k]),
    decreases k,
{
    if k > 0 {
        assert(hs[0].name != hs[k].name);
        assert(names_unique(hs.skip(1))) by {
            assert(forall|a: int, b: int|
                0 <= a < b < hs.skip(1).len() ==> (#[trigger] hs.skip(1)[a]).name != (
                #[trigger] hs.skip(1)[b]).name);
        }
        assert(hs.skip(1)[k - 1] == hs[k]);
        lemma_find_header_of(hs.skip(1), k - 1);
    }
}

/// A row whose primary-key cell sits under `pkname`, with no other
/// cell of that name, answers a `pkname` lookup with its key.
pub proof fn lemma_cell_at_pk(row: RowV, pkname: Seq<u8>)
    requires
        row.primary_key_col.name == pkname,
        spec_find_cell(row.cols, pkname) is None,
    ensures
        row.cell(pkname) == Some(row.pk()),
{
    lemma_find_cell_concat(row.cols, row.primary_key_col, pkname);
}

/// The sorted insertion keeps rows sorted; its result is either the
/// unchanged sequence (the key was present) or has exactly the old
/// rows plus the new one, whose key was fresh.
pub proof fn lemma_insert_row_props(rows: Seq<RowV>, row: RowV)
    requires
        rows_sorted(rows),
        row.pk().wf(),
        forall|k: int| 0 <= k < rows.len() ==> (#[trigger] rows[k]).pk().wf(),
    ensures
        rows_sorted(spec_insert_row(rows, row)),
        spec_insert_row(rows, row) == rows || ((forall|n: int|
            0 <= n < rows.len() ==> (#[trigger] rows[n]).pk() != row.pk()) && spec_insert_row(
            rows,
            row,
        ).len() == rows.len() + 1),
        forall|m: int|
            0 <= m < spec_insert_row(rows, row).len() ==> #[trigger] spec_insert_row(rows, row)[m]
                == row || exists|n: int| 0 <= n < rows.len() && rows[n] == spec_insert_row(rows, row)[m],
    decreases rows.len(),
{
    let out = spec_insert_row(rows, row);
    if rows.len() == 0 {
        assert(out =~= seq![row]);
        assert(out[0] == row);
    } else if value_lt(row.pk(), rows[0].pk()) {
        assert(out =~= seq![row] + rows);
        assert forall|i: int, j: int| 0 <= i < j < out.len() implies value_lt(
            (#[trigger] out[i]).pk(),
            (#[trigger] out[j]).pk(),
        ) by {
            if i == 0 {
                assert(out[0] == row);
                assert(out[j] == rows[j - 1]);
                if j > 1 {
                    assert(value_lt(rows[0].pk(), rows[j - 1].pk()));
                    lemma_value_lt_trans(row.pk(), rows[0].pk(), rows[j - 1].pk());
                }
            } else {
                assert(out[i] == rows[i - 1]);
                assert(out[j] == rows[j - 1]);
            }
        }
        assert forall|n: int| 0 <= n < rows.len() implies (#[trigger] rows[n]).pk() != row.pk() by {
            if n > 0 {
                assert(value_lt(rows[0].pk(), rows[n].pk()));
                lemma_value_lt_trans(row.pk(), rows[0].pk(), rows[n].pk());
            }
            crate::parse::ast::lemma_value_lt_irrefl(rows[n].pk());
        }
        assert forall|m: int| 0 <= m < out.len() implies #[trigger] out[m] == row || exists|n: int|
            0 <= n < rows.len() && rows[n] == out[m] by {
            if m > 0 {
                assert(rows[m - 1] == out[m]);
            }
        }
    } else if row.pk() == rows[0].pk() {
    } else {
        crate::parse::ast::lemma_value_lt_trichotomy(row.pk(), rows[0].pk());
        assert(value_lt(rows[0].pk(), row.pk()));
        let rest = rows.skip(1);
        assert(rows_sorted(rest)) by {
            assert forall|a: int, b: int| 0 <= a < b < rest.len() implies value_lt(
                (#[trigger] rest[a]).pk(),
                (#[trigger] rest[b]).pk(),
            ) by {
                assert(rest[a] == rows[a + 1]);
                assert(rest[b] == rows[b + 1]);
            }
        }
        assert(forall|k: int| 0 <= k < rest.len() ==> (#[trigger] rest[k]).pk().wf());
        lemma_insert_row_props(rest, row);
        let sub = spec_insert_row(rest, row);
        assert(out == seq![rows[0]] + sub);
        // sortedness
        assert forall|i: int, j: int| 0 <= i < j < out.len() implies value_lt(
            (#[trigger] out[i]).pk(),
            (#[trigger] out[j]).pk(),
        ) by {
            if i == 0 {
                assert(out[j] == sub[j - 1]);
                if sub[j - 1] == row {
                    assert(value_lt(rows[0].pk(), row.pk()));
                } else {
                    let n = choose|n: int| 0 <= n < rest.len() && rest[n] == sub[j - 1];
                    assert(rest[n] == rows[n + 1]);
                    assert(value_lt(rows[0].pk(), rows[n + 1].pk()));
                }
            } else {
                assert(out[i] == sub[i - 1]);
                assert(out[j] == sub[j - 1]);
            }
        }
        // membership
        assert forall|m: int| 0 <= m < out.len() implies #[trigger] out[m] == row || exists|n: int|
            0 <= n < rows.len() && rows[n] == out[m] by {
            if m == 0 {
                assert(rows[0] == out[0]);
            } else {
                assert(out[m] == sub[m - 1]);
                if sub[m - 1] == row {
                } else {
                    let n = choose|n: int| 0 <= n < rest.len() && rest[n] == sub[m - 1];
                    assert(rows[n + 1] == out[m]);
                }
            }
        }
        // unchanged-or-fresh
        if sub == rest {
            assert(out =~= rows);
        } else {
            assert(forall|n: int| 0 <= n < rest.len() ==> (#[trigger] rest[n]).pk() != row.pk());
            assert forall|n: int| 0 <= n < rows.len() implies (#[trigger] rows[n]).pk()
                != row.pk() by {
                if n == 0 {
                    crate::parse::ast::lemma_value_lt_irrefl(row.pk());
                } else {
                    assert(rest[n - 1] == rows[n]);
                }
            }
        }
    }
}

/// Appending preserves the table invariant. In particular the rows
/// stay sorted strictly ascending by primary key, and no two rows
/// ever share a non-null value in a unique column.
pub proof fn lemma_append_wf(t: TableV, cells: Seq<ColumnV>)
    requires
        t.wf(),
        cells_wf(cells),
    ensures
        spec_append(t, cells) matches Ok(t2) ==> t2.wf(),
{
    if spec_append(t, cells) is Ok {
        let t2 = spec_append(t, cells)->Ok_0;
        let p = pk_idx(t.col_headers);
        assert(pk_at(t.col_headers, p));
        let pkname = t.col_headers[p].name;
        let pk_cells = keep_named(cells, pkname);
        let others = drop_named(cells, pkname);
        lemma_check_all(t, cells, 0);
        lemma_drop_has_none(cells, pkname);
        lemma_keep_named_wf(cells, pkname);
        lemma_keep_members(cells, pkname);
        // the appended row
        let row = if pk_cells.len() == 0 {
            let ctr = t.col_headers[p].default->Incrementing_0;
            RowV {
                primary_key_col: ColumnV {
                    data: ValueV::Number(Decimal { mantissa: ctr, scale: 0 }),
                    name: pkname,
                },
                cols: others,
            }
        } else {
            RowV { primary_key_col: pk_cells[0], cols: others }
        };
        let hs2 = t2.col_headers;
        assert(t2.rows == spec_insert_row(t.rows, row));
        // headers keep their names, flags and well-formedness
        assert(hs2.len() == t.col_headers.len());
        assert(forall|k: int|
            0 <= k < hs2.len() ==> (#[trigger] hs2[k]).name == t.col_headers[k].name && hs2[k].unique
                == t.col_headers[k].unique && hs2[k].is_primary_key
                == t.col_headers[k].is_primary_key);
        assert(forall|k: int| 0 <= k < hs2.len() ==> (#[trigger] hs2[k]).wf());
        assert(names_unique(hs2));
        assert(pk_at(hs2, p));
        assert(one_pk(hs2));
        assert(pk_idx(hs2) == p) by {
            let q = pk_idx(hs2);
            assert(pk_at(hs2, q));
            if q != p {
                assert(!hs2[q].is_primary_key);
            }
        }
        assert(t2.pk_name() == pkname);
        // the new row is well formed and keeps its key under the key name
        assert(row.primary_key_col.name == pkname);
        assert(spec_find_cell(row.cols, pkname) is None);
        if pk_cells.len() == 0 {
            let ctr = t.col_headers[p].default->Incrementing_0;
            assert(row.pk() == ValueV::Number(Decimal { mantissa: ctr, scale: 0 }));
            assert(row.pk().wf());
        } else {
            assert(pk_cells[0].wf());
        }
        assert(row.wf());
        lemma_rows_pks_wf(t);
        lemma_insert_row_props(t.rows, row);
        // the rows of the new table are the old rows, possibly with the
        // new row placed among them
        assert(rows_sorted(t2.rows));
        assert(forall|i: int| 0 <= i < t2.rows.len() ==> (#[trigger] t2.rows[i]).wf());
        assert(forall|i: int|
            0 <= i < t2.rows.len() ==> (#[trigger] t2.rows[i]).primary_key_col.name
                == t2.pk_name());
        assert(forall|i: int|
            0 <= i < t2.rows.len() ==> spec_find_cell(
                (#[trigger] t2.rows[i]).cols,
                t2.pk_name(),
            ) is None);
        // no duplicated value in a unique column
        assert forall|k: int, i: int, j: int|
            0 <= k < hs2.len() && 0 <= i < t2.rows.len() && 0 <= j < t2.rows.len() && i != j
                && hs2[k].unique implies #[trigger] distinct_at(
            t2.rows[i],
            t2.rows[j],
            hs2[k].name,
        ) by {
            let name = hs2[k].name;
            let a = t2.rows[i];
            let b = t2.rows[j];
            assert(value_lt(a.pk(), b.pk()) || value_lt(b.pk(), a.pk()));
            crate::parse::ast::lemma_value_lt_irrefl(a.pk());
            crate::parse::ast::lemma_value_lt_irrefl(b.pk());
            assert(a.pk() != b.pk());
            lemma_row_pair_distinct(t, cells, row, a, b, k);
        }
        assert(t2.unique_ok());
    }
}

/// Any two distinct rows of the table after an append are distinct in
/// every unique column: two old rows by the old invariant, and the new
/// row against an old one because its cells passed validation.
proof fn lemma_row_pair_distinct(
    t: TableV,
    cells: Seq<ColumnV>,
    row: RowV,
    a: RowV,
    b: RowV,
    k: int,
)
    requires
        t.wf(),
        cells_wf(cells),
        spec_append(t, cells) is Ok,
        0 <= k < t.col_headers.len(),
        t.col_headers[k].unique,
        row == spec_appended_row(t, cells),
        (row == a || exists|n: int| 0 <= n < t.rows.len() && t.rows[n] == a),
        (row == b || exists|n: int| 0 <= n < t.rows.len() && t.rows[n] == b),
        a.pk() != b.pk(),
    ensures
        distinct_at(a, b, t.col_headers[k].name),
{
    let name = t.col_headers[k].name;
    if a == row && b == row {
    } else if a != row && b != row {
        let na = choose|n: int| 0 <= n < t.rows.len() && t.rows[n] == a;
        let nb = choose|n: int| 0 <= n < t.rows.len() && t.rows[n] == b;
        assert(na != nb);
        assert(distinct_at(t.rows[na], t.rows[nb], name));
    } else {
        let new_row = if a == row {
            a
        } else {
            b
        };
        let old_row = if a == row {
            b
        } else {
            a
        };
        let no = choose|n: int| 0 <= n < t.rows.len() && t.rows[n] == old_row;
        lemma_new_row_distinct(t, cells, row, old_row, k);
        assert(distinct_at(row, old_row, name));
        assert(distinct_at(a, b, name)) by {
            lemma_distinct_sym(row, old_row, name);
        }
    }
}

/// Distinctness of two rows in a column is symmetric.
proof fn lemma_distinct_sym(a: RowV, b: RowV, name: Seq<u8>)
    requires
        distinct_at(a, b, name),
    ensures
        distinct_at(b, a, name),
{
}

/// The row an `Ok` append assembles.
pub open spec fn spec_appended_row(t: TableV, cells: Seq<ColumnV>) -> RowV {
    let p = pk_idx(t.col_headers);
    let pkname = t.col_headers[p].name;
    let pk_cells = keep_named(cells, pkname);
    let others = drop_named(cells, pkname);
    if pk_cells.len() == 0 {
        let ctr = t.col_headers[p].default->Incrementing_0;
        RowV {
            primary_key_col: ColumnV {
                data: ValueV::Number(Decimal { mantissa: ctr, scale: 0 }),
                name: pkname,
            },
            cols: others,
        }
    } else {
        RowV { primary_key_col: pk_cells[0], cols: others }
    }
}

/// The freshly assembled row is distinct from every stored row in any
/// unique column, because each of its validated cells was checked
/// against the stored rows (and its key, when counted, differs by
/// assumption on the keys).
proof fn lemma_new_row_distinct(t: TableV, cells: Seq<ColumnV>, row: RowV, old_row: RowV, k: int)
    requires
        t.wf(),
        cells_wf(cells),
        spec_append(t, cells) is Ok,
        row == spec_appended_row(t, cells),
        exists|n: int| 0 <= n < t.rows.len() && t.rows[n] == old_row,
        0 <= k < t.col_headers.len(),
        t.col_headers[k].unique,
        row.pk() != old_row.pk(),
    ensures
        distinct_at(row, old_row, t.col_headers[k].name),
{
    let p = pk_idx(t.col_headers);
    assert(pk_at(t.col_headers, p));
    let pkname = t.col_headers[p].name;
    let name = t.col_headers[k].name;
    let no = choose|n: int| 0 <= n < t.rows.len() && t.rows[n] == old_row;
    lemma_check_all(t, cells, 0);
    lemma_drop_has_none(cells, pkname);
    lemma_keep_named_wf(cells, pkname);
    if k == p {
        // the primary-key column: both lookups answer with the keys
        assert(row.primary_key_col.name == pkname);
        lemma_cell_at_pk(row, pkname);
        lemma_cell_at_pk(old_row, pkname);
    } else {
        assert(name != pkname) by {
            if k < p {
                assert((t.col_headers[k]).name != (t.col_headers[p]).name);
            } else {
                assert((t.col_headers[p]).name != (t.col_headers[k]).name);
            }
        }
        lemma_find_cell_concat(row.cols, row.primary_key_col, name);
        lemma_find_in_drop(cells, pkname, name);
        assert(row.cell(name) == spec_find_cell(cells, name));
        match spec_find_cell(cells, name) {
            None => {},
            Some(v) => {
                if !(v is Null) {
                    lemma_find_is_member(cells, name);
                    let m = choose|m: int|
                        0 <= m < cells.len() && (#[trigger] cells[m]).name == name && cells[m].data
                            == v;
                    assert(spec_check_cell(t, cells, cells[m]) is Ok);
                    lemma_find_header_of(t.col_headers, k);
                    assert(spec_find_header(t.col_headers, name) == Some(t.col_headers[k]));
                    assert(!spec_has_value(t.rows, name, v));
                    assert(old_row.cell(name) != Some(v)) by {
                        if old_row.cell(name) == Some(v) {
                            assert(t.rows[no].cell(name) == Some(v));
                        }
                    }
                }
            },
        }
    }
}

/// A null cell for a not-null column makes the whole append fail.
pub proof fn lemma_not_null_rejected(t: TableV, cells: Seq<ColumnV>, m: int)
    requires
        0 <= m < cells.len(),
        spec_find_header(t.col_headers, cells[m].name) matches Some(h) && h.not_null,
        cells[m].data is Null,
    ensures
        spec_append(t, cells) is Err,
{
    if spec_check_cells(t, cells, 0) is Ok {
        lemma_check_all(t, cells, 0);
        assert(spec_check_cell(t, cells, cells[m]) is Ok);
        assert(false);
    }
}

/// How many primary keys a prefix holds; one in the whole sequence
/// pins the position down.
pub proof fn lemma_pk_count_one(hs: Seq<HeaderV>)
    requires
        spec_pk_count(hs) == 1,
    ensures
        one_pk(hs),
    decreases hs.len(),
{
    lemma_pk_count_nonneg(hs.drop_last());
    if hs.last().is_primary_key {
        assert(spec_pk_count(hs.drop_last()) == 0);
        lemma_pk_count_zero(hs.drop_last());
        assert(pk_at(hs, hs.len() - 1)) by {
            assert(forall|k: int|
                0 <= k < hs.len() - 1 ==> #[trigger] hs[k] == hs.drop_last()[k]);
        }
    } else {
        lemma_pk_count_one(hs.drop_last());
        let p = choose|p: int| pk_at(hs.drop_last(), p);
        assert(pk_at(hs, p)) by {
            assert(forall|k: int|
                0 <= k < hs.len() - 1 ==> #[trigger] hs[k] == hs.drop_last()[k]);
            assert(hs.drop_last()[p] == hs[p]);
        }
    }
}

pub proof fn lemma_pk_count_nonneg(hs: Seq<HeaderV>)
    ensures
        spec_pk_count(hs) >= 0,
    decreases hs.len(),
{
    if hs.len() > 0 {
        lemma_pk_count_nonneg(hs.drop_last());
    }
}

/// No primary key in the count means none anywhere.
pub proof fn lemma_pk_count_zero(hs: Seq<HeaderV>)
    requires
        spec_pk_count(hs) == 0,
    ensures
        forall|k: int| 0 <= k < hs.len() ==> !(#[trigger] hs[k]).is_primary_key,
    decreases hs.len(),
{
    if hs.len() > 0 {
        lemma_pk_count_nonneg(hs.drop_last());
        lemma_pk_count_zero(hs.drop_last());
        assert(forall|k: int| 0 <= k < hs.len() - 1 ==> #[trigger] hs[k] == hs.drop_last()[k]);
    }
}

/// A freshly built table satisfies the table invariant.
pub proof fn lemma_new_table_wf(hs: Seq<HeaderV>)
    requires
        forall|i: int| 0 <= i < hs.len() ==> (#[trigger] hs[i]).wf(),
        spec_new_table(hs) is Ok,
    ensures
        spec_new_table(hs)->Ok_0.wf(),
{
    let t = spec_new_table(hs)->Ok_0;
    if spec_pk_count(hs) == 0 {
        lemma_pk_count_zero(hs);
        assert(forall|k: int| 0 <= k < hs.len() ==> (#[trigger] hs[k]).name != ("ID").spec_bytes());
        let hs2 = hs.push(spec_hidden_header());
        assert(hs2.last() == spec_hidden_header());
        assert(pk_at(hs2, hs.len() as int)) by {
            assert(forall|k: int| 0 <= k < hs.len() ==> #[trigger] hs2[k] == hs[k]);
        }
        assert(one_pk(hs2));
        assert(spec_hidden_header().wf());
        assert(forall|i: int| 0 <= i < hs2.len() ==> (#[trigger] hs2[i]).wf()) by {
            assert(forall|k: int| 0 <= k < hs.len() ==> #[trigger] hs2[k] == hs[k]);
        }
        assert(names_unique(hs2));
    } else {
        lemma_pk_count_one(hs);
    }
}

/// The shape the implicit auto-keyed table keeps: the key counter
/// equals the number of rows, and the stored keys are exactly
/// `0, 1, ...` in insertion order.
pub open spec fn auto_ids(t: TableV) -> bool {
    &&& t.rows.len() <= u64::MAX
    &&& t.col_headers[pk_idx(t.col_headers)].default == DefaultV::Incrementing(
        t.rows.len() as u64,
    )
    &&& forall|i: int|
        0 <= i < t.rows.len() ==> (#[trigger] t.rows[i]).pk() == ValueV::Number(
            Decimal { mantissa: i as u64, scale: 0 },
        )
}

/// Appending with the primary key omitted to an auto-keyed table
/// assigns the next counter value as the key and appends the row at
/// the end: after `N` such appends the keys read `0` to `N - 1` in
/// insertion order.
pub proof fn lemma_auto_ids_step(t: TableV, cells: Seq<ColumnV>)
    requires
        t.wf(),
        auto_ids(t),
        keep_named(cells, t.pk_name()).len() == 0,
        spec_append(t, cells) is Ok,
    ensures
        ({
            let t2 = spec_append(t, cells)->Ok_0;
            auto_ids(t2) && t2.rows == t.rows.push(spec_appended_row(t, cells))
                && spec_appended_row(t, cells).pk() == ValueV::Number(
                Decimal { mantissa: t.rows.len() as u64, scale: 0 },
            )
        }),
{
    let t2 = spec_append(t, cells)->Ok_0;
    let p = pk_idx(t.col_headers);
    assert(pk_at(t.col_headers, p));
    let n = t.rows.len();
    let row = spec_appended_row(t, cells);
    assert(row.pk() == ValueV::Number(Decimal { mantissa: n as u64, scale: 0 }));
    assert forall|k: int| 0 <= k < n implies value_lt((#[trigger] t.rows[k]).pk(), row.pk()) by {
        assert(t.rows[k].pk() == ValueV::Number(Decimal { mantissa: k as u64, scale: 0 }));
        let a = Decimal { mantissa: k as u64, scale: 0 };
        let b = Decimal { mantissa: n as u64, scale: 0 };
        crate::decimal::lemma_pow10_pos((crate::decimal::MAX_SCALE) as nat);
        vstd::arithmetic::mul::lemma_mul_strict_inequality(
            k as u64 as int,
            n as u64 as int,
            crate::decimal::pow10((crate::decimal::MAX_SCALE) as nat),
        );
        assert(a.scaled() < b.scaled());
    }
    lemma_rows_pks_wf(t);
    lemma_insert_row_exec(t.rows, row, n as int);
    assert(t2.rows == t.rows.take(n as int) + seq![row] + t.rows.skip(n as int));
    assert(t2.rows =~= t.rows.push(row));
    // the counter advanced with the row count
    assert(pk_at(t2.col_headers, p));
    assert(pk_idx(t2.col_headers) == p) by {
        let q = pk_idx(t2.col_headers);
        assert(pk_at(t2.col_headers, q));
        if q != p {
            assert(!t2.col_headers[q].is_primary_key);
        }
    }
    assert(t2.col_headers[p].default == DefaultV::Incrementing((n + 1) as u64));
    assert forall|i: int| 0 <= i < t2.rows.len() implies (#[trigger] t2.rows[i]).pk()
        == ValueV::Number(Decimal { mantissa: i as u64, scale: 0 }) by {
        if i < n {
            assert(t2.rows[i] == t.rows[i]);
        } else {
            assert(t2.rows[i] == row);
        }
    }
}

/// The headers with the counter of the first column named `name`
/// advanced, when that column holds a counter below its top.
pub open spec fn spec_bump(hs: Seq<HeaderV>, name: Seq<u8>) -> Seq<HeaderV>
    decreases hs.len(),
{
    if hs.len() == 0 {
        hs
    } else if hs[0].name == name {
        match hs[0].default {
            DefaultV::Incrementing(i) => if i < u64::MAX {
                seq![HeaderV { default: DefaultV::Incrementing((i + 1) as u64), ..hs[0] }]
                    + hs.skip(1)
            } else {
                hs
            },
            _ => hs,
        }
    } else {
        seq![hs[0]] + spec_bump(hs.skip(1), name)
    }
}

/// Bumping a counter touches nothing but that default.
pub proof fn lemma_bump_props(hs: Seq<HeaderV>, name: Seq<u8>)
    ensures
        spec_bump(hs, name).len() == hs.len(),
        forall|k: int|
            0 <= k < hs.len() ==> (#[trigger] spec_bump(hs, name)[k]).name == hs[k].name
                && spec_bump(hs, name)[k].unique == hs[k].unique && spec_bump(hs, name)[k].is_primary_key
                == hs[k].is_primary_key && spec_bump(hs, name)[k].is_hidden == hs[k].is_hidden
                && spec_bump(hs, name)[k].not_null == hs[k].not_null && spec_bump(hs, name)[k].ty
                == hs[k].ty && spec_bump(hs, name)[k].check == hs[k].check && (hs[k].wf()
                ==> spec_bump(hs, name)[k].wf()),
    decreases hs.len(),
{
    if hs.len() > 0 && hs[0].name != name {
        lemma_bump_props(hs.skip(1), name);
        let out = spec_bump(hs, name);
        assert(out == seq![hs[0]] + spec_bump(hs.skip(1), name));
        assert forall|k: int| 0 <= k < hs.len() implies (#[trigger] out[k]).name == hs[k].name
            && out[k].unique == hs[k].unique && out[k].is_primary_key == hs[k].is_primary_key
            && out[k].is_hidden == hs[k].is_hidden && out[k].not_null == hs[k].not_null
            && out[k].ty == hs[k].ty && out[k].check == hs[k].check && (hs[k].wf()
            ==> out[k].wf()) by {
            if k > 0 {
                assert(out[k] == spec_bump(hs.skip(1), name)[k - 1]);
                assert(hs.skip(1)[k - 1] == hs[k]);
            }
        }
    }
}

/// Bumping a counter preserves the table invariant.
pub proof fn lemma_bump_wf(t: TableV, name: Seq<u8>)
    requires
        t.wf(),
    ensures
        (TableV { col_headers: spec_bump(t.col_headers, name), rows: t.rows }).wf(),
{
    lemma_bump_props(t.col_headers, name);
    let hs2 = spec_bump(t.col_headers, name);
    let t2 = TableV { col_headers: hs2, rows: t.rows };
    let p = pk_idx(t.col_headers);
    assert(pk_at(t.col_headers, p));
    assert(pk_at(hs2, p));
    assert(pk_idx(hs2) == p) by {
        let q = pk_idx(hs2);
        assert(pk_at(hs2, q));
        if q != p {
            assert(!hs2[q].is_primary_key);
        }
    }
    assert(t2.pk_name() == t.pk_name());
    assert forall|k: int, i: int, j: int|
        0 <= k < hs2.len() && 0 <= i < t2.rows.len() && 0 <= j < t2.rows.len() && i != j
            && hs2[k].unique implies #[trigger] distinct_at(
        t2.rows[i],
        t2.rows[j],
        hs2[k].name,
    ) by {
        assert(distinct_at(t.rows[i], t.rows[j], t.col_headers[k].name));
    }
}

impl Table {
    /// Advances the counter of the first column named `name`, when it
    /// holds one.
    pub fn bump_default(&mut self, name: &[u8])
        ensures
            final(self)@.col_headers == spec_bump(old(self)@.col_headers, name@),
            final(self)@.rows == old(self)@.rows,
    {
        let n = self.col_headers.len();
        let ghost hs = self@.col_headers;
        let mut i: usize = 0;
        proof {
            assert(hs.skip(0) =~= hs);
            assert(hs.take(0) + spec_bump(hs, name@) =~= spec_bump(hs, name@));
        }
        while i < n
            invariant
                n == self.col_headers@.len(),
                hs == self@.col_headers,
                hs.len() == n,
                self.col_headers == old(self).col_headers,
                self.rows == old(self).rows,
                forall|k: int| 0 <= k < n ==> #[trigger] hs[k] == self.col_headers@[k]@,
                i <= n,
                spec_bump(hs, name@) == hs.take(i as int) + spec_bump(hs.skip(i as int), name@),
                forall|k: int| 0 <= k < i ==> (#[trigger] hs[k]).name != name@,
            decreases n - i,
        {
            proof {
                let rest = hs.skip(i as int);
                assert(rest[0] == hs[i as int]);
                assert(rest.skip(1) =~= hs.skip(i + 1));
            }
            if bytes_eq(self.col_headers[i].name().as_slice(), name) {
                let mut h = self.col_headers.remove(i);
                let _ = h.inc();
                self.col_headers.insert(i, h);
                proof {
                    let rest = hs.skip(i as int);
                    match hs[i as int].default {
                        DefaultV::Incrementing(c0) => {
                            if c0 < u64::MAX {
                                assert(spec_bump(rest, name@) =~= seq![
                                    HeaderV {
                                        default: DefaultV::Incrementing((c0 + 1) as u64),
                                        ..hs[i as int]
                                    },
                                ] + hs.skip(i + 1));
                                assert(self.col_headers.deep_view() =~= hs.take(i as int)
                                    + spec_bump(rest, name@));
                            } else {
                                assert(spec_bump(rest, name@) == rest);
                                assert(hs.take(i as int) + rest =~= hs);
                                assert(self.col_headers.deep_view() =~= hs);
                            }
                        },
                        _ => {
                            assert(spec_bump(rest, name@) == rest);
                            assert(hs.take(i as int) + rest =~= hs);
                            assert(self.col_headers.deep_view() =~= hs);
                        },
                    }
                }
                return ;
            }
            proof {
                assert(hs.take((i + 1) as int) =~= hs.take(i as int) + seq![hs[i as int]]);
                assert(hs.take(i as int) + (seq![hs[i as int]] + spec_bump(hs.skip(i + 1), name@))
                    =~= hs.take((i + 1) as int) + spec_bump(hs.skip(i + 1), name@));
            }
            i = i + 1;
        }
        proof {
            assert(hs.skip(n as int) =~= Seq::<HeaderV>::empty());
            assert(spec_bump(hs.skip(n as int), name@) =~= Seq::<HeaderV>::empty());
            assert(hs.take(n as int) + Seq::<HeaderV>::empty() =~= hs);
        }
    }
}

/// In a well-formed table the stored rows always stand sorted
/// strictly ascending by primary-key value, so iterating them yields
/// every appended row in key order.
pub proof fn lemma_wf_rows_sorted(t: TableV)
    requires
        t.wf(),
    ensures
        rows_sorted(t.rows),
        forall|i: int, j: int|
            0 <= i < j < t.rows.len() ==> value_lt(
                (#[trigger] t.rows[i]).pk(),
                (#[trigger] t.rows[j]).pk(),
            ),
{
}

/// In a well-formed table no two rows share a non-null value in any
/// unique column.
pub proof fn lemma_wf_unique_distinct(t: TableV, k: int, i: int, j: int)
    requires
        t.wf(),
        0 <= k < t.col_headers.len(),
        t.col_headers[k].unique,
        0 <= i < t.rows.len(),
        0 <= j < t.rows.len(),
        i != j,
    ensures
        distinct_at(t.rows[i], t.rows[j], t.col_headers[k].name),
{
}

/// A table built without a declared primary key starts as an
/// auto-keyed table: counter at zero, no rows.
pub proof fn lemma_new_table_auto_ids(hs: Seq<HeaderV>)
    requires
        spec_pk_count(hs) == 0,
        spec_new_table(hs) is Ok,
    ensures
        auto_ids(spec_new_table(hs)->Ok_0),
{
    let t = spec_new_table(hs)->Ok_0;
    let hs2 = hs.push(spec_hidden_header());
    lemma_pk_count_zero(hs);
    assert(pk_at(hs2, hs.len() as int)) by {
        assert(forall|k: int| 0 <= k < hs.len() ==> #[trigger] hs2[k] == hs[k]);
    }
    assert(pk_idx(hs2) == hs.len() as int) by {
        assert(one_pk(hs2));
        let q = pk_idx(hs2);
        assert(pk_at(hs2, q));
        if q != hs.len() as int {
            assert(!hs2[q].is_primary_key);
        }
    }
    assert(hs2[hs.len() as int] == spec_hidden_header());
}

} // verus!
