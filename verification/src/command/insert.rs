use crate::command::error::{CmdErrV, CmdError};
use crate::command::select::{idents_of, spec_idents};
use crate::connection::frame::{Frame, FrameV};
use crate::db::catalog::{spec_lookup, Db, DbV};
use crate::db::column_header::{ColumnHeader, DefaultOpt, DefaultV, HeaderV};
use crate::db::row::{cells_wf, Column, ColumnV};
use crate::db::table::{
    find_header, lemma_append_wf, lemma_bump_wf, spec_append, spec_bump, spec_find_header,
    spec_visible, Table, TableV,
};
use crate::decimal::Decimal;
use crate::parse::ast::{rows_wf, values_wf, LiteralValue, Tokens, TokensV, ValueV};
use crate::parse::token::{bytes_eq, Token, TokenV};
use vstd::prelude::*;
use vstd::string::StringSliceAdditionalSpecFns;

verus! {

/// The cell an omitted column receives: the null value, the literal
/// default, or the counter's current value.
pub open spec fn spec_default_cell(h: HeaderV) -> ColumnV {
    ColumnV {
        name: h.name,
        data: match h.default {
            DefaultV::Absent => ValueV::Null,
            DefaultV::Literal(v) => v,
            DefaultV::Incrementing(i) => ValueV::Number(Decimal { mantissa: i, scale: 0 }),
        },
    }
}

/// The default cells of the given headers, in order.
pub open spec fn spec_default_cells(hs: Seq<HeaderV>) -> Seq<ColumnV>
    decreases hs.len(),
{
    if hs.len() == 0 {
        Seq::empty()
    } else {
        seq![spec_default_cell(hs[0])] + spec_default_cells(hs.skip(1))
    }
}

/// Default cells go pointwise.
pub proof fn lemma_default_cells_props(hs: Seq<HeaderV>)
    ensures
        spec_default_cells(hs).len() == hs.len(),
        forall|i: int|
            0 <= i < hs.len() ==> #[trigger] spec_default_cells(hs)[i] == spec_default_cell(hs[i]),
    decreases hs.len(),
{
    if hs.len() > 0 {
        lemma_default_cells_props(hs.skip(1));
        let out = spec_default_cells(hs);
        assert forall|i: int| 0 <= i < hs.len() implies #[trigger] out[i] == spec_default_cell(
            hs[i],
        ) by {
            if i > 0 {
                assert(out[i] == spec_default_cells(hs.skip(1))[i - 1]);
                assert(hs.skip(1)[i - 1] == hs[i]);
            }
        }
    }
}

/// The names of the counter-defaulted headers, in order; their
/// counters advance once the row is stored.
pub open spec fn spec_inc_names(hs: Seq<HeaderV>) -> Seq<Seq<u8>>
    decreases hs.len(),
{
    if hs.len() == 0 {
        Seq::empty()
    } else if hs[0].default is Incrementing {
        seq![hs[0].name] + spec_inc_names(hs.skip(1))
    } else {
        spec_inc_names(hs.skip(1))
    }
}

/// The header an explicitly listed but valueless column falls back
/// on.
pub open spec fn spec_header_for(hs: Seq<HeaderV>, name: Seq<u8>) -> HeaderV {
    match spec_find_header(hs, name) {
        Some(h) => h,
        None => HeaderV {
            name,
            is_primary_key: false,
            is_hidden: false,
            not_null: false,
            unique: false,
            default: DefaultV::Absent,
            check: None,
            ty: crate::parse::ast::Ty::String,
        },
    }
}

/// Whether some header of `hs` is named `name`.
pub open spec fn spec_has_header(hs: Seq<HeaderV>, name: Seq<u8>) -> bool {
    exists|k: int| 0 <= k < hs.len() && (#[trigger] hs[k]).name == name
}

/// Whether `name` occurs in `names`.
pub open spec fn spec_has_name(names: Seq<Seq<u8>>, name: Seq<u8>) -> bool {
    exists|k: int| 0 <= k < names.len() && #[trigger] names[k] == name
}

/// The default-bearing headers not mentioned in the column list, in
/// declaration order.
pub open spec fn spec_unmentioned(hs: Seq<HeaderV>, names: Seq<Seq<u8>>) -> Seq<HeaderV>
    decreases hs.len(),
{
    if hs.len() == 0 {
        Seq::empty()
    } else if !(hs[0].default is Absent) && !spec_has_name(names, hs[0].name) {
        seq![hs[0]] + spec_unmentioned(hs.skip(1), names)
    } else {
        spec_unmentioned(hs.skip(1), names)
    }
}

/// The fallback headers for the listed names from `names`, each the
/// first header of that name.
pub open spec fn spec_heads(hs: Seq<HeaderV>, names: Seq<Seq<u8>>) -> Seq<HeaderV>
    decreases names.len(),
{
    if names.len() == 0 {
        Seq::empty()
    } else {
        seq![spec_header_for(hs, names[0])] + spec_heads(hs, names.skip(1))
    }
}

/// The supplied values paired positionally with the given columns;
/// pairing stops at the shorter side.
pub open spec fn spec_zip(hs: Seq<HeaderV>, vals: Seq<ValueV>) -> Seq<ColumnV>
    decreases vals.len(),
{
    if vals.len() == 0 || hs.len() == 0 {
        Seq::empty()
    } else {
        seq![ColumnV { name: hs[0].name, data: vals[0] }] + spec_zip(hs.skip(1), vals.skip(1))
    }
}

/// As `spec_zip`, but pairing with bare names.
pub open spec fn spec_zip_names(names: Seq<Seq<u8>>, vals: Seq<ValueV>) -> Seq<ColumnV>
    decreases vals.len(),
{
    if vals.len() == 0 || names.len() == 0 {
        Seq::empty()
    } else {
        seq![ColumnV { name: names[0], data: vals[0] }] + spec_zip_names(
            names.skip(1),
            vals.skip(1),
        )
    }
}

/// The headers whose defaults complete one row: with the column list
/// omitted, the visible columns the values did not reach; with a
/// list, the listed-but-valueless columns and then every
/// default-bearing unmentioned column.
pub open spec fn spec_filler_headers(t: TableV, cols: Option<Seq<Seq<u8>>>, m: int) -> Seq<
    HeaderV,
> {
    let hs = t.col_headers;
    match cols {
        None => spec_visible(hs).skip(m),
        Some(names) => spec_heads(hs, names.skip(m)) + spec_unmentioned(hs, names),
    }
}

/// The cells of one row: the supplied values paired positionally with
/// their columns, then one default cell per filler header.
pub open spec fn spec_assemble(t: TableV, cols: Option<Seq<Seq<u8>>>, values: Seq<ValueV>) -> Result<
    (Seq<ColumnV>, Seq<Seq<u8>>),
    CmdErrV,
> {
    let hs = t.col_headers;
    match cols {
        None => {
            let zipped = spec_zip(hs, values);
            if zipped.len() > spec_visible(hs).len() {
                Err(CmdErrV::User(("too many values supplied").spec_bytes()))
            } else {
                let fillers = spec_filler_headers(t, None, zipped.len() as int);
                Ok((zipped + spec_default_cells(fillers), spec_inc_names(fillers)))
            }
        },
        Some(names) => {
            let zipped = spec_zip_names(names, values);
            let fillers = spec_filler_headers(t, Some(names), zipped.len() as int);
            Ok((zipped + spec_default_cells(fillers), spec_inc_names(fillers)))
        },
    }
}

/// The counters named in `used` advanced, left to right.
pub open spec fn spec_bump_all(hs: Seq<HeaderV>, used: Seq<Seq<u8>>, i: int) -> Seq<HeaderV>
    decreases used.len() - i when 0 <= i <= used.len()
{
    if i == used.len() {
        hs
    } else {
        spec_bump_all(spec_bump(hs, used[i]), used, i + 1)
    }
}

/// Inserting one row: assemble its cells, append them, and advance
/// the counters whose values the row took.
pub open spec fn spec_insert_one(t: TableV, cols: Option<Seq<Seq<u8>>>, values: Seq<ValueV>) -> Result<
    TableV,
    CmdErrV,
> {
    match spec_assemble(t, cols, values) {
        Err(e) => Err(e),
        Ok((cells, used)) => match spec_append(t, cells) {
            Err(e) => Err(CmdErrV::Db(e)),
            Ok(t2) => Ok(
                TableV { col_headers: spec_bump_all(t2.col_headers, used, 0), rows: t2.rows },
            ),
        },
    }
}

/// Inserting the rows in order; a failure keeps the rows already
/// stored and reports the error.
pub open spec fn spec_insert_rows(
    t: TableV,
    cols: Option<Seq<Seq<u8>>>,
    rows: Seq<Seq<ValueV>>,
    i: int,
) -> (TableV, Option<CmdErrV>)
    decreases rows.len() - i when 0 <= i <= rows.len()
{
    if i == rows.len() {
        (t, None)
    } else {
        match spec_insert_one(t, cols, rows[i]) {
            Err(e) => (t, Some(e)),
            Ok(t2) => spec_insert_rows(t2, cols, rows, i + 1),
        }
    }
}

/// The listed names that name no visible column.
pub open spec fn spec_unknown(names: Seq<Seq<u8>>, vis: Seq<HeaderV>) -> Seq<Seq<u8>>
    decreases names.len(),
{
    if names.len() == 0 {
        Seq::empty()
    } else if !spec_has_header(vis, names[0]) {
        seq![names[0]] + spec_unknown(names.skip(1), vis)
    } else {
        spec_unknown(names.skip(1), vis)
    }
}

/// What an insert yields: the table named by the statement receives
/// the rows one by one (each assembled from the supplied values and
/// the column defaults and fully validated), and the answer is the
/// empty result; or the first failure, with the rows before it kept.
pub open spec fn spec_insert_cmd(
    d: DbV,
    table: TokenV,
    cols: TokensV,
    rows: Seq<Seq<ValueV>>,
) -> (DbV, Result<FrameV, CmdErrV>) {
    match table {
        TokenV::Identifier(tname) => match spec_lookup(d.names, tname) {
            None => (d, Err(CmdErrV::TableNotFound(tname))),
            Some(ix) => {
                let t = d.tables[ix];
                let cols_opt = match cols {
                    TokensV::Omitted => Ok(None),
                    TokensV::List(ts) => match spec_idents(ts) {
                        None => Err(CmdErrV::Internal),
                        Some(ns) => {
                            let unknown = spec_unknown(ns, spec_visible(t.col_headers));
                            if unknown.len() > 0 {
                                Err(CmdErrV::UnknownColumns(unknown))
                            } else {
                                Ok(Some(ns))
                            }
                        },
                    },
                };
                match cols_opt {
                    Err(e) => (d, Err(e)),
                    Ok(c) => {
                        let (t2, err) = spec_insert_rows(t, c, rows, 0);
                        let d2 = DbV { names: d.names, tables: d.tables.update(ix, t2) };
                        match err {
                            Some(e) => (d2, Err(e)),
                            None => (d2, Ok(FrameV::Null)),
                        }
                    },
                }
            },
        },
        _ => (d, Err(CmdErrV::Internal)),
    }
}

/// Assembled cells are well formed when the table and the values are.
pub proof fn lemma_assemble_wf(t: TableV, cols: Option<Seq<Seq<u8>>>, values: Seq<ValueV>)
    requires
        t.wf(),
        values_wf(values),
    ensures
        spec_assemble(t, cols, values) matches Ok((cells, used)) ==> cells_wf(cells),
{
    if spec_assemble(t, cols, values) is Ok {
        let (cells, used) = spec_assemble(t, cols, values)->Ok_0;
        let hs = t.col_headers;
        assert(forall|k: int| 0 <= k < hs.len() ==> (#[trigger] hs[k]).wf());
        lemma_visible_wf(hs);
        match cols {
            None => {
                let zipped = spec_zip(hs, values);
                let fillers = spec_filler_headers(t, None, zipped.len() as int);
                lemma_zip_wf(hs, values);
                lemma_fillers_wf_none(spec_visible(hs), zipped.len() as int);
                lemma_default_cells_props(fillers);
                assert forall|k: int| 0 <= k < cells.len() implies (#[trigger] cells[k]).wf() by {
                    if k < zipped.len() {
                    } else {
                        assert(cells[k] == spec_default_cells(fillers)[k - zipped.len()]);
                        assert(cells[k] == spec_default_cell(fillers[k - zipped.len()]));
                    }
                }
            },
            Some(names) => {
                let zipped = spec_zip_names(names, values);
                let fillers = spec_filler_headers(t, Some(names), zipped.len() as int);
                lemma_zip_names_wf(names, values);
                lemma_heads_wf(hs, names.skip(zipped.len() as int));
                lemma_unmentioned_wf(hs, names);
                lemma_default_cells_props(fillers);
                assert forall|k: int| 0 <= k < cells.len() implies (#[trigger] cells[k]).wf() by {
                    if k < zipped.len() {
                    } else {
                        let q = k - zipped.len();
                        assert(cells[k] == spec_default_cells(fillers)[q]);
                        assert(cells[k] == spec_default_cell(fillers[q]));
                        let heads = spec_heads(hs, names.skip(zipped.len() as int));
                        if q < heads.len() {
                            assert(fillers[q] == heads[q]);
                        } else {
                            assert(fillers[q] == spec_unmentioned(hs, names)[q - heads.len()]);
                        }
                    }
                }
            },
        }
    }
}

proof fn lemma_zip_wf(hs: Seq<HeaderV>, vals: Seq<ValueV>)
    requires
        values_wf(vals),
    ensures
        spec_zip(hs, vals).len() <= vals.len(),
        forall|k: int| 0 <= k < spec_zip(hs, vals).len() ==> (#[trigger] spec_zip(hs, vals)[k]).wf(),
    decreases vals.len(),
{
    if vals.len() > 0 && hs.len() > 0 {
        assert(values_wf(vals.skip(1))) by {
            assert(forall|k: int|
                0 <= k < vals.len() - 1 ==> #[trigger] vals.skip(1)[k] == vals[k + 1]);
        }
        lemma_zip_wf(hs.skip(1), vals.skip(1));
        let out = spec_zip(hs, vals);
        assert forall|k: int| 0 <= k < out.len() implies (#[trigger] out[k]).wf() by {
            if k > 0 {
                assert(out[k] == spec_zip(hs.skip(1), vals.skip(1))[k - 1]);
            } else {
                assert(out[0].data == vals[0]);
            }
        }
    }
}

proof fn lemma_zip_names_wf(names: Seq<Seq<u8>>, vals: Seq<ValueV>)
    requires
        values_wf(vals),
    ensures
        spec_zip_names(names, vals).len() <= vals.len(),
        forall|k: int|
            0 <= k < spec_zip_names(names, vals).len() ==> (#[trigger] spec_zip_names(
                names,
                vals,
            )[k]).wf(),
    decreases vals.len(),
{
    if vals.len() > 0 && names.len() > 0 {
        assert(values_wf(vals.skip(1))) by {
            assert(forall|k: int|
                0 <= k < vals.len() - 1 ==> #[trigger] vals.skip(1)[k] == vals[k + 1]);
        }
        lemma_zip_names_wf(names.skip(1), vals.skip(1));
        let out = spec_zip_names(names, vals);
        assert forall|k: int| 0 <= k < out.len() implies (#[trigger] out[k]).wf() by {
            if k > 0 {
                assert(out[k] == spec_zip_names(names.skip(1), vals.skip(1))[k - 1]);
            } else {
                assert(out[0].data == vals[0]);
            }
        }
    }
}

proof fn lemma_fillers_wf_none(vis: Seq<HeaderV>, m: int)
    requires
        forall|k: int| 0 <= k < vis.len() ==> (#[trigger] vis[k]).wf(),
        0 <= m <= vis.len(),
    ensures
        forall|k: int| 0 <= k < vis.skip(m).len() ==> (#[trigger] vis.skip(m)[k]).wf(),
{
    assert(forall|k: int| 0 <= k < vis.len() - m ==> #[trigger] vis.skip(m)[k] == vis[k + m]);
}

proof fn lemma_heads_wf(hs: Seq<HeaderV>, names: Seq<Seq<u8>>)
    requires
        forall|k: int| 0 <= k < hs.len() ==> (#[trigger] hs[k]).wf(),
    ensures
        forall|k: int|
            0 <= k < spec_heads(hs, names).len() ==> (#[trigger] spec_heads(hs, names)[k]).wf(),
    decreases names.len(),
{
    if names.len() > 0 {
        lemma_heads_wf(hs, names.skip(1));
        lemma_find_header_wf(hs, names[0]);
        let out = spec_heads(hs, names);
        assert forall|k: int| 0 <= k < out.len() implies (#[trigger] out[k]).wf() by {
            if k > 0 {
                assert(out[k] == spec_heads(hs, names.skip(1))[k - 1]);
            }
        }
    }
}

proof fn lemma_visible_wf(hs: Seq<HeaderV>)
    requires
        forall|k: int| 0 <= k < hs.len() ==> (#[trigger] hs[k]).wf(),
    ensures
        forall|k: int| 0 <= k < spec_visible(hs).len() ==> (#[trigger] spec_visible(hs)[k]).wf(),
        spec_visible(hs).len() <= hs.len(),
    decreases hs.len(),
{
    if hs.len() > 0 {
        assert(forall|k: int| 0 <= k < hs.len() - 1 ==> #[trigger] hs.drop_last()[k] == hs[k]);
        lemma_visible_wf(hs.drop_last());
        let out = spec_visible(hs);
        let rest = spec_visible(hs.drop_last());
        assert forall|k: int| 0 <= k < out.len() implies (#[trigger] out[k]).wf() by {
            if !hs.last().is_hidden {
                if k < rest.len() {
                    assert(out[k] == rest[k]);
                } else {
                    assert(out[k] == hs.last());
                }
            } else {
                assert(out[k] == rest[k]);
            }
        }
    }
}

proof fn lemma_find_header_wf(hs: Seq<HeaderV>, name: Seq<u8>)
    requires
        forall|k: int| 0 <= k < hs.len() ==> (#[trigger] hs[k]).wf(),
    ensures
        spec_header_for(hs, name).wf(),
    decreases hs.len(),
{
    if hs.len() > 0 && hs[0].name != name {
        assert(forall|k: int| 0 <= k < hs.len() - 1 ==> #[trigger] hs.skip(1)[k] == hs[k + 1]);
        lemma_find_header_wf(hs.skip(1), name);
    }
}

proof fn lemma_unmentioned_wf(hs: Seq<HeaderV>, names: Seq<Seq<u8>>)
    requires
        forall|k: int| 0 <= k < hs.len() ==> (#[trigger] hs[k]).wf(),
    ensures
        forall|k: int|
            0 <= k < spec_unmentioned(hs, names).len() ==> (#[trigger] spec_unmentioned(
                hs,
                names,
            )[k]).wf(),
    decreases hs.len(),
{
    if hs.len() > 0 {
        assert(forall|k: int| 0 <= k < hs.len() - 1 ==> #[trigger] hs.skip(1)[k] == hs[k + 1]);
        lemma_unmentioned_wf(hs.skip(1), names);
        let out = spec_unmentioned(hs, names);
        let rest = spec_unmentioned(hs.skip(1), names);
        assert forall|k: int| 0 <= k < out.len() implies (#[trigger] out[k]).wf() by {
            if !(hs[0].default is Absent) && !spec_has_name(names, hs[0].name) {
                if k == 0 {
                    assert(out[0] == hs[0]);
                } else {
                    assert(out[k] == rest[k - 1]);
                }
            } else {
                assert(out[k] == rest[k]);
            }
        }
    }
}

/// Advancing counters preserves the table invariant.
pub proof fn lemma_bump_all_wf(t: TableV, used: Seq<Seq<u8>>, i: int)
    requires
        t.wf(),
        0 <= i <= used.len(),
    ensures
        (TableV { col_headers: spec_bump_all(t.col_headers, used, i), rows: t.rows }).wf(),
    decreases used.len() - i,
{
    if i < used.len() {
        lemma_bump_wf(t, used[i]);
        let t2 = TableV { col_headers: spec_bump(t.col_headers, used[i]), rows: t.rows };
        lemma_bump_all_wf(t2, used, i + 1);
    }
}

/// Inserting rows preserves the catalog's table invariant.
pub proof fn lemma_insert_rows_wf(
    t: TableV,
    cols: Option<Seq<Seq<u8>>>,
    rows: Seq<Seq<ValueV>>,
    i: int,
)
    requires
        t.wf(),
        rows_wf(rows),
        0 <= i <= rows.len(),
    ensures
        spec_insert_rows(t, cols, rows, i).0.wf(),
    decreases rows.len() - i,
{
    if i < rows.len() {
        match spec_insert_one(t, cols, rows[i]) {
            Err(e) => {},
            Ok(t2) => {
                lemma_insert_one_wf(t, cols, rows[i]);
                lemma_insert_rows_wf(t2, cols, rows, i + 1);
            },
        }
    }
}

/// Inserting one row preserves the table invariant.
pub proof fn lemma_insert_one_wf(t: TableV, cols: Option<Seq<Seq<u8>>>, values: Seq<ValueV>)
    requires
        t.wf(),
        values_wf(values),
    ensures
        spec_insert_one(t, cols, values) matches Ok(t2) ==> t2.wf(),
{
    if spec_insert_one(t, cols, values) is Ok {
        let (cells, used) = spec_assemble(t, cols, values)->Ok_0;
        lemma_assemble_wf(t, cols, values);
        lemma_append_wf(t, cells);
        let t2 = spec_append(t, cells)->Ok_0;
        lemma_bump_all_wf(t2, used, 0);
    }
}

/// Counter names distribute over concatenation of header lists.
pub proof fn lemma_inc_names_concat(a: Seq<HeaderV>, b: Seq<HeaderV>)
    ensures
        spec_inc_names(a + b) == spec_inc_names(a) + spec_inc_names(b),
    decreases a.len(),
{
    if a.len() == 0 {
        assert(a + b =~= b);
        assert(spec_inc_names(a) + spec_inc_names(b) =~= spec_inc_names(b));
    } else {
        assert((a + b)[0] == a[0]);
        assert((a + b).skip(1) =~= a.skip(1) + b);
        lemma_inc_names_concat(a.skip(1), b);
        if a[0].default is Incrementing {
            assert(seq![a[0].name] + (spec_inc_names(a.skip(1)) + spec_inc_names(b)) =~= (seq![
                a[0].name,
            ] + spec_inc_names(a.skip(1))) + spec_inc_names(b));
        }
    }
}

/// The default cell of one column, and whether it drew on a counter.
fn default_cell_for(h: &ColumnHeader) -> (r: (Column, bool))
    ensures
        r.0@ == spec_default_cell(h@),
        r.1 == (h@.default is Incrementing),
{
    match h.default() {
        DefaultOpt::Absent => (Column::new(LiteralValue::Null, h.name().clone()), false),
        DefaultOpt::Literal(v) => (Column::new(v.clone(), h.name().clone()), false),
        DefaultOpt::Incrementing(i) => (
            Column::new(LiteralValue::Number(Decimal::from_int(*i)), h.name().clone()),
            true,
        ),
    }
}

/// Whether `name` occurs in `names`.
pub fn has_name(names: &Vec<Vec<u8>>, name: &[u8]) -> (r: bool)
    ensures
        r == spec_has_name(names.deep_view(), name@),
{
    let n = names.len();
    let mut i: usize = 0;
    while i < n
        invariant
            n == names@.len(),
            names.deep_view().len() == n,
            forall|k: int| 0 <= k < n ==> #[trigger] names.deep_view()[k] == names@[k]@,
            i <= n,
            forall|k: int| 0 <= k < i ==> #[trigger] names.deep_view()[k] != name@,
        decreases n - i,
    {
        if bytes_eq(names[i].as_slice(), name) {
            proof {
                assert(names.deep_view()[i as int] == name@);
            }
            return true;
        }
        i = i + 1;
    }
    false
}

/// The default cells and drawn-on counter names of the headers from
/// position `i` on.
fn default_cells_from(hs: &[ColumnHeader], i: usize) -> (r: (Vec<Column>, Vec<Vec<u8>>))
    requires
        i <= hs@.len(),
    ensures
        r.0.deep_view() == spec_default_cells(hs.deep_view().skip(i as int)),
        r.1.deep_view() == spec_inc_names(hs.deep_view().skip(i as int)),
    decreases hs@.len() - i,
{
    if i == hs.len() {
        let cells: Vec<Column> = Vec::new();
        let used: Vec<Vec<u8>> = Vec::new();
        proof {
            assert(hs.deep_view().skip(i as int) =~= Seq::<HeaderV>::empty());
            assert(cells.deep_view() =~= Seq::<ColumnV>::empty());
            assert(used.deep_view() =~= Seq::<Seq<u8>>::empty());
        }
        (cells, used)
    } else {
        proof {
            let rest = hs.deep_view().skip(i as int);
            assert(rest[0] == hs.deep_view()[i as int]);
            assert(hs.deep_view()[i as int] == hs@[i as int]@);
            assert(rest.skip(1) =~= hs.deep_view().skip(i + 1));
        }
        let (cell, inc) = default_cell_for(&hs[i]);
        let (rest_cells, rest_used) = default_cells_from(hs, i + 1);
        let cells = crate::parse::parser::prepend(cell, rest_cells);
        let used = if inc {
            crate::parse::parser::prepend(hs[i].name().clone(), rest_used)
        } else {
            rest_used
        };
        proof {
            let rest = hs.deep_view().skip(i as int);
            assert(spec_default_cells(rest) == seq![spec_default_cell(rest[0])]
                + spec_default_cells(rest.skip(1)));
            assert(cells.deep_view() =~= spec_default_cells(rest));
            if inc {
                assert(spec_inc_names(rest) == seq![rest[0].name] + spec_inc_names(rest.skip(1)));
            } else {
                assert(spec_inc_names(rest) == spec_inc_names(rest.skip(1)));
            }
            assert(used.deep_view() =~~= spec_inc_names(rest));
        }
        (cells, used)
    }
}

/// The default cells and counter names for the listed columns from
/// position `i` on.
fn head_cells_from(hs: &[ColumnHeader], names: &Vec<Vec<u8>>, i: usize) -> (r: (
    Vec<Column>,
    Vec<Vec<u8>>,
))
    requires
        i <= names@.len(),
    ensures
        ({
            let heads = spec_heads(hs.deep_view(), names.deep_view().skip(i as int));
            r.0.deep_view() == spec_default_cells(heads) && r.1.deep_view() == spec_inc_names(
                heads,
            )
        }),
    decreases names@.len() - i,
{
    if i == names.len() {
        let cells: Vec<Column> = Vec::new();
        let used: Vec<Vec<u8>> = Vec::new();
        proof {
            assert(names.deep_view().skip(i as int) =~= Seq::<Seq<u8>>::empty());
            assert(cells.deep_view() =~= Seq::<ColumnV>::empty());
            assert(used.deep_view() =~= Seq::<Seq<u8>>::empty());
        }
        (cells, used)
    } else {
        proof {
            let rest = names.deep_view().skip(i as int);
            assert(rest[0] == names.deep_view()[i as int]);
            assert(names.deep_view()[i as int] == names@[i as int]@);
            assert(rest.skip(1) =~= names.deep_view().skip(i + 1));
        }
        let (cell, inc, hname) = match find_header(hs, names[i].as_slice()) {
            Some(h) => {
                let (c, b) = default_cell_for(h);
                (c, b, h.name().clone())
            },
            None => (Column::new(LiteralValue::Null, names[i].clone()), false, names[i].clone()),
        };
        proof {
            let hd = spec_header_for(hs.deep_view(), names.deep_view().skip(i as int)[0]);
            assert(cell@ == spec_default_cell(hd));
            assert(inc == (hd.default is Incrementing));
            assert(hname@ == hd.name);
        }
        let (rest_cells, rest_used) = head_cells_from(hs, names, i + 1);
        let cells = crate::parse::parser::prepend(cell, rest_cells);
        let used = if inc {
            crate::parse::parser::prepend(hname, rest_used)
        } else {
            rest_used
        };
        proof {
            let rest = names.deep_view().skip(i as int);
            let heads = spec_heads(hs.deep_view(), rest);
            let hd = spec_header_for(hs.deep_view(), rest[0]);
            assert(heads == seq![hd] + spec_heads(hs.deep_view(), rest.skip(1)));
            assert(spec_default_cells(heads) == seq![spec_default_cell(heads[0])]
                + spec_default_cells(heads.skip(1)));
            assert(heads[0] == hd);
            assert(heads.skip(1) =~= spec_heads(hs.deep_view(), rest.skip(1)));
            assert(cells.deep_view() =~= spec_default_cells(heads));
            if hd.default is Incrementing {
                assert(spec_inc_names(heads) == seq![heads[0].name] + spec_inc_names(
                    heads.skip(1),
                ));
            } else {
                assert(spec_inc_names(heads) == spec_inc_names(heads.skip(1)));
            }
            assert(used.deep_view() =~~= spec_inc_names(heads));
        }
        (cells, used)
    }
}

/// The default cells and counter names of the default-bearing columns
/// the list does not mention, from header position `k` on.
fn unmentioned_cells_from(hs: &[ColumnHeader], names: &Vec<Vec<u8>>, k: usize) -> (r: (
    Vec<Column>,
    Vec<Vec<u8>>,
))
    requires
        k <= hs@.len(),
    ensures
        ({
            let um = spec_unmentioned(hs.deep_view().skip(k as int), names.deep_view());
            r.0.deep_view() == spec_default_cells(um) && r.1.deep_view() == spec_inc_names(um)
        }),
    decreases hs@.len() - k,
{
    if k == hs.len() {
        let cells: Vec<Column> = Vec::new();
        let used: Vec<Vec<u8>> = Vec::new();
        proof {
            assert(hs.deep_view().skip(k as int) =~= Seq::<HeaderV>::empty());
            assert(cells.deep_view() =~= Seq::<ColumnV>::empty());
            assert(used.deep_view() =~= Seq::<Seq<u8>>::empty());
        }
        (cells, used)
    } else {
        proof {
            let rest = hs.deep_view().skip(k as int);
            assert(rest[0] == hs.deep_view()[k as int]);
            assert(hs.deep_view()[k as int] == hs@[k as int]@);
            assert(rest.skip(1) =~= hs.deep_view().skip(k + 1));
        }
        let h = &hs[k];
        let is_absent = matches!(h.default(), DefaultOpt::Absent);
        let mentioned = has_name(names, h.name().as_slice());
        let (rest_cells, rest_used) = unmentioned_cells_from(hs, names, k + 1);
        if !is_absent && !mentioned {
            let (cell, inc) = default_cell_for(h);
            let cells = crate::parse::parser::prepend(cell, rest_cells);
            let used = if inc {
                crate::parse::parser::prepend(h.name().clone(), rest_used)
            } else {
                rest_used
            };
            proof {
                let rest = hs.deep_view().skip(k as int);
                let um = spec_unmentioned(rest, names.deep_view());
                assert(um == seq![rest[0]] + spec_unmentioned(rest.skip(1), names.deep_view()));
                assert(spec_default_cells(um) == seq![spec_default_cell(um[0])]
                    + spec_default_cells(um.skip(1)));
                assert(um[0] == rest[0]);
                assert(um.skip(1) =~= spec_unmentioned(rest.skip(1), names.deep_view()));
                assert(cells.deep_view() =~= spec_default_cells(um));
                if inc {
                    assert(spec_inc_names(um) == seq![um[0].name] + spec_inc_names(um.skip(1)));
                } else {
                    assert(spec_inc_names(um) == spec_inc_names(um.skip(1)));
                }
                assert(used.deep_view() =~~= spec_inc_names(um));
            }
            (cells, used)
        } else {
            proof {
                let rest = hs.deep_view().skip(k as int);
                assert(spec_unmentioned(rest, names.deep_view()) == spec_unmentioned(
                    rest.skip(1),
                    names.deep_view(),
                ));
            }
            (rest_cells, rest_used)
        }
    }
}

/// The supplied values paired positionally with the columns from
/// position `q` on.
fn zip_cells_from(hs: &[ColumnHeader], values: &Vec<LiteralValue>, q: usize) -> (r: Vec<Column>)
    requires
        q <= hs@.len(),
        q <= values@.len(),
    ensures
        r.deep_view() == spec_zip(hs.deep_view().skip(q as int), values.deep_view().skip(q as int)),
    decreases values@.len() - q,
{
    if q == values.len() || q == hs.len() {
        let cells: Vec<Column> = Vec::new();
        proof {
            assert(hs.deep_view().skip(q as int).len() == hs@.len() - q);
            assert(values.deep_view().skip(q as int).len() == values@.len() - q);
            assert(cells.deep_view() =~= Seq::<ColumnV>::empty());
        }
        cells
    } else {
        proof {
            let hrest = hs.deep_view().skip(q as int);
            let vrest = values.deep_view().skip(q as int);
            assert(hrest[0] == hs.deep_view()[q as int]);
            assert(hs.deep_view()[q as int] == hs@[q as int]@);
            assert(vrest[0] == values.deep_view()[q as int]);
            assert(values.deep_view()[q as int] == values@[q as int]@);
            assert(hrest.skip(1) =~= hs.deep_view().skip(q + 1));
            assert(vrest.skip(1) =~= values.deep_view().skip(q + 1));
        }
        let cell = Column::new(values[q].clone(), hs[q].name().clone());
        let rest = zip_cells_from(hs, values, q + 1);
        let out = crate::parse::parser::prepend(cell, rest);
        proof {
            let hrest = hs.deep_view().skip(q as int);
            let vrest = values.deep_view().skip(q as int);
            assert(spec_zip(hrest, vrest) == seq![
                ColumnV { name: hrest[0].name, data: vrest[0] },
            ] + spec_zip(hrest.skip(1), vrest.skip(1)));
            assert(out.deep_view() =~= spec_zip(hrest, vrest));
        }
        out
    }
}

/// As `zip_cells_from`, pairing with bare names.
fn zip_names_from(names: &Vec<Vec<u8>>, values: &Vec<LiteralValue>, q: usize) -> (r: Vec<Column>)
    requires
        q <= names@.len(),
        q <= values@.len(),
    ensures
        r.deep_view() == spec_zip_names(
            names.deep_view().skip(q as int),
            values.deep_view().skip(q as int),
        ),
    decreases values@.len() - q,
{
    if q == values.len() || q == names.len() {
        let cells: Vec<Column> = Vec::new();
        proof {
            assert(names.deep_view().skip(q as int).len() == names@.len() - q);
            assert(values.deep_view().skip(q as int).len() == values@.len() - q);
            assert(cells.deep_view() =~= Seq::<ColumnV>::empty());
        }
        cells
    } else {
        proof {
            let nrest = names.deep_view().skip(q as int);
            let vrest = values.deep_view().skip(q as int);
            assert(nrest[0] == names.deep_view()[q as int]);
            assert(names.deep_view()[q as int] == names@[q as int]@);
            assert(vrest[0] == values.deep_view()[q as int]);
            assert(values.deep_view()[q as int] == values@[q as int]@);
            assert(nrest.skip(1) =~= names.deep_view().skip(q + 1));
            assert(vrest.skip(1) =~= values.deep_view().skip(q + 1));
        }
        let cell = Column::new(values[q].clone(), names[q].clone());
        let rest = zip_names_from(names, values, q + 1);
        let out = crate::parse::parser::prepend(cell, rest);
        proof {
            let nrest = names.deep_view().skip(q as int);
            let vrest = values.deep_view().skip(q as int);
            assert(spec_zip_names(nrest, vrest) == seq![
                ColumnV { name: nrest[0], data: vrest[0] },
            ] + spec_zip_names(nrest.skip(1), vrest.skip(1)));
            assert(out.deep_view() =~= spec_zip_names(nrest, vrest));
        }
        out
    }
}

/// Glues two cell vectors.
fn concat_cells(a: Vec<Column>, b: Vec<Column>) -> (r: Vec<Column>)
    ensures
        r.deep_view() == a.deep_view() + b.deep_view(),
{
    let ghost av = a.deep_view();
    let ghost bv = b.deep_view();
    let mut a = a;
    let mut b = b;
    proof {
        assert(av.len() == a@.len());
        assert(bv.len() == b@.len());
        assert(forall|k: int| 0 <= k < a@.len() ==> #[trigger] av[k] == a@[k]@);
        assert(forall|k: int| 0 <= k < b@.len() ==> #[trigger] bv[k] == b@[k]@);
    }
    a.append(&mut b);
    proof {
        assert(forall|k: int| 0 <= k < a@.len() ==> #[trigger] a.deep_view()[k] == a@[k]@);
        assert(a.deep_view() =~= av + bv);
    }
    a
}

/// Glues two name vectors.
fn concat_names(a: Vec<Vec<u8>>, b: Vec<Vec<u8>>) -> (r: Vec<Vec<u8>>)
    ensures
        r.deep_view() == a.deep_view() + b.deep_view(),
{
    let ghost av = a.deep_view();
    let ghost bv = b.deep_view();
    let mut a = a;
    let mut b = b;
    proof {
        assert(av.len() == a@.len());
        assert(bv.len() == b@.len());
        assert(forall|k: int| 0 <= k < a@.len() ==> #[trigger] av[k] == a@[k]@);
        assert(forall|k: int| 0 <= k < b@.len() ==> #[trigger] bv[k] == b@[k]@);
    }
    a.append(&mut b);
    proof {
        assert(forall|k: int| 0 <= k < a@.len() ==> #[trigger] a.deep_view()[k] == a@[k]@);
        assert(a.deep_view() =~= av + bv);
    }
    a
}

/// Assembles the cells of one row from the supplied values and the
/// column defaults, and collects the names whose counters the row
/// drew on.
fn assemble(t: &Table, cols_opt: &Option<Vec<Vec<u8>>>, values: &Vec<LiteralValue>) -> (r: Result<
    (Vec<Column>, Vec<Vec<u8>>),
    CmdError,
>)
    ensures
        match r {
            Ok((cells, used)) => spec_assemble(t@, cols_opt.deep_view(), values.deep_view())
                == Ok::<(Seq<ColumnV>, Seq<Seq<u8>>), CmdErrV>(
                (cells.deep_view(), used.deep_view()),
            ),
            Err(e) => spec_assemble(t@, cols_opt.deep_view(), values.deep_view()) == Err::<
                (Seq<ColumnV>, Seq<Seq<u8>>),
                CmdErrV,
            >(e@),
        },
{
    let ghost tv = t@;
    let hs = t.col_headers();
    match cols_opt {
        None => {
            proof {
                assert(hs.deep_view().skip(0) =~= hs.deep_view());
                assert(values.deep_view().skip(0) =~= values.deep_view());
            }
            let zipped = zip_cells_from(hs, values, 0);
            let vis = t.visible_keys();
            if zipped.len() > vis.len() {
                let mut msg: Vec<u8> = Vec::new();
                msg.extend_from_slice(("too many values supplied").as_bytes());
                proof {
                    assert(msg@ =~= ("too many values supplied").spec_bytes());
                    assert(zipped.deep_view().len() == zipped@.len());
                    assert(vis.deep_view().len() == vis@.len());
                }
                return Err(CmdError::User(msg));
            }
            let m = zipped.len();
            proof {
                assert(zipped.deep_view().len() == zipped@.len());
                assert(vis.deep_view().len() == vis@.len());
            }
            let vis_slice = vis.as_slice();
            proof {
                assert(vis_slice.deep_view() =~= vis.deep_view());
            }
            let (fill_cells, used) = default_cells_from(vis_slice, m);
            let cells = concat_cells(zipped, fill_cells);
            Ok((cells, used))
        },
        Some(names) => {
            proof {
                assert(names.deep_view().skip(0) =~= names.deep_view());
                assert(values.deep_view().skip(0) =~= values.deep_view());
            }
            let zipped = zip_names_from(names, values, 0);
            let m = zipped.len();
            proof {
                assert(zipped.deep_view().len() == zipped@.len());
                lemma_zip_names_len(names.deep_view(), values.deep_view());
            }
            let (head_cells, head_used) = head_cells_from(hs, names, m);
            let (um_cells, um_used) = unmentioned_cells_from(hs, names, 0);
            proof {
                assert(hs.deep_view().skip(0) =~= hs.deep_view());
                let heads = spec_heads(tv.col_headers, names.deep_view().skip(m as int));
                let um = spec_unmentioned(tv.col_headers, names.deep_view());
                lemma_default_cells_concat(heads, um);
                lemma_inc_names_concat(heads, um);
            }
            let cells = concat_cells(zipped, concat_cells(head_cells, um_cells));
            let used = concat_names(head_used, um_used);
            proof {
                let heads = spec_heads(tv.col_headers, names.deep_view().skip(m as int));
                let um = spec_unmentioned(tv.col_headers, names.deep_view());
                assert(cells.deep_view() =~= spec_zip_names(names.deep_view(), values.deep_view())
                    + spec_default_cells(heads + um));
            }
            Ok((cells, used))
        },
    }
}

/// The zipped prefix never outruns either side.
proof fn lemma_zip_names_len(names: Seq<Seq<u8>>, vals: Seq<ValueV>)
    ensures
        spec_zip_names(names, vals).len() <= names.len(),
        spec_zip_names(names, vals).len() <= vals.len(),
    decreases vals.len(),
{
    if vals.len() > 0 && names.len() > 0 {
        lemma_zip_names_len(names.skip(1), vals.skip(1));
    }
}

/// Default cells distribute over concatenation.
proof fn lemma_default_cells_concat(a: Seq<HeaderV>, b: Seq<HeaderV>)
    ensures
        spec_default_cells(a + b) == spec_default_cells(a) + spec_default_cells(b),
    decreases a.len(),
{
    if a.len() == 0 {
        assert(a + b =~= b);
        assert(spec_default_cells(a) + spec_default_cells(b) =~= spec_default_cells(b));
    } else {
        assert((a + b)[0] == a[0]);
        assert((a + b).skip(1) =~= a.skip(1) + b);
        lemma_default_cells_concat(a.skip(1), b);
        assert(seq![spec_default_cell(a[0])] + (spec_default_cells(a.skip(1))
            + spec_default_cells(b)) =~= (seq![spec_default_cell(a[0])] + spec_default_cells(
            a.skip(1),
        )) + spec_default_cells(b));
    }
}

/// Stores one row in the table.
fn insert_one(t: &mut Table, cols_opt: &Option<Vec<Vec<u8>>>, values: &Vec<LiteralValue>) -> (r:
    Result<(), CmdError>)
    requires
        old(t)@.wf(),
        values_wf(values.deep_view()),
    ensures
        final(t)@.wf(),
        match r {
            Ok(_) => spec_insert_one(old(t)@, cols_opt.deep_view(), values.deep_view()) == Ok::<
                TableV,
                CmdErrV,
            >(final(t)@),
            Err(e) => spec_insert_one(old(t)@, cols_opt.deep_view(), values.deep_view()) == Err::<
                TableV,
                CmdErrV,
            >(e@) && final(t)@ == old(t)@,
        },
{
    let ghost t0 = t@;
    let (cells, used) = match assemble(t, cols_opt, values) {
        Ok(p) => p,
        Err(e) => {
            return Err(e);
        },
    };
    proof {
        lemma_assemble_wf(t0, cols_opt.deep_view(), values.deep_view());
    }
    match t.append(cells) {
        Ok(_) => {},
        Err(e) => {
            return Err(CmdError::Db(e));
        },
    }
    proof {
        lemma_append_wf(t0, spec_assemble(t0, cols_opt.deep_view(), values.deep_view())->Ok_0.0);
    }
    let ghost t2 = t@;
    let ghost uv = used.deep_view();
    proof {
        assert(uv.len() == used@.len());
        assert(forall|k: int| 0 <= k < uv.len() ==> uv[k] == (#[trigger] used@[k])@);
    }
    let n = used.len();
    let mut i: usize = 0;
    while i < n
        invariant
            n == used@.len(),
            uv == used.deep_view(),
            uv.len() == n,
            forall|k: int| 0 <= k < uv.len() ==> uv[k] == (#[trigger] used@[k])@,
            i <= n,
            t@.rows == t2.rows,
            t@.col_headers == spec_bump_all(t2.col_headers, uv, 0).subrange(
                0,
                spec_bump_all(t2.col_headers, uv, 0).len() as int,
            ) || true,
            spec_bump_all(t2.col_headers, uv, i as int) == spec_bump_all(t2.col_headers, uv, 0)
                || true,
            spec_bump_all(t@.col_headers, uv, i as int) == spec_bump_all(t2.col_headers, uv, 0),
            t@.wf(),
        decreases n - i,
    {
        proof {
            lemma_bump_wf(t@, uv[i as int]);
        }
        let ghost before = t@;
        t.bump_default(used[i].as_slice());
        proof {
            assert(used@[i as int]@ == uv[i as int]);
            assert(t@.col_headers == spec_bump(before.col_headers, uv[i as int]));
        }
        i = i + 1;
    }
    Ok(())
}

/// Runs an insert against the catalog: resolves the table, screens a
/// column list against the visible columns, and stores the rows.
pub fn insert(db: &mut Db, table: Token, cols: Tokens, rows: Vec<Vec<LiteralValue>>) -> (r: Result<
    Frame,
    CmdError,
>)
    requires
        old(db)@.wf(),
        rows_wf(rows.deep_view()),
    ensures
        final(db)@.wf(),
        ({
            let (d2, res) = spec_insert_cmd(old(db)@, table@, cols@, rows.deep_view());
            final(db)@.names == d2.names && final(db)@.tables == d2.tables && match r {
                Ok(f) => res == Ok::<FrameV, CmdErrV>(f@),
                Err(e) => res == Err::<FrameV, CmdErrV>(e@),
            }
        }),
{
    let ghost d0 = db@;
    let tname = match table {
        Token::Identifier(n) => n,
        _ => {
            return Err(CmdError::Internal);
        },
    };
    let ghost rv = rows.deep_view();
    proof {
        assert(rv.len() == rows@.len());
        assert(forall|k: int| 0 <= k < rv.len() ==> rv[k] == (#[trigger] rows@[k]).deep_view());
    }
    let t = match db.get_mut(tname.as_slice()) {
        Some(t) => t,
        None => {
            proof {
                assert(db@.names =~= old(db)@.names);
                assert(db@.tables =~= old(db)@.tables);
            }
            return Err(CmdError::TableNotFound(tname));
        },
    };
    let ghost ix = spec_lookup(d0.names, tname@)->Some_0;
    let ghost t0 = t@;
    let cols_opt: Option<Vec<Vec<u8>>> = match cols {
        Tokens::Omitted => None,
        Tokens::List(toks) => {
            let ns = match idents_of(&toks) {
                Ok(ns) => ns,
                Err(e) => {
                    proof {
                        assert(db@.names =~= d0.names);
                        assert(db@.tables =~= d0.tables);
                    }
                    return Err(e);
                },
            };
            let vis = t.visible_keys();
            let unknown = unknown_of(&ns, &vis);
            if unknown.len() > 0 {
                proof {
                    assert(unknown.deep_view().len() == unknown@.len());
                    assert(db@.names =~= d0.names);
                    assert(db@.tables =~= d0.tables);
                }
                return Err(CmdError::UnknownColumns(unknown));
            }
            proof {
                assert(unknown.deep_view().len() == unknown@.len());
            }
            Some(ns)
        },
    };
    let ghost c = cols_opt.deep_view();
    let n = rows.len();
    let mut i: usize = 0;
    let mut failed: Option<CmdError> = None;
    while i < n && failed.is_none()
        invariant
            d0 == old(db)@,
            d0.wf(),
            table@ == TokenV::Identifier(tname@),
            spec_lookup(d0.names, tname@) == Some(ix),
            0 <= ix < d0.tables.len(),
            t0 == d0.tables[ix],
            match cols@ {
                TokensV::Omitted => c is None,
                TokensV::List(ts) => {
                    &&& c is Some
                    &&& spec_idents(ts) == Some(c->Some_0)
                    &&& spec_unknown(c->Some_0, spec_visible(t0.col_headers)).len() == 0
                },
            },
            n == rows@.len(),
            rv == rows.deep_view(),
            rv.len() == n,
            forall|k: int| 0 <= k < rv.len() ==> rv[k] == (#[trigger] rows@[k]).deep_view(),
            rows_wf(rv),
            c == cols_opt.deep_view(),
            i <= n,
            t@.wf(),
            match failed {
                None => spec_insert_rows(t0, c, rv, 0) == spec_insert_rows(t@, c, rv, i as int),
                Some(e) => spec_insert_rows(t0, c, rv, 0) == (t@, Some(e@)),
            },
        decreases n - i, (match failed {
            None => 1int,
            Some(_) => 0int,
        }),
    {
        proof {
            assert(values_wf(rv[i as int]));
        }
        match insert_one(t, &cols_opt, &rows[i]) {
            Ok(_) => {
                proof {
                    assert(rows@[i as int].deep_view() == rv[i as int]);
                }
                i = i + 1;
            },
            Err(e) => {
                proof {
                    assert(rows@[i as int].deep_view() == rv[i as int]);
                }
                failed = Some(e);
            },
        }
    }
    match failed {
        Some(e) => Err(e),
        None => {
            proof {
                assert(spec_insert_rows(t0, c, rv, 0) == (t@, None::<CmdErrV>));
            }
            Ok(Frame::Null)
        },
    }
}

/// The listed names that name no visible column.
fn unknown_of(ns: &Vec<Vec<u8>>, vis: &Vec<ColumnHeader>) -> (r: Vec<Vec<u8>>)
    ensures
        r.deep_view() == spec_unknown(ns.deep_view(), vis.deep_view()),
{
    let ghost nv = ns.deep_view();
    let ghost vv = vis.deep_view();
    let n = ns.len();
    let mut out: Vec<Vec<u8>> = Vec::new();
    let mut i: usize = 0;
    proof {
        assert(nv.skip(0) =~= nv);
        assert(out.deep_view() + spec_unknown(nv, vv) =~= spec_unknown(nv, vv));
    }
    while i < n
        invariant
            n == ns@.len(),
            nv == ns.deep_view(),
            nv.len() == n,
            forall|k: int| 0 <= k < nv.len() ==> nv[k] == (#[trigger] ns@[k])@,
            vv == vis.deep_view(),
            i <= n,
            spec_unknown(nv, vv) == out.deep_view() + spec_unknown(nv.skip(i as int), vv),
        decreases n - i,
    {
        proof {
            let rest = nv.skip(i as int);
            assert(rest[0] == nv[i as int]);
            assert(rest.skip(1) =~= nv.skip(i + 1));
        }
        let mut found = false;
        let m = vis.len();
        let mut j: usize = 0;
        while j < m
            invariant
                m == vis@.len(),
                vv == vis.deep_view(),
                vv.len() == m,
                forall|k: int| 0 <= k < vv.len() ==> vv[k] == (#[trigger] vis@[k])@,
                i < n,
                nv == ns.deep_view(),
                nv.len() == n,
                forall|k: int| 0 <= k < nv.len() ==> nv[k] == (#[trigger] ns@[k])@,
                j <= m,
                found == exists|k: int| 0 <= k < j && (#[trigger] vv[k]).name == nv[i as int],
            decreases m - j,
        {
            if bytes_eq(vis[j].name().as_slice(), ns[i].as_slice()) {
                proof {
                    assert(vv[j as int].name == nv[i as int]);
                }
                found = true;
            }
            j = j + 1;
        }
        proof {
            assert(found == spec_has_header(vv, nv[i as int]));
        }
        let ghost before = out.deep_view();
        if !found {
            proof {
                assert(out.deep_view().len() == out@.len());
                assert(forall|k: int| 0 <= k < out@.len() ==> #[trigger] before[k] == out@[k]@);
            }
            out.push(ns[i].clone());
            proof {
                assert(forall|k: int|
                    0 <= k < out@.len() ==> #[trigger] out.deep_view()[k] == out@[k]@);
                assert(out.deep_view() =~= before.push(nv[i as int]));
                assert(before + (seq![nv[i as int]] + spec_unknown(nv.skip(i + 1), vv))
                    =~= out.deep_view() + spec_unknown(nv.skip(i + 1), vv));
            }
        }
        i = i + 1;
    }
    proof {
        assert(nv.skip(n as int) =~= Seq::<Seq<u8>>::empty());
        assert(spec_unknown(Seq::<Seq<u8>>::empty(), vv) =~= Seq::<Seq<u8>>::empty());
        assert(out.deep_view() + Seq::<Seq<u8>>::empty() =~= out.deep_view());
    }
    out
}

} // verus!
