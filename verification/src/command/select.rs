use crate::command::error::{CmdErrV, CmdError};
use crate::connection::frame::{Frame, FrameV};
use crate::db::catalog::{spec_lookup, Db, DbV};
use crate::db::row::RowV;
use crate::db::table::TableV;
use crate::parse::ast::{spec_render_value, Key, KeyV, LiteralValue};
use crate::parse::token::{Token, TokenV};
use vstd::prelude::*;
use vstd::string::StringSliceAdditionalSpecFns;

verus! {

/// The identifier payloads of a token list, when every token is an
/// identifier.
pub open spec fn spec_idents(ts: Seq<TokenV>) -> Option<Seq<Seq<u8>>>
    decreases ts.len(),
{
    if ts.len() == 0 {
        Some(Seq::empty())
    } else {
        match ts[0] {
            TokenV::Identifier(n) => match spec_idents(ts.skip(1)) {
                Some(rest) => Some(seq![n] + rest),
                None => None,
            },
            _ => None,
        }
    }
}

/// The values of one row under the requested names, or `None` when
/// the row lacks a cell for one of them.
pub open spec fn spec_row_vals(row: RowV, names: Seq<Seq<u8>>) -> Option<Seq<Seq<u8>>>
    decreases names.len(),
{
    if names.len() == 0 {
        Some(Seq::empty())
    } else {
        match row.cell(names[0]) {
            None => None,
            Some(v) => match spec_row_vals(row, names.skip(1)) {
                None => None,
                Some(rest) => Some(seq![spec_render_value(v)] + rest),
            },
        }
    }
}

/// The projected body of a table: each stored row's values under the
/// requested names, rendered to their textual forms, in key order.
pub open spec fn spec_project(rows: Seq<RowV>, names: Seq<Seq<u8>>) -> Option<Seq<Seq<Seq<u8>>>>
    decreases rows.len(),
{
    if rows.len() == 0 {
        Some(Seq::empty())
    } else {
        match spec_row_vals(rows[0], names) {
            None => None,
            Some(vals) => match spec_project(rows.skip(1), names) {
                None => None,
                Some(rest) => Some(seq![vals] + rest),
            },
        }
    }
}

/// What a select yields: a table frame whose first row names the
/// projected columns (every column for a glob) and whose body holds
/// one rendered row per stored row, in primary-key order; or the
/// error.
pub open spec fn spec_select_cmd(d: DbV, key: KeyV, table: TokenV) -> Result<FrameV, CmdErrV> {
    match table {
        TokenV::Identifier(tname) => match spec_lookup(d.names, tname) {
            None => Err(CmdErrV::TableNotFound(tname)),
            Some(ix) => {
                let t = d.tables[ix];
                let names_opt = match key {
                    KeyV::Glob => Some(t.col_headers.map_values(|h: crate::db::column_header::HeaderV| h.name)),
                    KeyV::List(ts) => spec_idents(ts),
                };
                match names_opt {
                    None => Err(CmdErrV::Internal),
                    Some(names) => match spec_project(t.rows, names) {
                        None => Err(CmdErrV::User(("Unknown column names").spec_bytes())),
                        Some(body) => Ok(FrameV::Table(seq![names] + body)),
                    },
                }
            },
        },
        _ => Err(CmdErrV::Internal),
    }
}

/// The identifier payloads of the tokens, cloned.
pub fn idents_of(ts: &Vec<Token>) -> (r: Result<Vec<Vec<u8>>, CmdError>)
    ensures
        match r {
            Ok(ns) => spec_idents(ts.deep_view()) == Some(ns.deep_view()),
            Err(e) => spec_idents(ts.deep_view()) is None && e@ == CmdErrV::Internal,
        },
{
    let ghost tv = ts.deep_view();
    let n = ts.len();
    let mut out: Vec<Vec<u8>> = Vec::new();
    let mut i: usize = 0;
    proof {
        assert(tv.skip(0) =~= tv);
        assert(out.deep_view() =~= Seq::<Seq<u8>>::empty());
    }
    while i < n
        invariant
            n == ts@.len(),
            tv == ts.deep_view(),
            tv.len() == n,
            forall|k: int| 0 <= k < n ==> #[trigger] tv[k] == ts@[k]@,
            i <= n,
            match spec_idents(tv.skip(i as int)) {
                Some(rest) => spec_idents(tv) == Some(out.deep_view() + rest),
                None => spec_idents(tv) is None,
            },
        decreases n - i,
    {
        proof {
            let rest = tv.skip(i as int);
            assert(rest[0] == tv[i as int]);
            assert(rest.skip(1) =~= tv.skip(i + 1));
        }
        match &ts[i] {
            Token::Identifier(name) => {
                let ghost before = out.deep_view();
                proof {
                    assert(forall|k: int|
                        0 <= k < out@.len() ==> #[trigger] before[k] == out@[k]@);
                }
                out.push(name.clone());
                proof {
                    assert(forall|k: int|
                        0 <= k < out@.len() ==> #[trigger] out.deep_view()[k] == out@[k]@);
                    assert(out.deep_view() =~= before.push(ts@[i as int]@->Identifier_0));
                    if spec_idents(tv.skip(i + 1)) is Some {
                        let rest2 = spec_idents(tv.skip(i + 1))->Some_0;
                        assert(before + (seq![tv[i as int]->Identifier_0] + rest2)
                            =~= out.deep_view() + rest2);
                    }
                }
            },
            _ => {
                return Err(CmdError::Internal);
            },
        }
        i = i + 1;
    }
    proof {
        assert(tv.skip(n as int) =~= Seq::<TokenV>::empty());
        assert(out.deep_view() + Seq::<Seq<u8>>::empty() =~= out.deep_view());
    }
    Ok(out)
}

/// Runs a select against the catalog.
pub fn select(db: &Db, key: Key, table: Token) -> (r: Result<Frame, CmdError>)
    requires
        db@.wf(),
    ensures
        match r {
            Ok(f) => spec_select_cmd(db@, key@, table@) == Ok::<FrameV, CmdErrV>(f@),
            Err(e) => spec_select_cmd(db@, key@, table@) == Err::<FrameV, CmdErrV>(e@),
        },
{
    let tname = match table {
        Token::Identifier(n) => n,
        _ => {
            return Err(CmdError::Internal);
        },
    };
    let t = match db.get(tname.as_slice()) {
        Some(t) => t,
        None => {
            return Err(CmdError::TableNotFound(tname));
        },
    };
    let ghost tv = t@;
    let names: Vec<Vec<u8>> = match key {
        Key::Glob => {
            let hs = t.col_headers();
            let m = hs.len();
            let mut ns: Vec<Vec<u8>> = Vec::new();
            let mut i: usize = 0;
            while i < m
                invariant
                    m == hs@.len(),
                    hs.deep_view() == tv.col_headers,
                    i <= m,
                    ns.deep_view().len() == i,
                    forall|k: int|
                        0 <= k < i ==> #[trigger] ns.deep_view()[k] == tv.col_headers[k].name,
                decreases m - i,
            {
                let ghost before = ns.deep_view();
                proof {
                    assert(forall|k: int|
                        0 <= k < ns@.len() ==> #[trigger] before[k] == ns@[k]@);
                }
                ns.push(hs[i].name().clone());
                proof {
                    assert(hs.deep_view()[i as int] == hs@[i as int]@);
                    assert(forall|k: int|
                        0 <= k < ns@.len() ==> #[trigger] ns.deep_view()[k] == ns@[k]@);
                    assert(ns.deep_view() =~= before.push(tv.col_headers[i as int].name));
                }
                i = i + 1;
            }
            proof {
                assert(ns.deep_view() =~= tv.col_headers.map_values(
                    |h: crate::db::column_header::HeaderV| h.name,
                ));
            }
            ns
        },
        Key::List(cols) => {
            match idents_of(&cols) {
                Ok(ns) => ns,
                Err(e) => {
                    return Err(e);
                },
            }
        },
    };
    let ghost nv = names.deep_view();
    let ghost ix = spec_lookup(db@.names, tname@)->Some_0;
    let rows = t.rows();
    let nrows = rows.len();
    let mut body: Vec<Vec<Vec<u8>>> = Vec::new();
    let mut i: usize = 0;
    proof {
        crate::db::catalog::lemma_lookup_bounds(db@.names, tname@);
        assert(tv.wf());
        assert(tv.rows.skip(0) =~= tv.rows);
        assert(body.deep_view() =~= Seq::<Seq<Seq<u8>>>::empty());
        assert(tv.rows.len() == rows@.len());
        assert(forall|k: int| 0 <= k < rows@.len() ==> #[trigger] tv.rows[k] == rows@[k]@);
        assert(forall|k: int| 0 <= k < tv.rows.len() ==> (#[trigger] tv.rows[k]).wf());
    }
    while i < nrows
        invariant
            db@.wf(),
            table@ == TokenV::Identifier(tname@),
            spec_lookup(db@.names, tname@) == Some(ix),
            0 <= ix < db@.tables.len(),
            tv == db@.tables[ix],
            match key@ {
                KeyV::Glob => nv == tv.col_headers.map_values(
                    |h: crate::db::column_header::HeaderV| h.name,
                ),
                KeyV::List(ts2) => spec_idents(ts2) == Some(nv),
            },
            nrows == rows@.len(),
            rows.deep_view() == tv.rows,
            tv.rows.len() == nrows,
            forall|k: int| 0 <= k < nrows ==> #[trigger] tv.rows[k] == rows@[k]@,
            forall|k: int| 0 <= k < nrows ==> (#[trigger] tv.rows[k]).wf(),
            nv == names.deep_view(),
            i <= nrows,
            match spec_project(tv.rows.skip(i as int), nv) {
                Some(rest) => spec_project(tv.rows, nv) == Some(body.deep_view() + rest),
                None => spec_project(tv.rows, nv) is None,
            },
        decreases nrows - i,
    {
        proof {
            let rest = tv.rows.skip(i as int);
            assert(rest[0] == tv.rows[i as int]);
            assert(rest.skip(1) =~= tv.rows.skip(i + 1));
        }
        match project_row(&rows[i], &names) {
            Some(vals) => {
                let ghost vals_snap = vals.deep_view();
                let ghost before = body.deep_view();
                proof {
                    assert(forall|k: int|
                        0 <= k < body@.len() ==> #[trigger] before[k] == body@[k].deep_view());
                }
                body.push(vals);
                proof {
                    assert(forall|k: int|
                        0 <= k < body@.len() ==> #[trigger] body.deep_view()[k]
                            == body@[k].deep_view());
                    assert(body.deep_view() =~= before.push(vals_snap));
                    if spec_project(tv.rows.skip(i + 1), nv) is Some {
                        let rest2 = spec_project(tv.rows.skip(i + 1), nv)->Some_0;
                        assert(before + (seq![vals_snap] + rest2) =~= body.deep_view() + rest2);
                    }
                }
            },
            None => {
                let mut msg: Vec<u8> = Vec::new();
                msg.extend_from_slice(("Unknown column names").as_bytes());
                proof {
                    assert(msg@ =~= ("Unknown column names").spec_bytes());
                }
                return Err(CmdError::User(msg));
            },
        }
        i = i + 1;
    }
    proof {
        assert(tv.rows.skip(nrows as int) =~= Seq::<RowV>::empty());
        assert(body.deep_view() + Seq::<Seq<Seq<u8>>>::empty() =~= body.deep_view());
    }
    let mut table_rows: Vec<Vec<Vec<u8>>> = Vec::new();
    table_rows.push(names);
    let ghost header_only = table_rows.deep_view();
    let mut body2 = body;
    table_rows.append(&mut body2);
    proof {
        assert(header_only =~= seq![nv]);
        assert(table_rows.deep_view() =~= seq![nv] + spec_project(tv.rows, nv)->Some_0);
    }
    Ok(Frame::Table(table_rows))
}

/// One row's values under the requested names, rendered; `None` when a
/// requested column has no cell in the row.
fn project_row(row: &crate::db::row::Row, names: &Vec<Vec<u8>>) -> (r: Option<Vec<Vec<u8>>>)
    requires
        row@.wf(),
    ensures
        match r {
            Some(vals) => spec_row_vals(row@, names.deep_view()) == Some(vals.deep_view()),
            None => spec_row_vals(row@, names.deep_view()) is None,
        },
{
    let ghost nv = names.deep_view();
    let all = row.all_cols();
    let all_slice = all.as_slice();
    proof {
        assert(all_slice.deep_view() =~= all.deep_view());
        assert(crate::db::row::cells_wf(row@.all_cells())) by {
            assert(forall|k: int|
                0 <= k < row@.cols.len() ==> (#[trigger] row@.all_cells()[k]) == row@.cols[k]);
            assert(row@.all_cells()[row@.cols.len() as int] == row@.primary_key_col);
        }
    }
    let n = names.len();
    let mut out: Vec<Vec<u8>> = Vec::new();
    let mut i: usize = 0;
    proof {
        assert(nv.skip(0) =~= nv);
        assert(out.deep_view() =~= Seq::<Seq<u8>>::empty());
    }
    while i < n
        invariant
            n == names@.len(),
            nv == names.deep_view(),
            nv.len() == n,
            forall|k: int| 0 <= k < n ==> #[trigger] nv[k] == names@[k]@,
            row@.wf(),
            all_slice.deep_view() == row@.all_cells(),
            crate::db::row::cells_wf(row@.all_cells()),
            i <= n,
            match spec_row_vals(row@, nv.skip(i as int)) {
                Some(rest) => spec_row_vals(row@, nv) == Some(out.deep_view() + rest),
                None => spec_row_vals(row@, nv) is None,
            },
        decreases n - i,
    {
        proof {
            let rest = nv.skip(i as int);
            assert(rest[0] == nv[i as int]);
            assert(rest.skip(1) =~= nv.skip(i + 1));
        }
        match crate::db::row::find_cell(all_slice, names[i].as_slice()) {
            Some(v) => {
                let rendered = v.render();
                let ghost rv = rendered@;
                let ghost before = out.deep_view();
                proof {
                    assert(forall|k: int|
                        0 <= k < out@.len() ==> #[trigger] before[k] == out@[k]@);
                }
                out.push(rendered);
                proof {
                    assert(forall|k: int|
                        0 <= k < out@.len() ==> #[trigger] out.deep_view()[k] == out@[k]@);
                    assert(out.deep_view() =~= before.push(rv));
                    if spec_row_vals(row@, nv.skip(i + 1)) is Some {
                        let rest2 = spec_row_vals(row@, nv.skip(i + 1))->Some_0;
                        assert(before + (seq![rv] + rest2) =~= out.deep_view() + rest2);
                    }
                }
            },
            None => {
                return None;
            },
        }
        i = i + 1;
    }
    proof {
        assert(nv.skip(n as int) =~= Seq::<Seq<u8>>::empty());
        assert(out.deep_view() + Seq::<Seq<u8>>::empty() =~= out.deep_view());
    }
    Some(out)
}

} // verus!
