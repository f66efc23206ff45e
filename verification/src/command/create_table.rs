use crate::command::error::{CmdErrV, CmdError};
use crate::command::select::{idents_of, spec_idents};
use crate::connection::frame::{Frame, FrameV};
use crate::db::catalog::{spec_lookup, Db, DbV};
use crate::db::column_header::{spec_build, BuilderV, ColumnHeader, ColumnHeaderBuilder, DefaultOpt, DefaultV, HeaderV};
use crate::db::error::DbErrV;
use crate::db::row::{cells_wf, Column, ColumnV, Row, RowV};
use crate::db::table::{
    lemma_append_wf, lemma_new_table_wf, spec_append, spec_new_table, Table, TableV,
};
use crate::parse::ast::{
    col_decls_wf, ColDecl, ColDeclV, Command, CommandV, Constraint, ConstraintV, Expr, ExprV, Key,
    KeyV, LiteralValue, TableDef, TableDefV, Ty, ValueV,
};
use crate::parse::token::{bytes_eq, Token, TokenV};
use vstd::prelude::*;
use vstd::string::StringSliceAdditionalSpecFns;

verus! {

/// Whether the declaration carries the given parameterless constraint.
pub open spec fn spec_has_flag(cs: Seq<ConstraintV>, c: ConstraintV) -> bool {
    exists|k: int| 0 <= k < cs.len() && #[trigger] cs[k] == c
}

/// The first literal default among the constraints, if any.
pub open spec fn spec_default_of(cs: Seq<ConstraintV>) -> DefaultV
    decreases cs.len(),
{
    if cs.len() == 0 {
        DefaultV::Absent
    } else {
        match cs[0] {
            ConstraintV::Default(v) => DefaultV::Literal(v),
            _ => spec_default_of(cs.skip(1)),
        }
    }
}

/// The first check expression among the constraints, if any.
pub open spec fn spec_check_of(cs: Seq<ConstraintV>) -> Option<ExprV>
    decreases cs.len(),
{
    if cs.len() == 0 {
        None
    } else {
        match cs[0] {
            ConstraintV::Check(e) => Some(e),
            _ => spec_check_of(cs.skip(1)),
        }
    }
}

/// The header one declaration builds, or the failure: an unimplemented
/// constraint, a declaration the grammar cannot produce, or the
/// builder's type mismatch.
pub open spec fn spec_header_of(decl: ColDeclV) -> Result<HeaderV, CmdErrV> {
    if spec_has_flag(decl.constraints, ConstraintV::ForeignKey) || spec_has_flag(
        decl.constraints,
        ConstraintV::CreateIndex,
    ) {
        Err(CmdErrV::Unimplemented)
    } else {
        match decl.ident {
            TokenV::Identifier(name) => match spec_build(
                BuilderV {
                    name,
                    is_primary_key: spec_has_flag(decl.constraints, ConstraintV::PrimaryKey),
                    is_hidden: false,
                    not_null: spec_has_flag(decl.constraints, ConstraintV::NotNull),
                    unique: spec_has_flag(decl.constraints, ConstraintV::Unique),
                    default: spec_default_of(decl.constraints),
                    check: spec_check_of(decl.constraints),
                    ty: Some(decl.ty),
                },
            ) {
                Ok(h) => Ok(h),
                Err(e) => Err(CmdErrV::Db(e)),
            },
            _ => Err(CmdErrV::Internal),
        }
    }
}

/// The headers all the declarations build, or the first failure.
pub open spec fn spec_headers_of(decls: Seq<ColDeclV>) -> Result<Seq<HeaderV>, CmdErrV>
    decreases decls.len(),
{
    if decls.len() == 0 {
        Ok(Seq::empty())
    } else {
        match spec_header_of(decls[0]) {
            Err(e) => Err(e),
            Ok(h) => match spec_headers_of(decls.skip(1)) {
                Err(e) => Err(e),
                Ok(rest) => Ok(seq![h] + rest),
            },
        }
    }
}

/// What creating a table from declarations yields: the built table
/// (with the implicit key when none is declared) bound to the name,
/// and the empty result; or the first failure, with the catalog
/// untouched.
pub open spec fn spec_create_cols(d: DbV, name: TokenV, decls: Seq<ColDeclV>) -> (
    DbV,
    Result<FrameV, CmdErrV>,
) {
    match name {
        TokenV::Identifier(tname) => match spec_headers_of(decls) {
            Err(e) => (d, Err(e)),
            Ok(hs) => match spec_new_table(hs) {
                Err(e) => (d, Err(CmdErrV::Db(e))),
                Ok(t) => (spec_catalog_insert(d, tname, t), Ok(FrameV::Null)),
            },
        },
        _ => (d, Err(CmdErrV::Internal)),
    }
}

/// The catalog with `t` bound to `tname`, replacing any table already
/// under that name.
pub open spec fn spec_catalog_insert(d: DbV, tname: Seq<u8>, t: TableV) -> DbV {
    match spec_lookup(d.names, tname) {
        Some(i) => DbV { names: d.names, tables: d.tables.update(i, t) },
        None => DbV { names: d.names.push(tname), tables: d.tables.push(t) },
    }
}

/// The source headers kept for the derived table: all of them for a
/// glob, else those whose name is listed.
pub open spec fn spec_kept_headers(hs: Seq<HeaderV>, names: Option<Seq<Seq<u8>>>) -> Seq<HeaderV>
    decreases hs.len(),
{
    match names {
        None => hs,
        Some(ns) => if hs.len() == 0 {
            Seq::empty()
        } else if crate::command::insert::spec_has_name(ns, hs[0].name) {
            seq![hs[0]] + spec_kept_headers(hs.skip(1), names)
        } else {
            spec_kept_headers(hs.skip(1), names)
        },
    }
}

/// The cells of one source row kept for the derived table.
pub open spec fn spec_kept_cells(cs: Seq<ColumnV>, names: Option<Seq<Seq<u8>>>) -> Seq<ColumnV>
    decreases cs.len(),
{
    match names {
        None => cs,
        Some(ns) => if cs.len() == 0 {
            Seq::empty()
        } else if crate::command::insert::spec_has_name(ns, cs[0].name) {
            seq![cs[0]] + spec_kept_cells(cs.skip(1), names)
        } else {
            spec_kept_cells(cs.skip(1), names)
        },
    }
}

/// The derived table filled row by row from the source rows, or the
/// first failure.
pub open spec fn spec_fill_from(
    t: TableV,
    src: Seq<RowV>,
    names: Option<Seq<Seq<u8>>>,
    i: int,
) -> Result<TableV, DbErrV>
    decreases src.len() - i when 0 <= i <= src.len()
{
    if i == src.len() {
        Ok(t)
    } else {
        match spec_append(t, spec_kept_cells(src[i].all_cells(), names)) {
            Err(e) => Err(e),
            Ok(t2) => spec_fill_from(t2, src, names, i + 1),
        }
    }
}

/// What creating a table from an embedded select yields: a table
/// whose headers are the kept source headers and whose rows are the
/// source rows projected onto them, bound to the name; or the first
/// failure, with the catalog untouched.
pub open spec fn spec_create_as(d: DbV, name: TokenV, cmd: CommandV) -> (
    DbV,
    Result<FrameV, CmdErrV>,
) {
    match name {
        TokenV::Identifier(tname) => match cmd {
            CommandV::Select { key, table } => match table {
                TokenV::Identifier(src_name) => match spec_lookup(d.names, src_name) {
                    None => (d, Err(CmdErrV::TableNotFound(src_name))),
                    Some(ix) => {
                        let src = d.tables[ix];
                        let names_opt = match key {
                            KeyV::Glob => Ok(None),
                            KeyV::List(ts) => match spec_idents(ts) {
                                Some(ns) => Ok(Some(ns)),
                                None => Err(CmdErrV::Internal),
                            },
                        };
                        match names_opt {
                            Err(e) => (d, Err(e)),
                            Ok(ns) => match spec_new_table(
                                spec_kept_headers(src.col_headers, ns),
                            ) {
                                Err(e) => (d, Err(CmdErrV::Db(e))),
                                Ok(t0) => match spec_fill_from(t0, src.rows, ns, 0) {
                                    Err(e) => (d, Err(CmdErrV::Db(e))),
                                    Ok(t) => (spec_catalog_insert(d, tname, t), Ok(FrameV::Null)),
                                },
                            },
                        }
                    },
                },
                _ => (d, Err(CmdErrV::Internal)),
            },
            _ => (d, Err(CmdErrV::User(("expected `SELECT`").spec_bytes()))),
        },
        _ => (d, Err(CmdErrV::Internal)),
    }
}

/// What a create-table statement yields.
pub open spec fn spec_create_cmd(d: DbV, name: TokenV, def: TableDefV) -> (
    DbV,
    Result<FrameV, CmdErrV>,
) {
    match def {
        TableDefV::Cols(decls) => spec_create_cols(d, name, decls),
        TableDefV::As(cmd) => spec_create_as(d, name, *cmd),
    }
}

/// Whether the constraints hold the given parameterless constraint.
fn has_flag(cs: &[Constraint], c: &Constraint) -> (r: bool)
    ensures
        r == spec_has_flag(cs.deep_view(), c@),
{
    let n = cs.len();
    let mut i: usize = 0;
    while i < n
        invariant
            n == cs@.len(),
            cs.deep_view().len() == n,
            forall|k: int| 0 <= k < n ==> cs.deep_view()[k] == (#[trigger] cs@[k])@,
            i <= n,
            forall|k: int| 0 <= k < i ==> #[trigger] cs.deep_view()[k] != c@,
        decreases n - i,
    {
        if crate::parse::ast::constraint_eq(&cs[i], c) {
            proof {
                assert(cs.deep_view()[i as int] == c@);
            }
            return true;
        }
        i = i + 1;
    }
    false
}

/// The first literal default among the constraints.
fn default_of(cs: &[Constraint]) -> (r: DefaultOpt)
    ensures
        r@ == spec_default_of(cs.deep_view()),
{
    let n = cs.len();
    let mut i: usize = 0;
    proof {
        assert(cs.deep_view().skip(0) =~= cs.deep_view());
    }
    while i < n
        invariant
            n == cs@.len(),
            cs.deep_view().len() == n,
            forall|k: int| 0 <= k < n ==> cs.deep_view()[k] == (#[trigger] cs@[k])@,
            i <= n,
            spec_default_of(cs.deep_view()) == spec_default_of(cs.deep_view().skip(i as int)),
        decreases n - i,
    {
        proof {
            let rest = cs.deep_view().skip(i as int);
            assert(rest[0] == cs.deep_view()[i as int]);
            assert(rest.skip(1) =~= cs.deep_view().skip(i + 1));
        }
        match &cs[i] {
            Constraint::Default(lit) => {
                return DefaultOpt::Literal(lit.clone());
            },
            _ => {},
        }
        i = i + 1;
    }
    proof {
        assert(cs.deep_view().skip(n as int) =~= Seq::<ConstraintV>::empty());
    }
    DefaultOpt::Absent
}

/// The first check expression among the constraints.
fn check_of(cs: &[Constraint]) -> (r: Option<Expr>)
    ensures
        match r {
            Some(e) => spec_check_of(cs.deep_view()) == Some(e@),
            None => spec_check_of(cs.deep_view()) is None,
        },
{
    let n = cs.len();
    let mut i: usize = 0;
    proof {
        assert(cs.deep_view().skip(0) =~= cs.deep_view());
    }
    while i < n
        invariant
            n == cs@.len(),
            cs.deep_view().len() == n,
            forall|k: int| 0 <= k < n ==> cs.deep_view()[k] == (#[trigger] cs@[k])@,
            i <= n,
            spec_check_of(cs.deep_view()) == spec_check_of(cs.deep_view().skip(i as int)),
        decreases n - i,
    {
        proof {
            let rest = cs.deep_view().skip(i as int);
            assert(rest[0] == cs.deep_view()[i as int]);
            assert(rest.skip(1) =~= cs.deep_view().skip(i + 1));
        }
        match &cs[i] {
            Constraint::Check(e) => {
                return Some(e.clone());
            },
            _ => {},
        }
        i = i + 1;
    }
    proof {
        assert(cs.deep_view().skip(n as int) =~= Seq::<ConstraintV>::empty());
    }
    None
}

/// Builds the header one declaration describes.
fn header_of(decl: &ColDecl) -> (r: Result<ColumnHeader, CmdError>)
    ensures
        match r {
            Ok(h) => spec_header_of(decl@) == Ok::<HeaderV, CmdErrV>(h@),
            Err(e) => spec_header_of(decl@) == Err::<HeaderV, CmdErrV>(e@),
        },
{
    let cs = decl.constraints();
    if has_flag(cs, &Constraint::ForeignKey) || has_flag(cs, &Constraint::CreateIndex) {
        return Err(CmdError::Unimplemented);
    }
    let name = match decl.ident() {
        Ok(n) => n.clone(),
        Err(_) => {
            return Err(CmdError::Internal);
        },
    };
    let builder = ColumnHeader::new(name).primary_key(has_flag(cs, &Constraint::PrimaryKey)).unique(
        has_flag(cs, &Constraint::Unique),
    ).not_null(has_flag(cs, &Constraint::NotNull)).def(default_of(cs)).check(check_of(cs)).ty(
        *decl.ty(),
    );
    match builder.build() {
        Ok(h) => Ok(h),
        Err(e) => Err(CmdError::Db(e)),
    }
}

/// Builds the headers of all the declarations from position `i` on.
fn headers_of(decls: &[ColDecl], i: usize) -> (r: Result<Vec<ColumnHeader>, CmdError>)
    requires
        i <= decls@.len(),
    ensures
        match r {
            Ok(hs) => spec_headers_of(decls.deep_view().skip(i as int)) == Ok::<
                Seq<HeaderV>,
                CmdErrV,
            >(hs.deep_view()),
            Err(e) => spec_headers_of(decls.deep_view().skip(i as int)) == Err::<
                Seq<HeaderV>,
                CmdErrV,
            >(e@),
        },
    decreases decls@.len() - i,
{
    if i == decls.len() {
        let hs: Vec<ColumnHeader> = Vec::new();
        proof {
            assert(decls.deep_view().skip(i as int) =~= Seq::<ColDeclV>::empty());
            assert(hs.deep_view() =~= Seq::<HeaderV>::empty());
        }
        return Ok(hs);
    }
    proof {
        let rest = decls.deep_view().skip(i as int);
        assert(rest[0] == decls.deep_view()[i as int]);
        assert(decls.deep_view()[i as int] == decls@[i as int]@);
        assert(rest.skip(1) =~= decls.deep_view().skip(i + 1));
    }
    let h = match header_of(&decls[i]) {
        Ok(h) => h,
        Err(e) => {
            return Err(e);
        },
    };
    let rest = match headers_of(decls, i + 1) {
        Ok(hs) => hs,
        Err(e) => {
            return Err(e);
        },
    };
    let out = crate::parse::parser::prepend(h, rest);
    proof {
        assert(out.deep_view() =~= seq![h@] + spec_headers_of(
            decls.deep_view().skip(i + 1),
        )->Ok_0);
    }
    Ok(out)
}

/// A built header of a well-formed declaration is well formed.
proof fn lemma_header_of_wf(decl: ColDeclV)
    requires
        decl.wf(),
    ensures
        spec_header_of(decl) matches Ok(h) ==> h.wf(),
{
    if spec_header_of(decl) is Ok {
        lemma_default_of_wf(decl.constraints);
        lemma_check_of_wf(decl.constraints);
    }
}

proof fn lemma_default_of_wf(cs: Seq<ConstraintV>)
    requires
        crate::parse::ast::constraints_wf(cs),
    ensures
        match spec_default_of(cs) {
            DefaultV::Literal(v) => v.wf(),
            _ => true,
        },
    decreases cs.len(),
{
    if cs.len() > 0 {
        match cs[0] {
            ConstraintV::Default(v) => {
                assert(cs[0].wf());
            },
            _ => {
                assert(crate::parse::ast::constraints_wf(cs.skip(1))) by {
                    assert(forall|k: int|
                        0 <= k < cs.len() - 1 ==> #[trigger] cs.skip(1)[k] == cs[k + 1]);
                }
                lemma_default_of_wf(cs.skip(1));
            },
        }
    }
}

proof fn lemma_check_of_wf(cs: Seq<ConstraintV>)
    requires
        crate::parse::ast::constraints_wf(cs),
    ensures
        match spec_check_of(cs) {
            Some(e) => e.wf(),
            None => true,
        },
    decreases cs.len(),
{
    if cs.len() > 0 {
        match cs[0] {
            ConstraintV::Check(e) => {
                assert(cs[0].wf());
            },
            _ => {
                assert(crate::parse::ast::constraints_wf(cs.skip(1))) by {
                    assert(forall|k: int|
                        0 <= k < cs.len() - 1 ==> #[trigger] cs.skip(1)[k] == cs[k + 1]);
                }
                lemma_check_of_wf(cs.skip(1));
            },
        }
    }
}

/// All built headers of well-formed declarations are well formed.
pub proof fn lemma_headers_of_wf(decls: Seq<ColDeclV>)
    requires
        col_decls_wf(decls),
    ensures
        spec_headers_of(decls) matches Ok(hs) ==> forall|k: int|
            0 <= k < hs.len() ==> (#[trigger] hs[k]).wf(),
    decreases decls.len(),
{
    if decls.len() > 0 && spec_headers_of(decls) is Ok {
        assert(decls[0].wf());
        lemma_header_of_wf(decls[0]);
        assert(col_decls_wf(decls.skip(1))) by {
            assert(forall|k: int|
                0 <= k < decls.len() - 1 ==> #[trigger] decls.skip(1)[k] == decls[k + 1]);
        }
        lemma_headers_of_wf(decls.skip(1));
        let hs = spec_headers_of(decls)->Ok_0;
        let rest = spec_headers_of(decls.skip(1))->Ok_0;
        assert forall|k: int| 0 <= k < hs.len() implies (#[trigger] hs[k]).wf() by {
            if k > 0 {
                assert(hs[k] == rest[k - 1]);
            }
        }
    }
}

/// Creates a table from column declarations and binds it in the
/// catalog.
pub fn from_col_decls(db: &mut Db, name: Token, col_decls: Vec<ColDecl>) -> (r: Result<
    Frame,
    CmdError,
>)
    requires
        old(db)@.wf(),
        col_decls_wf(col_decls.deep_view()),
    ensures
        final(db)@.wf(),
        ({
            let (d2, res) = spec_create_cols(old(db)@, name@, col_decls.deep_view());
            final(db)@.names == d2.names && final(db)@.tables == d2.tables && match r {
                Ok(f) => res == Ok::<FrameV, CmdErrV>(f@),
                Err(e) => res == Err::<FrameV, CmdErrV>(e@),
            }
        }),
{
    let tname = match name {
        Token::Identifier(n) => n,
        _ => {
            return Err(CmdError::Internal);
        },
    };
    let decls_slice = col_decls.as_slice();
    proof {
        assert(decls_slice.deep_view() =~= col_decls.deep_view());
        assert(decls_slice.deep_view().skip(0) =~= decls_slice.deep_view());
    }
    let headers = match headers_of(decls_slice, 0) {
        Ok(hs) => hs,
        Err(e) => {
            return Err(e);
        },
    };
    let table = match Table::try_from(headers) {
        Ok(t) => t,
        Err(e) => {
            return Err(CmdError::Db(e));
        },
    };
    proof {
        lemma_headers_of_wf(col_decls.deep_view());
        lemma_new_table_wf(spec_headers_of(col_decls.deep_view())->Ok_0);
    }
    let ghost tv = table@;
    proof {
        crate::db::catalog::lemma_lookup_bounds(db@.names, tname@);
    }
    db.insert(tname, table);
    proof {
        crate::db::catalog::lemma_lookup_bounds(old(db)@.names, tname@);
        match spec_lookup(old(db)@.names, tname@) {
            Some(i) => {
                assert(0 <= i < old(db)@.tables.len());
                assert(db@.tables =~= old(db)@.tables.update(i, tv));
            },
            None => {},
        }
        assert(db@.wf()) by {
            assert(db@.names.len() == db@.tables.len());
            assert(forall|k: int|
                0 <= k < db@.tables.len() ==> (#[trigger] db@.tables[k]).wf());
        }
    }
    Ok(Frame::Null)
}

/// The source headers kept for the derived table, cloned.
fn kept_headers(hs: &[ColumnHeader], names_opt: &Option<Vec<Vec<u8>>>, i: usize) -> (r: Vec<
    ColumnHeader,
>)
    requires
        i <= hs@.len(),
    ensures
        r.deep_view() == spec_kept_headers(hs.deep_view().skip(i as int), names_opt.deep_view()),
    decreases hs@.len() - i,
{
    if i == hs.len() {
        let out: Vec<ColumnHeader> = Vec::new();
        proof {
            assert(hs.deep_view().skip(i as int) =~= Seq::<HeaderV>::empty());
            assert(out.deep_view() =~= Seq::<HeaderV>::empty());
            match names_opt.deep_view() {
                Some(ns) => {},
                None => {},
            }
        }
        return out;
    }
    proof {
        let rest = hs.deep_view().skip(i as int);
        assert(rest[0] == hs.deep_view()[i as int]);
        assert(hs.deep_view()[i as int] == hs@[i as int]@);
        assert(rest.skip(1) =~= hs.deep_view().skip(i + 1));
    }
    let keep = match names_opt {
        None => true,
        Some(ns) => crate::command::insert::has_name(ns, hs[i].name().as_slice()),
    };
    let rest = kept_headers(hs, names_opt, i + 1);
    if keep {
        let out = crate::parse::parser::prepend(hs[i].clone(), rest);
        proof {
            assert(out.deep_view() =~= seq![hs@[i as int]@] + spec_kept_headers(
                hs.deep_view().skip(i + 1),
                names_opt.deep_view(),
            ));
        }
        out
    } else {
        rest
    }
}

/// The cells of one source row kept for the derived table, cloned.
fn kept_cells(cs: &[Column], names_opt: &Option<Vec<Vec<u8>>>, i: usize) -> (r: Vec<Column>)
    requires
        i <= cs@.len(),
    ensures
        r.deep_view() == spec_kept_cells(cs.deep_view().skip(i as int), names_opt.deep_view()),
    decreases cs@.len() - i,
{
    if i == cs.len() {
        let out: Vec<Column> = Vec::new();
        proof {
            assert(cs.deep_view().skip(i as int) =~= Seq::<ColumnV>::empty());
            assert(out.deep_view() =~= Seq::<ColumnV>::empty());
            match names_opt.deep_view() {
                Some(ns) => {},
                None => {},
            }
        }
        return out;
    }
    proof {
        let rest = cs.deep_view().skip(i as int);
        assert(rest[0] == cs.deep_view()[i as int]);
        assert(cs.deep_view()[i as int] == cs@[i as int]@);
        assert(rest.skip(1) =~= cs.deep_view().skip(i + 1));
    }
    let keep = match names_opt {
        None => true,
        Some(ns) => crate::command::insert::has_name(ns, cs[i].name().as_slice()),
    };
    let rest = kept_cells(cs, names_opt, i + 1);
    if keep {
        let out = crate::parse::parser::prepend(cs[i].clone(), rest);
        proof {
            assert(out.deep_view() =~= seq![cs@[i as int]@] + spec_kept_cells(
                cs.deep_view().skip(i + 1),
                names_opt.deep_view(),
            ));
        }
        out
    } else {
        rest
    }
}

/// Creates a table from the result of an embedded select and binds it
/// in the catalog.
pub fn from_other(db: &mut Db, name: Token, command: Command) -> (r: Result<Frame, CmdError>)
    requires
        old(db)@.wf(),
    ensures
        final(db)@.wf(),
        ({
            let (d2, res) = spec_create_as(old(db)@, name@, command@);
            final(db)@.names == d2.names && final(db)@.tables == d2.tables && match r {
                Ok(f) => res == Ok::<FrameV, CmdErrV>(f@),
                Err(e) => res == Err::<FrameV, CmdErrV>(e@),
            }
        }),
{
    let tname = match name {
        Token::Identifier(n) => n,
        _ => {
            return Err(CmdError::Internal);
        },
    };
    let (key, src_tok) = match command {
        Command::Select { key, table } => (key, table),
        _ => {
            let mut msg: Vec<u8> = Vec::new();
            msg.extend_from_slice(("expected `SELECT`").as_bytes());
            proof {
                assert(msg@ =~= ("expected `SELECT`").spec_bytes());
            }
            return Err(CmdError::User(msg));
        },
    };
    let src_name = match src_tok {
        Token::Identifier(n) => n,
        _ => {
            return Err(CmdError::Internal);
        },
    };
    let ghost d0 = db@;
    let src_exists = match db.get(src_name.as_slice()) {
        Some(_) => true,
        None => false,
    };
    if !src_exists {
        return Err(CmdError::TableNotFound(src_name));
    }
    let names_opt: Option<Vec<Vec<u8>>> = match key {
        Key::Glob => None,
        Key::List(ts) => match idents_of(&ts) {
            Ok(ns) => Some(ns),
            Err(e) => {
                return Err(e);
            },
        },
    };
    // gather everything needed from the source table, then release it
    let (kept, projected) = match db.get(src_name.as_slice()) {
        None => {
            proof {
                assert(false);
            }
            return Err(CmdError::Internal);
        },
        Some(src) => {
            let ghost sv = src@;
            proof {
                crate::db::catalog::lemma_lookup_bounds(d0.names, src_name@);
                assert(sv.wf());
            }
            let shs = src.col_headers();
            proof {
                assert(shs.deep_view().skip(0) =~= shs.deep_view());
            }
            let kept = kept_headers(shs, &names_opt, 0);
            let rows = src.rows();
            let nrows = rows.len();
            let mut projected: Vec<Vec<Column>> = Vec::new();
            let mut i: usize = 0;
            while i < nrows
                invariant
                    nrows == rows@.len(),
                    rows.deep_view() == sv.rows,
                    sv.rows.len() == nrows,
                    forall|k: int| 0 <= k < nrows ==> sv.rows[k] == (#[trigger] rows@[k])@,
                    i <= nrows,
                    projected.deep_view().len() == i,
                    forall|k: int|
                        0 <= k < i ==> #[trigger] projected.deep_view()[k] == spec_kept_cells(
                            sv.rows[k].all_cells(),
                            names_opt.deep_view(),
                        ),
                decreases nrows - i,
            {
                let all = rows[i].all_cols();
                let all_slice = all.as_slice();
                proof {
                    assert(all_slice.deep_view() =~= all.deep_view());
                    assert(all_slice.deep_view().skip(0) =~= all_slice.deep_view());
                }
                let cells = kept_cells(all_slice, &names_opt, 0);
                let ghost cells_snap = cells.deep_view();
                let ghost before = projected.deep_view();
                proof {
                    assert(projected.deep_view().len() == projected@.len());
                    assert(forall|k: int|
                        0 <= k < projected@.len() ==> #[trigger] before[k]
                            == projected@[k].deep_view());
                }
                projected.push(cells);
                proof {
                    assert(forall|k: int|
                        0 <= k < projected@.len() ==> #[trigger] projected.deep_view()[k]
                            == projected@[k].deep_view());
                    assert(projected.deep_view()[i as int] == cells_snap);
                    assert forall|k: int| 0 <= k <= i implies #[trigger] projected.deep_view()[k]
                        == spec_kept_cells(sv.rows[k].all_cells(), names_opt.deep_view()) by {
                        if k < i {
                            assert(projected.deep_view()[k] == projected@[k].deep_view());
                            assert(before[k] == projected@[k].deep_view());
                        }
                    }
                }
                i = i + 1;
            }
            (kept, projected)
        },
    };
    let ghost ix = spec_lookup(d0.names, src_name@)->Some_0;
    let ghost sv = d0.tables[ix];
    proof {
        assert(projected.deep_view().len() == projected@.len());
        assert(forall|k: int|
            0 <= k < projected@.len() ==> #[trigger] projected@[k].deep_view()
                == projected.deep_view()[k]);
    }
    let mut t = match Table::try_from(kept) {
        Ok(t) => t,
        Err(e) => {
            return Err(CmdError::Db(e));
        },
    };
    proof {
        lemma_kept_headers_wf(sv.col_headers, names_opt.deep_view());
        lemma_new_table_wf(spec_kept_headers(sv.col_headers, names_opt.deep_view()));
    }
    let ghost t0 = t@;
    let n = projected.len();
    let mut i: usize = 0;
    let mut failed: Option<CmdError> = None;
    while i < n && failed.is_none()
        invariant
            n == projected@.len(),
            sv.rows.len() == n,
            forall|k: int|
                0 <= k < n ==> #[trigger] projected@[k].deep_view() == spec_kept_cells(
                    sv.rows[k].all_cells(),
                    names_opt.deep_view(),
                ),
            sv.wf(),
            i <= n,
            t@.wf(),
            match failed {
                None => spec_fill_from(t0, sv.rows, names_opt.deep_view(), 0) == spec_fill_from(
                    t@,
                    sv.rows,
                    names_opt.deep_view(),
                    i as int,
                ),
                Some(e) => e@ matches CmdErrV::Db(de) && spec_fill_from(
                    t0,
                    sv.rows,
                    names_opt.deep_view(),
                    0,
                ) == Err::<TableV, DbErrV>(de),
            },
        decreases n - i, (match failed {
            None => 1int,
            Some(_) => 0int,
        }),
    {
        let ghost tcur = t@;
        proof {
            assert(cells_wf(sv.rows[i as int].all_cells())) by {
                let row = sv.rows[i as int];
                assert(row.wf());
                assert(forall|k: int|
                    0 <= k < row.cols.len() ==> (#[trigger] row.all_cells()[k]) == row.cols[k]);
                assert(row.all_cells()[row.cols.len() as int] == row.primary_key_col);
            }
            lemma_kept_cells_wf(sv.rows[i as int].all_cells(), names_opt.deep_view());
        }
        match t.append(crate::db::row::clone_cells(&projected[i])) {
            Ok(_) => {
                proof {
                    lemma_append_wf(
                        tcur,
                        spec_kept_cells(sv.rows[i as int].all_cells(), names_opt.deep_view()),
                    );
                }
                i = i + 1;
            },
            Err(e) => {
                failed = Some(CmdError::Db(e));
            },
        }
    }
    match failed {
        Some(e) => {
            return Err(e);
        },
        None => {},
    }
    let ghost tv = t@;
    proof {
        crate::db::catalog::lemma_lookup_bounds(db@.names, tname@);
    }
    db.insert(tname, t);
    proof {
        crate::db::catalog::lemma_lookup_bounds(d0.names, tname@);
        match spec_lookup(d0.names, tname@) {
            Some(q) => {
                assert(0 <= q < d0.tables.len());
                assert(db@.tables =~= d0.tables.update(q, tv));
            },
            None => {},
        }
        assert(db@.wf()) by {
            assert(db@.names.len() == db@.tables.len());
            assert(forall|k: int|
                0 <= k < db@.tables.len() ==> (#[trigger] db@.tables[k]).wf());
        }
    }
    Ok(Frame::Null)
}

/// Kept headers of a well-formed table stay well formed.
proof fn lemma_kept_headers_wf(hs: Seq<HeaderV>, names: Option<Seq<Seq<u8>>>)
    requires
        forall|k: int| 0 <= k < hs.len() ==> (#[trigger] hs[k]).wf(),
    ensures
        forall|k: int|
            0 <= k < spec_kept_headers(hs, names).len() ==> (#[trigger] spec_kept_headers(
                hs,
                names,
            )[k]).wf(),
    decreases hs.len(),
{
    match names {
        None => {},
        Some(ns) => {
            if hs.len() > 0 {
                assert(forall|k: int|
                    0 <= k < hs.len() - 1 ==> #[trigger] hs.skip(1)[k] == hs[k + 1]);
                lemma_kept_headers_wf(hs.skip(1), names);
                let out = spec_kept_headers(hs, names);
                let rest = spec_kept_headers(hs.skip(1), names);
                assert forall|k: int| 0 <= k < out.len() implies (#[trigger] out[k]).wf() by {
                    if crate::command::insert::spec_has_name(ns, hs[0].name) {
                        if k == 0 {
                            assert(out[0] == hs[0]);
                        } else {
                            assert(out[k] == rest[k - 1]);
                        }
                    } else {
                        assert(out[k] == rest[k]);
                    }
                }
            }
        },
    }
}

/// Kept cells of a well-formed row stay well formed.
proof fn lemma_kept_cells_wf(cs: Seq<ColumnV>, names: Option<Seq<Seq<u8>>>)
    requires
        cells_wf(cs),
    ensures
        cells_wf(spec_kept_cells(cs, names)),
    decreases cs.len(),
{
    match names {
        None => {},
        Some(ns) => {
            if cs.len() > 0 {
                assert(cells_wf(cs.skip(1))) by {
                    assert(forall|k: int|
                        0 <= k < cs.len() - 1 ==> #[trigger] cs.skip(1)[k] == cs[k + 1]);
                }
                lemma_kept_cells_wf(cs.skip(1), names);
                let out = spec_kept_cells(cs, names);
                let rest = spec_kept_cells(cs.skip(1), names);
                assert forall|k: int| 0 <= k < out.len() implies (#[trigger] out[k]).wf() by {
                    if crate::command::insert::spec_has_name(ns, cs[0].name) {
                        if k == 0 {
                            assert(out[0] == cs[0]);
                        } else {
                            assert(out[k] == rest[k - 1]);
                        }
                    } else {
                        assert(out[k] == rest[k]);
                    }
                }
            }
        },
    }
}

/// Runs a create-table statement.
pub fn create_table(db: &mut Db, name: Token, def: TableDef) -> (r: Result<Frame, CmdError>)
    requires
        old(db)@.wf(),
        cmd_def_wf(def@),
    ensures
        final(db)@.wf(),
        ({
            let (d2, res) = spec_create_cmd(old(db)@, name@, def@);
            final(db)@.names == d2.names && final(db)@.tables == d2.tables && match r {
                Ok(f) => res == Ok::<FrameV, CmdErrV>(f@),
                Err(e) => res == Err::<FrameV, CmdErrV>(e@),
            }
        }),
{
    match def {
        TableDef::Cols(col_decls) => from_col_decls(db, name, col_decls),
        TableDef::As(cmd) => from_other(db, name, *cmd),
    }
}

/// The declarations of a table definition are well formed.
pub open spec fn cmd_def_wf(d: TableDefV) -> bool {
    match d {
        TableDefV::Cols(ds) => col_decls_wf(ds),
        TableDefV::As(_) => true,
    }
}

} // verus!
