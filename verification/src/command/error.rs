use crate::db::error::{spec_db_message, DbErrV, DbError};
use vstd::prelude::*;
use vstd::string::StringSliceAdditionalSpecFns;

verus! {

pub type CmdResult<T> = Result<T, CmdError>;

/// A failure while executing a statement.
#[derive(Debug)]
pub enum CmdError {
    /// A state the parser's own guarantees rule out.
    Internal,
    /// The named table is not in the catalog.
    TableNotFound(Vec<u8>),
    /// An insert column list naming columns the table does not have.
    UnknownColumns(Vec<Vec<u8>>),
    /// A statement-level mistake, described by its message.
    User(Vec<u8>),
    /// A table-engine failure.
    Db(DbError),
    /// A parsed construct the executor does not implement.
    Unimplemented,
}

/// Specification-level form of an execution error.
pub enum CmdErrV {
    Internal,
    TableNotFound(Seq<u8>),
    UnknownColumns(Seq<Seq<u8>>),
    User(Seq<u8>),
    Db(DbErrV),
    Unimplemented,
}

impl View for CmdError {
    type V = CmdErrV;

    open spec fn view(&self) -> CmdErrV {
        match self {
            CmdError::Internal => CmdErrV::Internal,
            CmdError::TableNotFound(n) => CmdErrV::TableNotFound(n@),
            CmdError::UnknownColumns(ns) => CmdErrV::UnknownColumns(ns.deep_view()),
            CmdError::User(m) => CmdErrV::User(m@),
            CmdError::Db(e) => CmdErrV::Db(e@),
            CmdError::Unimplemented => CmdErrV::Unimplemented,
        }
    }
}

/// The unknown-column names rendered as a quoted, bracketed list.
pub open spec fn spec_name_list(ns: Seq<Seq<u8>>, i: int) -> Seq<u8>
    decreases ns.len() - i when 0 <= i <= ns.len()
{
    if i >= ns.len() {
        Seq::empty()
    } else if i == ns.len() - 1 {
        seq![34u8] + ns[i] + seq![34u8]
    } else {
        seq![34u8] + ns[i] + seq![34u8, 44u8, 32u8] + spec_name_list(ns, i + 1)
    }
}

/// Message text of an execution error.
pub open spec fn spec_cmd_message(e: CmdErrV) -> Seq<u8> {
    match e {
        CmdErrV::Internal => ("Internal Error").spec_bytes(),
        CmdErrV::TableNotFound(n) => ("Table \"").spec_bytes() + n + ("\" not found").spec_bytes(),
        CmdErrV::UnknownColumns(ns) => ("Unknown columns: [").spec_bytes() + spec_name_list(ns, 0)
            + seq![93u8],
        CmdErrV::User(m) => m,
        CmdErrV::Db(d) => spec_db_message(d),
        CmdErrV::Unimplemented => ("not implemented").spec_bytes(),
    }
}

impl CmdError {
    /// The diagnostic text of this error.
    pub fn message(&self) -> (r: Vec<u8>)
        ensures
            r@ == spec_cmd_message(self@),
    {
        let mut out: Vec<u8> = Vec::new();
        match self {
            CmdError::Internal => {
                out.extend_from_slice(("Internal Error").as_bytes());
            },
            CmdError::TableNotFound(n) => {
                out.extend_from_slice(("Table \"").as_bytes());
                out.extend_from_slice(n.as_slice());
                out.extend_from_slice(("\" not found").as_bytes());
            },
            CmdError::UnknownColumns(ns) => {
                out.extend_from_slice(("Unknown columns: [").as_bytes());
                let n = ns.len();
                let mut i: usize = 0;
                while i < n
                    invariant
                        n == ns@.len(),
                        ns.deep_view().len() == n,
                        forall|k: int| 0 <= k < n ==> #[trigger] ns.deep_view()[k] == ns@[k]@,
                        i <= n,
                        out@ == ("Unknown columns: [").spec_bytes() + spec_name_list(
                            ns.deep_view(),
                            0,
                        ).subrange(0, spec_name_list(ns.deep_view(), 0).len() - spec_name_list(
                            ns.deep_view(),
                            i as int,
                        ).len()),
                        spec_name_list(ns.deep_view(), i as int).len() <= spec_name_list(
                            ns.deep_view(),
                            0,
                        ).len(),
                        ("Unknown columns: [").spec_bytes() + spec_name_list(ns.deep_view(), 0)
                            == out@ + spec_name_list(ns.deep_view(), i as int),
                    decreases n - i,
                {
                    out.push(34);
                    out.extend_from_slice(ns[i].as_slice());
                    out.push(34);
                    if i + 1 < n {
                        out.push(44);
                        out.push(32);
                    }
                    proof {
                        let full = ("Unknown columns: [").spec_bytes() + spec_name_list(
                            ns.deep_view(),
                            0,
                        );
                        assert(full =~= out@ + spec_name_list(ns.deep_view(), (i + 1) as int));
                        assert(out@ =~= full.subrange(0, full.len() - spec_name_list(
                            ns.deep_view(),
                            (i + 1) as int,
                        ).len()));
                    }
                    i = i + 1;
                }
                proof {
                    assert(spec_name_list(ns.deep_view(), n as int) =~= Seq::<u8>::empty());
                    assert(out@ =~= ("Unknown columns: [").spec_bytes() + spec_name_list(
                        ns.deep_view(),
                        0,
                    ));
                }
                out.push(93);
            },
            CmdError::User(m) => {
                out.extend_from_slice(m.as_slice());
            },
            CmdError::Db(d) => {
                let mut msg = d.message();
                out.append(&mut msg);
            },
            CmdError::Unimplemented => {
                out.extend_from_slice(("not implemented").as_bytes());
            },
        }
        out
    }
}

} // verus!
