use crate::decimal::{spec_digits, u64_digits};
use crate::parse::ast::{spec_eval_message, EvalError, Ty};
use vstd::prelude::*;
use vstd::string::StringSliceAdditionalSpecFns;

verus! {

pub type DbResult<T> = Result<T, DbError>;

/// A failure while building a table or appending a row.
#[derive(Debug)]
pub enum DbError {
    /// Two declared columns share a name.
    DuplicateColumns,
    /// More than one column carries the primary-key flag.
    MultiplePrimaryKeys(u64),
    /// A literal default whose type differs from the declared type.
    DefaultTypeMismatch { expected: Ty, got: Ty },
    /// A column built without a declared type.
    TypeNotSpecified,
    /// An appended cell names no column of the table.
    ColumnNotFound(Vec<u8>),
    /// A null cell on a not-null column.
    NotNullable(Vec<u8>),
    /// A cell value already present in a unique column.
    NotUnique(Vec<u8>),
    /// A cell value whose type differs from the column's.
    TypeMismatch(Ty),
    /// A check expression that evaluated to false.
    CheckFailed(Vec<u8>),
    /// A check expression that could not be evaluated.
    Eval(EvalError),
    /// The primary key was not supplied and its column has no counter.
    MustSpecifyPrimaryKey,
    /// A state the table's own invariants rule out.
    Internal,
}

/// Specification-level form of a database error.
pub enum DbErrV {
    DuplicateColumns,
    MultiplePrimaryKeys(u64),
    DefaultTypeMismatch { expected: Ty, got: Ty },
    TypeNotSpecified,
    ColumnNotFound(Seq<u8>),
    NotNullable(Seq<u8>),
    NotUnique(Seq<u8>),
    TypeMismatch(Ty),
    CheckFailed(Seq<u8>),
    Eval(EvalError),
    MustSpecifyPrimaryKey,
    Internal,
}

impl View for DbError {
    type V = DbErrV;

    open spec fn view(&self) -> DbErrV {
        match self {
            DbError::DuplicateColumns => DbErrV::DuplicateColumns,
            DbError::MultiplePrimaryKeys(n) => DbErrV::MultiplePrimaryKeys(*n),
            DbError::DefaultTypeMismatch { expected, got } => DbErrV::DefaultTypeMismatch {
                expected: *expected,
                got: *got,
            },
            DbError::TypeNotSpecified => DbErrV::TypeNotSpecified,
            DbError::ColumnNotFound(n) => DbErrV::ColumnNotFound(n@),
            DbError::NotNullable(n) => DbErrV::NotNullable(n@),
            DbError::NotUnique(n) => DbErrV::NotUnique(n@),
            DbError::TypeMismatch(t) => DbErrV::TypeMismatch(*t),
            DbError::CheckFailed(n) => DbErrV::CheckFailed(n@),
            DbError::Eval(e) => DbErrV::Eval(*e),
            DbError::MustSpecifyPrimaryKey => DbErrV::MustSpecifyPrimaryKey,
            DbError::Internal => DbErrV::Internal,
        }
    }
}

impl DeepView for DbError {
    type V = DbErrV;

    open spec fn deep_view(&self) -> DbErrV {
        self.view()
    }
}

/// The name of a type, as the diagnostics print it.
pub open spec fn spec_ty_name(t: Ty) -> Seq<u8> {
    match t {
        Ty::String => ("String").spec_bytes(),
        Ty::Number => ("Number").spec_bytes(),
        Ty::Bool => ("Bool").spec_bytes(),
    }
}

/// The name of a type.
pub fn ty_name(t: &Ty) -> (r: Vec<u8>)
    ensures
        r@ == spec_ty_name(*t),
{
    let mut out: Vec<u8> = Vec::new();
    match t {
        Ty::String => out.extend_from_slice(("String").as_bytes()),
        Ty::Number => out.extend_from_slice(("Number").as_bytes()),
        Ty::Bool => out.extend_from_slice(("Bool").as_bytes()),
    }
    out
}

/// Message text of a database error.
pub open spec fn spec_db_message(e: DbErrV) -> Seq<u8> {
    match e {
        DbErrV::DuplicateColumns => ("Cannot have duplicate columns").spec_bytes(),
        DbErrV::MultiplePrimaryKeys(n) => ("Expected 1 primary key, found ").spec_bytes()
            + spec_digits(n as nat),
        DbErrV::DefaultTypeMismatch { expected, got } => (
        "Default type doesn't match declared type; expected ").spec_bytes() + spec_ty_name(expected)
            + (", got ").spec_bytes() + spec_ty_name(got),
        DbErrV::TypeNotSpecified => ("Type not specified").spec_bytes(),
        DbErrV::ColumnNotFound(n) => ("Column ").spec_bytes() + n + (" not found").spec_bytes(),
        DbErrV::NotNullable(n) => ("Column ").spec_bytes() + n + (" non-nullable").spec_bytes(),
        DbErrV::NotUnique(n) => ("Col ").spec_bytes() + n + (" must be unique").spec_bytes(),
        DbErrV::TypeMismatch(t) => match t {
            Ty::String => ("Expected string").spec_bytes(),
            Ty::Number => ("Expected number").spec_bytes(),
            Ty::Bool => ("Expected bool").spec_bytes(),
        },
        DbErrV::CheckFailed(n) => ("Check condition on ").spec_bytes() + n + (
        " failed").spec_bytes(),
        DbErrV::Eval(ev) => spec_eval_message(ev),
        DbErrV::MustSpecifyPrimaryKey => (
        "Must specify primary key if it doesn't have default").spec_bytes(),
        DbErrV::Internal => ("Internal error").spec_bytes(),
    }
}

impl DbError {
    /// The diagnostic text of this error.
    pub fn message(&self) -> (r: Vec<u8>)
        ensures
            r@ == spec_db_message(self@),
    {
        let mut out: Vec<u8> = Vec::new();
        match self {
            DbError::DuplicateColumns => {
                out.extend_from_slice(("Cannot have duplicate columns").as_bytes());
            },
            DbError::MultiplePrimaryKeys(n) => {
                out.extend_from_slice(("Expected 1 primary key, found ").as_bytes());
                let mut digits = u64_digits(*n);
                out.append(&mut digits);
            },
            DbError::DefaultTypeMismatch { expected, got } => {
                out.extend_from_slice(
                    ("Default type doesn't match declared type; expected ").as_bytes(),
                );
                let mut ex = ty_name(expected);
                out.append(&mut ex);
                out.extend_from_slice((", got ").as_bytes());
                let mut gt = ty_name(got);
                out.append(&mut gt);
            },
            DbError::TypeNotSpecified => {
                out.extend_from_slice(("Type not specified").as_bytes());
            },
            DbError::ColumnNotFound(n) => {
                out.extend_from_slice(("Column ").as_bytes());
                out.extend_from_slice(n.as_slice());
                out.extend_from_slice((" not found").as_bytes());
            },
            DbError::NotNullable(n) => {
                out.extend_from_slice(("Column ").as_bytes());
                out.extend_from_slice(n.as_slice());
                out.extend_from_slice((" non-nullable").as_bytes());
            },
            DbError::NotUnique(n) => {
                out.extend_from_slice(("Col ").as_bytes());
                out.extend_from_slice(n.as_slice());
                out.extend_from_slice((" must be unique").as_bytes());
            },
            DbError::TypeMismatch(t) => {
                match t {
                    Ty::String => out.extend_from_slice(("Expected string").as_bytes()),
                    Ty::Number => out.extend_from_slice(("Expected number").as_bytes()),
                    Ty::Bool => out.extend_from_slice(("Expected bool").as_bytes()),
                }
            },
            DbError::CheckFailed(n) => {
                out.extend_from_slice(("Check condition on ").as_bytes());
                out.extend_from_slice(n.as_slice());
                out.extend_from_slice((" failed").as_bytes());
            },
            DbError::Eval(ev) => {
                let mut msg = ev.message();
                out.append(&mut msg);
            },
            DbError::MustSpecifyPrimaryKey => {
                out.extend_from_slice(
                    ("Must specify primary key if it doesn't have default").as_bytes(),
                );
            },
            DbError::Internal => {
                out.extend_from_slice(("Internal error").as_bytes());
            },
        }
        out
    }
}

} // verus!
