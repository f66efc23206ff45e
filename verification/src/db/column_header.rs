use crate::db::error::{DbErrV, DbError};
use crate::parse::ast::{Expr, ExprV, LiteralValue, Ty, ValueV};
use vstd::prelude::*;
use vstd::string::StringSliceAdditionalSpecFns;

verus! {

/// How an omitted cell is filled at insert time: not at all, with a
/// fixed literal, or from a monotonically incrementing counter.
#[derive(Debug)]
pub enum DefaultOpt {
    Absent,
    Literal(LiteralValue),
    Incrementing(u64),
}

/// Specification-level form of a default policy.
pub enum DefaultV {
    Absent,
    Literal(ValueV),
    Incrementing(u64),
}

impl View for DefaultOpt {
    type V = DefaultV;

    open spec fn view(&self) -> DefaultV {
        match self {
            DefaultOpt::Absent => DefaultV::Absent,
            DefaultOpt::Literal(v) => DefaultV::Literal(v@),
            DefaultOpt::Incrementing(n) => DefaultV::Incrementing(*n),
        }
    }
}

impl Clone for DefaultOpt {
    fn clone(&self) -> (r: DefaultOpt)
        ensures
            r@ == self@,
    {
        match self {
            DefaultOpt::Absent => DefaultOpt::Absent,
            DefaultOpt::Literal(v) => DefaultOpt::Literal(v.clone()),
            DefaultOpt::Incrementing(n) => DefaultOpt::Incrementing(*n),
        }
    }
}

/// Equality of default policies, over views.
pub fn default_eq(a: &DefaultOpt, b: &DefaultOpt) -> (r: bool)
    ensures
        r == (a@ == b@),
{
    match (a, b) {
        (DefaultOpt::Absent, DefaultOpt::Absent) => true,
        (DefaultOpt::Literal(x), DefaultOpt::Literal(y)) => crate::parse::ast::value_eq(x, y),
        (DefaultOpt::Incrementing(x), DefaultOpt::Incrementing(y)) => x == y,
        _ => false,
    }
}

/// One column of a table: its name, type, flags, default policy and
/// optional check expression.
#[derive(Debug)]
pub struct ColumnHeader {
    name: Vec<u8>,
    is_primary_key: bool,
    is_hidden: bool,
    not_null: bool,
    unique: bool,
    default: DefaultOpt,
    check: Option<Expr>,
    ty: Ty,
}

/// Specification-level form of a column header.
pub struct HeaderV {
    pub name: Seq<u8>,
    pub is_primary_key: bool,
    pub is_hidden: bool,
    pub not_null: bool,
    pub unique: bool,
    pub default: DefaultV,
    pub check: Option<ExprV>,
    pub ty: Ty,
}

impl View for ColumnHeader {
    type V = HeaderV;

    closed spec fn view(&self) -> HeaderV {
        HeaderV {
            name: self.name@,
            is_primary_key: self.is_primary_key,
            is_hidden: self.is_hidden,
            not_null: self.not_null,
            unique: self.unique,
            default: self.default@,
            check: match self.check {
                Some(ref e) => Some(e@),
                None => None,
            },
            ty: self.ty,
        }
    }
}

impl DeepView for ColumnHeader {
    type V = HeaderV;

    open spec fn deep_view(&self) -> HeaderV {
        self.view()
    }
}

impl HeaderV {
    /// A literal default matches the declared type and is canonical; a
    /// counter default sits on a numeric column; any check expression
    /// is well formed.
    pub open spec fn wf(self) -> bool {
        &&& match self.default {
            DefaultV::Absent => true,
            DefaultV::Literal(v) => v.wf() && v.matches_ty(self.ty),
            DefaultV::Incrementing(_) => self.ty is Number,
        }
        &&& match self.check {
            Some(e) => e.wf(),
            None => true,
        }
    }
}

impl Clone for ColumnHeader {
    fn clone(&self) -> (r: ColumnHeader)
        ensures
            r@ == self@,
    {
        ColumnHeader {
            name: self.name.clone(),
            is_primary_key: self.is_primary_key,
            is_hidden: self.is_hidden,
            not_null: self.not_null,
            unique: self.unique,
            default: self.default.clone(),
            check: match &self.check {
                Some(e) => Some(e.clone()),
                None => None,
            },
            ty: self.ty,
        }
    }
}

/// Collects the attributes of a column before the type check that
/// `build` performs.
#[derive(Debug)]
pub struct ColumnHeaderBuilder {
    name: Vec<u8>,
    is_primary_key: bool,
    is_hidden: bool,
    not_null: bool,
    unique: bool,
    default: DefaultOpt,
    check: Option<Expr>,
    ty: Option<Ty>,
}

/// Specification-level form of a builder.
pub struct BuilderV {
    pub name: Seq<u8>,
    pub is_primary_key: bool,
    pub is_hidden: bool,
    pub not_null: bool,
    pub unique: bool,
    pub default: DefaultV,
    pub check: Option<ExprV>,
    pub ty: Option<Ty>,
}

impl View for ColumnHeaderBuilder {
    type V = BuilderV;

    closed spec fn view(&self) -> BuilderV {
        BuilderV {
            name: self.name@,
            is_primary_key: self.is_primary_key,
            is_hidden: self.is_hidden,
            not_null: self.not_null,
            unique: self.unique,
            default: self.default@,
            check: match self.check {
                Some(ref e) => Some(e@),
                None => None,
            },
            ty: self.ty,
        }
    }
}

/// The type of a literal or counter default, for the builder's type
/// check; the null literal never appears as a default.
pub open spec fn spec_default_ty(d: DefaultV) -> Option<Ty> {
    match d {
        DefaultV::Absent => None,
        DefaultV::Literal(v) => match v {
            ValueV::String(_) => Some(Ty::String),
            ValueV::Number(_) => Some(Ty::Number),
            ValueV::Bool(_) => Some(Ty::Bool),
            ValueV::Null => None,
        },
        DefaultV::Incrementing(_) => Some(Ty::Number),
    }
}

/// What `build` yields for a builder state: the finished header, or
/// the schema error.
pub open spec fn spec_build(b: BuilderV) -> Result<HeaderV, DbErrV> {
    match b.ty {
        None => Err(DbErrV::TypeNotSpecified),
        Some(ty) => match spec_default_ty(b.default) {
            Some(dty) => if dty != ty {
                Err(DbErrV::DefaultTypeMismatch { expected: dty, got: ty })
            } else {
                Ok(spec_built_header(b, ty))
            },
            None => if b.default is Literal {
                Err(DbErrV::Internal)
            } else {
                Ok(spec_built_header(b, ty))
            },
        },
    }
}

pub open spec fn spec_built_header(b: BuilderV, ty: Ty) -> HeaderV {
    HeaderV {
        name: b.name,
        is_primary_key: b.is_primary_key,
        is_hidden: b.is_hidden,
        not_null: b.not_null,
        unique: b.unique,
        default: b.default,
        check: b.check,
        ty,
    }
}

impl ColumnHeaderBuilder {
    /// A builder for a column named `name`, with every flag off.
    pub fn new(name: Vec<u8>) -> (r: ColumnHeaderBuilder)
        ensures
            r@ == (BuilderV {
                name: name@,
                is_primary_key: false,
                is_hidden: false,
                not_null: false,
                unique: false,
                default: DefaultV::Absent,
                check: None,
                ty: None,
            }),
    {
        ColumnHeaderBuilder {
            name,
            is_primary_key: false,
            is_hidden: false,
            not_null: false,
            unique: false,
            default: DefaultOpt::Absent,
            check: None,
            ty: None,
        }
    }

    /// Sets the primary-key flag.
    pub fn primary_key(self, is_primary_key: bool) -> (r: ColumnHeaderBuilder)
        ensures
            r@ == (BuilderV { is_primary_key, ..self@ }),
    {
        let mut b = self;
        b.is_primary_key = is_primary_key;
        b
    }

    /// Sets the hidden flag.
    pub fn hidden(self, is_hidden: bool) -> (r: ColumnHeaderBuilder)
        ensures
            r@ == (BuilderV { is_hidden, ..self@ }),
    {
        let mut b = self;
        b.is_hidden = is_hidden;
        b
    }

    /// Sets the not-null flag.
    pub fn not_null(self, is_not_null: bool) -> (r: ColumnHeaderBuilder)
        ensures
            r@ == (BuilderV { not_null: is_not_null, ..self@ }),
    {
        let mut b = self;
        b.not_null = is_not_null;
        b
    }

    /// Sets the unique flag.
    pub fn unique(self, unique: bool) -> (r: ColumnHeaderBuilder)
        ensures
            r@ == (BuilderV { unique, ..self@ }),
    {
        let mut b = self;
        b.unique = unique;
        b
    }

    /// Sets the default policy.
    pub fn def(self, def: DefaultOpt) -> (r: ColumnHeaderBuilder)
        ensures
            r@ == (BuilderV { default: def@, ..self@ }),
    {
        let mut b = self;
        b.default = def;
        b
    }

    /// Sets the check expression.
    pub fn check(self, check: Option<Expr>) -> (r: ColumnHeaderBuilder)
        ensures
            r@ == (BuilderV {
                check: match check {
                    Some(ref e) => Some(e@),
                    None => None,
                },
                ..self@
            }),
    {
        let mut b = self;
        b.check = check;
        b
    }

    /// Sets the declared type.
    pub fn ty(self, ty: Ty) -> (r: ColumnHeaderBuilder)
        ensures
            r@ == (BuilderV { ty: Some(ty), ..self@ }),
    {
        let mut b = self;
        b.ty = Some(ty);
        b
    }

    /// Checks that the default's type matches the declared type and
    /// yields the finished header.
    pub fn build(self) -> (r: Result<ColumnHeader, DbError>)
        ensures
            match r {
                Ok(h) => spec_build(self@) == Ok::<HeaderV, DbErrV>(h@),
                Err(e) => spec_build(self@) == Err::<HeaderV, DbErrV>(e@),
            },
    {
        let ty = match self.ty {
            Some(t) => t,
            None => {
                return Err(DbError::TypeNotSpecified);
            },
        };
        match &self.default {
            DefaultOpt::Absent => {},
            DefaultOpt::Literal(val) => {
                let dty = match val {
                    LiteralValue::String(_) => Ty::String,
                    LiteralValue::Number(_) => Ty::Number,
                    LiteralValue::Bool(_) => Ty::Bool,
                    LiteralValue::Null => {
                        return Err(DbError::Internal);
                    },
                };
                if dty != ty {
                    return Err(DbError::DefaultTypeMismatch { expected: dty, got: ty });
                }
            },
            DefaultOpt::Incrementing(_) => {
                if !matches!(ty, Ty::Number) {
                    return Err(DbError::DefaultTypeMismatch { expected: Ty::Number, got: ty });
                }
            },
        };
        Ok(
            ColumnHeader {
                name: self.name,
                is_primary_key: self.is_primary_key,
                is_hidden: self.is_hidden,
                not_null: self.not_null,
                unique: self.unique,
                default: self.default,
                check: self.check,
                ty,
            },
        )
    }
}

/// The name of the implicit hidden primary-key column.
pub fn id_name() -> (r: Vec<u8>)
    ensures
        r@ == ("ID").spec_bytes(),
{
    let mut out: Vec<u8> = Vec::new();
    out.extend_from_slice(("ID").as_bytes());
    out
}

/// The implicit hidden primary-key header: numeric, not null, unique,
/// counting from zero.
pub open spec fn spec_hidden_header() -> HeaderV {
    HeaderV {
        name: ("ID").spec_bytes(),
        is_primary_key: true,
        is_hidden: true,
        not_null: true,
        unique: true,
        default: DefaultV::Incrementing(0),
        check: None,
        ty: Ty::Number,
    }
}

impl ColumnHeader {
    /// A builder for a column named `name`.
    pub fn new(name: Vec<u8>) -> (r: ColumnHeaderBuilder)
        ensures
            r@ == (BuilderV {
                name: name@,
                is_primary_key: false,
                is_hidden: false,
                not_null: false,
                unique: false,
                default: DefaultV::Absent,
                check: None,
                ty: None,
            }),
    {
        ColumnHeaderBuilder::new(name)
    }

    /// The implicit hidden `ID` column appended to tables declared
    /// without a primary key.
    pub fn new_hidden() -> (r: ColumnHeader)
        ensures
            r@ == spec_hidden_header(),
    {
        ColumnHeader {
            name: id_name(),
            is_primary_key: true,
            is_hidden: true,
            not_null: true,
            unique: true,
            default: DefaultOpt::Incrementing(0),
            check: None,
            ty: Ty::Number,
        }
    }

    /// Whether this column is the primary key.
    pub fn is_primary(&self) -> (r: bool)
        ensures
            r == self@.is_primary_key,
    {
        self.is_primary_key
    }

    /// The column's name.
    pub fn name(&self) -> (r: &Vec<u8>)
        ensures
            r@ == self@.name,
    {
        &self.name
    }

    /// The column's default policy.
    pub fn default(&self) -> (r: &DefaultOpt)
        ensures
            r@ == self@.default,
    {
        &self.default
    }

    /// On a counter column, yields the current counter value and
    /// advances the counter; on any other column, `None`. The counter
    /// also stops at the top of its range rather than wrap.
    pub fn inc(&mut self) -> (r: Option<u64>)
        ensures
            final(self)@ == (HeaderV { default: final(self)@.default, ..old(self)@ }),
            match old(self)@.default {
                DefaultV::Incrementing(i) => if i < u64::MAX {
                    r == Some(i) && final(self)@.default == DefaultV::Incrementing((i + 1) as u64)
                } else {
                    r is None && final(self)@.default == old(self)@.default
                },
                _ => r is None && final(self)@.default == old(self)@.default,
            },
    {
        if let DefaultOpt::Incrementing(i) = self.default {
            if i < u64::MAX {
                self.default = DefaultOpt::Incrementing(i + 1);
                Some(i)
            } else {
                None
            }
        } else {
            None
        }
    }

    /// Whether this column is hidden from clients.
    pub fn is_hidden(&self) -> (r: bool)
        ensures
            r == self@.is_hidden,
    {
        self.is_hidden
    }

    /// The column's declared type.
    pub fn ty(&self) -> (r: &Ty)
        ensures
            *r == self@.ty,
    {
        &self.ty
    }

    /// Whether null cells are rejected.
    pub fn not_null(&self) -> (r: bool)
        ensures
            r == self@.not_null,
    {
        self.not_null
    }

    /// Whether duplicate values are rejected.
    pub fn unique(&self) -> (r: bool)
        ensures
            r == self@.unique,
    {
        self.unique
    }

    /// The column's check expression, if any.
    pub fn check(&self) -> (r: Option<&Expr>)
        ensures
            match r {
                Some(e) => self@.check == Some(e@),
                None => self@.check is None,
            },
    {
        self.check.as_ref()
    }
}

} // verus!
