use crate::db::row::{cells_wf, find_cell, spec_find_cell, Column, ColumnV};
use crate::decimal::{spec_render, Decimal};
use crate::parse::error::{ParseErrV, ParseError};
use crate::parse::token::{bytes_eq, Token, TokenV};
use vstd::prelude::*;
use vstd::string::StringSliceAdditionalSpecFns;

verus! {

/// The declared type of a column.
#[derive(Debug, Clone, Copy, PartialEq, Eq, Structural)]
pub enum Ty {
    String,
    Number,
    Bool,
}

/// A cell value: a tagged variant over strings, numbers, booleans and
/// the null value. Strings are byte strings; numbers are canonical
/// decimals.
#[derive(Debug)]
pub enum LiteralValue {
    String(Vec<u8>),
    Number(Decimal),
    Bool(bool),
    Null,
}

/// Specification-level form of a cell value.
pub enum ValueV {
    String(Seq<u8>),
    Number(Decimal),
    Bool(bool),
    Null,
}

impl View for LiteralValue {
    type V = ValueV;

    open spec fn view(&self) -> ValueV {
        match self {
            LiteralValue::String(b) => ValueV::String(b@),
            LiteralValue::Number(d) => ValueV::Number(*d),
            LiteralValue::Bool(b) => ValueV::Bool(*b),
            LiteralValue::Null => ValueV::Null,
        }
    }
}

impl DeepView for LiteralValue {
    type V = ValueV;

    open spec fn deep_view(&self) -> ValueV {
        self.view()
    }
}

impl ValueV {
    /// Every number is canonical.
    pub open spec fn wf(self) -> bool {
        match self {
            ValueV::Number(d) => d.wf(),
            _ => true,
        }
    }

    /// Whether this value fits a column of type `ty`; the null value
    /// fits none (it is screened off before the type check).
    pub open spec fn matches_ty(self, ty: Ty) -> bool {
        match self {
            ValueV::String(_) => ty is String,
            ValueV::Number(_) => ty is Number,
            ValueV::Bool(_) => ty is Bool,
            ValueV::Null => false,
        }
    }
}

impl Clone for LiteralValue {
    fn clone(&self) -> (r: LiteralValue)
        ensures
            r@ == self@,
    {
        match self {
            LiteralValue::String(b) => LiteralValue::String(b.clone()),
            LiteralValue::Number(d) => LiteralValue::Number(*d),
            LiteralValue::Bool(b) => LiteralValue::Bool(*b),
            LiteralValue::Null => LiteralValue::Null,
        }
    }
}

/// Value equality over views.
pub fn value_eq(a: &LiteralValue, b: &LiteralValue) -> (r: bool)
    ensures
        r == (a@ == b@),
{
    match (a, b) {
        (LiteralValue::String(x), LiteralValue::String(y)) => bytes_eq(x.as_slice(), y.as_slice()),
        (LiteralValue::Number(x), LiteralValue::Number(y)) => x == y,
        (LiteralValue::Bool(x), LiteralValue::Bool(y)) => x == y,
        (LiteralValue::Null, LiteralValue::Null) => true,
        _ => false,
    }
}

impl PartialEq for LiteralValue {
    fn eq(&self, other: &LiteralValue) -> (r: bool) {
        value_eq(self, other)
    }
}

impl Eq for LiteralValue {

}

impl vstd::std_specs::cmp::PartialEqSpecImpl for LiteralValue {
    open spec fn obeys_eq_spec() -> bool {
        true
    }

    open spec fn eq_spec(&self, other: &LiteralValue) -> bool {
        self@ == other@
    }
}

/// The textual form of a value, as it goes into a table frame cell:
/// strings are their bytes, numbers their decimal text, booleans
/// `true` or `false`, and the null value the empty byte string.
pub open spec fn spec_render_value(v: ValueV) -> Seq<u8> {
    match v {
        ValueV::String(b) => b,
        ValueV::Number(d) => spec_render(d),
        ValueV::Bool(b) => if b {
            ("true").spec_bytes()
        } else {
            ("false").spec_bytes()
        },
        ValueV::Null => Seq::empty(),
    }
}

impl LiteralValue {
    /// Renders the value to its textual byte form.
    pub fn render(&self) -> (r: Vec<u8>)
        requires
            self@.wf(),
        ensures
            r@ == spec_render_value(self@),
    {
        match self {
            LiteralValue::String(b) => b.clone(),
            LiteralValue::Number(d) => d.to_bytes(),
            LiteralValue::Bool(b) => {
                let mut out: Vec<u8> = Vec::new();
                if *b {
                    out.extend_from_slice(("true").as_bytes());
                } else {
                    out.extend_from_slice(("false").as_bytes());
                }
                out
            },
            LiteralValue::Null => Vec::new(),
        }
    }

    /// The numeric content, or `ExpectedNumber` for the other
    /// variants.
    fn number(&self) -> (r: Result<Decimal, EvalError>)
        ensures
            match self@ {
                ValueV::Number(d) => r == Ok::<Decimal, EvalError>(d),
                _ => r == Err::<Decimal, EvalError>(EvalError::ExpectedNumber),
            },
    {
        if let LiteralValue::Number(n) = self {
            Ok(*n)
        } else {
            Err(EvalError::ExpectedNumber)
        }
    }
}

/// Ordering rank of a value's variant: strings before numbers before
/// booleans before null.
pub open spec fn value_rank(v: ValueV) -> int {
    match v {
        ValueV::String(_) => 0,
        ValueV::Number(_) => 1,
        ValueV::Bool(_) => 2,
        ValueV::Null => 3,
    }
}

/// Lexicographic order on byte strings.
pub open spec fn bytes_lt(a: Seq<u8>, b: Seq<u8>) -> bool
    decreases a.len(),
{
    if b.len() == 0 {
        false
    } else if a.len() == 0 {
        true
    } else if a[0] < b[0] {
        true
    } else if a[0] > b[0] {
        false
    } else {
        bytes_lt(a.skip(1), b.skip(1))
    }
}

/// The total order on values by which rows are sorted: variant rank
/// first, then the variant's own order.
pub open spec fn value_lt(a: ValueV, b: ValueV) -> bool {
    if value_rank(a) != value_rank(b) {
        value_rank(a) < value_rank(b)
    } else {
        match (a, b) {
            (ValueV::String(x), ValueV::String(y)) => bytes_lt(x, y),
            (ValueV::Number(x), ValueV::Number(y)) => x.scaled() < y.scaled(),
            (ValueV::Bool(x), ValueV::Bool(y)) => !x && y,
            _ => false,
        }
    }
}

/// Lexicographic comparison of byte slices.
pub fn bytes_lt_exec(a: &[u8], b: &[u8]) -> (r: bool)
    ensures
        r == bytes_lt(a@, b@),
    decreases a@.len(),
{
    if b.len() == 0 {
        false
    } else if a.len() == 0 {
        true
    } else if a[0] < b[0] {
        true
    } else if a[0] > b[0] {
        false
    } else {
        let r = bytes_lt_exec(slice_tail(a), slice_tail(b));
        r
    }
}

/// The slice without its first element.
fn slice_tail(a: &[u8]) -> (r: &[u8])
    requires
        a@.len() > 0,
    ensures
        r@ == a@.skip(1),
{
    let r = a.split_at(1).1;
    proof {
        assert(r@ =~= a@.skip(1));
    }
    r
}

/// Strict value order.
pub fn value_lt_exec(a: &LiteralValue, b: &LiteralValue) -> (r: bool)
    requires
        a@.wf(),
        b@.wf(),
    ensures
        r == value_lt(a@, b@),
{
    match (a, b) {
        (LiteralValue::String(x), LiteralValue::String(y)) => bytes_lt_exec(
            x.as_slice(),
            y.as_slice(),
        ),
        (LiteralValue::Number(x), LiteralValue::Number(y)) => x.lt(y),
        (LiteralValue::Bool(x), LiteralValue::Bool(y)) => !*x && *y,
        (LiteralValue::Null, LiteralValue::Null) => false,
        _ => {
            let ra = value_rank_exec(a);
            let rb = value_rank_exec(b);
            ra < rb
        },
    }
}

fn value_rank_exec(v: &LiteralValue) -> (r: u8)
    ensures
        r as int == value_rank(v@),
{
    match v {
        LiteralValue::String(_) => 0,
        LiteralValue::Number(_) => 1,
        LiteralValue::Bool(_) => 2,
        LiteralValue::Null => 3,
    }
}

/// A failure while evaluating a check expression.
#[derive(Debug, Clone, Copy, PartialEq, Eq, Structural)]
pub enum EvalError {
    /// An identifier in the expression names no column of the row.
    InvalidIdentifier,
    /// An operand token that is neither identifier nor literal.
    ExpectedValue,
    /// An ordering comparison on something that is not a number.
    ExpectedNumber,
    /// An operator token that is not a comparison.
    BadOperator,
}

impl EvalError {
    /// The diagnostic text of this error.
    pub fn message(&self) -> (r: Vec<u8>)
        ensures
            r@ == spec_eval_message(*self),
    {
        let mut out: Vec<u8> = Vec::new();
        match self {
            EvalError::InvalidIdentifier => {
                out.extend_from_slice(("Invalid identifier in check condition").as_bytes());
            },
            EvalError::ExpectedValue => {
                out.extend_from_slice(("expected identifier or literal value").as_bytes());
            },
            EvalError::ExpectedNumber => {
                out.extend_from_slice(("Expected number").as_bytes());
            },
            EvalError::BadOperator => {
                out.extend_from_slice(("expected comparison operator").as_bytes());
            },
        }
        out
    }
}

/// Message text of an evaluation error.
pub open spec fn spec_eval_message(e: EvalError) -> Seq<u8> {
    match e {
        EvalError::InvalidIdentifier => ("Invalid identifier in check condition").spec_bytes(),
        EvalError::ExpectedValue => ("expected identifier or literal value").spec_bytes(),
        EvalError::ExpectedNumber => ("Expected number").spec_bytes(),
        EvalError::BadOperator => ("expected comparison operator").spec_bytes(),
    }
}

/// A check expression: one binary comparison whose operands are column
/// references or literals.
#[derive(Debug)]
pub enum Expr {
    Binary { left: Token, op: Token, right: Token },
}

/// Specification-level form of a check expression.
pub enum ExprV {
    Binary { left: TokenV, op: TokenV, right: TokenV },
}

impl View for Expr {
    type V = ExprV;

    open spec fn view(&self) -> ExprV {
        match self {
            Expr::Binary { left, op, right } => ExprV::Binary {
                left: left@,
                op: op@,
                right: right@,
            },
        }
    }
}

impl DeepView for Expr {
    type V = ExprV;

    open spec fn deep_view(&self) -> ExprV {
        self.view()
    }
}

impl ExprV {
    /// Every token of the expression is well formed.
    pub open spec fn wf(self) -> bool {
        match self {
            ExprV::Binary { left, op, right } => left.wf() && op.wf() && right.wf(),
        }
    }
}

impl Clone for Expr {
    fn clone(&self) -> (r: Expr)
        ensures
            r@ == self@,
    {
        match self {
            Expr::Binary { left, op, right } => Expr::Binary {
                left: left.clone(),
                op: op.clone(),
                right: right.clone(),
            },
        }
    }
}

/// Equality of check expressions, over views.
pub fn expr_eq(a: &Expr, b: &Expr) -> (r: bool)
    ensures
        r == (a@ == b@),
{
    match (a, b) {
        (
            Expr::Binary { left: la, op: oa, right: ra },
            Expr::Binary { left: lb, op: ob, right: rb },
        ) => la == lb && oa == ob && ra == rb,
    }
}

impl PartialEq for Expr {
    fn eq(&self, other: &Expr) -> (r: bool) {
        expr_eq(self, other)
    }
}

impl vstd::std_specs::cmp::PartialEqSpecImpl for Expr {
    open spec fn obeys_eq_spec() -> bool {
        true
    }

    open spec fn eq_spec(&self, other: &Expr) -> bool {
        self@ == other@
    }
}

/// The value an operand token denotes against a row: an identifier
/// resolves to the first matching cell, a literal to itself.
pub open spec fn spec_extract(tok: TokenV, env: Seq<ColumnV>) -> Result<ValueV, EvalError> {
    match tok {
        TokenV::Identifier(name) => match spec_find_cell(env, name) {
            Some(v) => Ok(v),
            None => Err(EvalError::InvalidIdentifier),
        },
        TokenV::String(s) => Ok(ValueV::String(s)),
        TokenV::Number(n) => Ok(ValueV::Number(n)),
        _ => Err(EvalError::ExpectedValue),
    }
}

/// The value of a check expression against the cells of a candidate
/// row: the ordering comparisons demand numbers on both sides, while
/// equality compares any two values.
pub open spec fn spec_eval(e: ExprV, env: Seq<ColumnV>) -> Result<ValueV, EvalError> {
    match e {
        ExprV::Binary { left, op, right } => match spec_extract(left, env) {
            Err(err) => Err(err),
            Ok(l) => match spec_extract(right, env) {
                Err(err) => Err(err),
                Ok(r) => match op {
                    TokenV::GreaterThan => spec_num_cmp_gt(l, r),
                    TokenV::GreaterEqual => spec_num_cmp_ge(l, r),
                    TokenV::LessThan => spec_num_cmp_lt(l, r),
                    TokenV::LessEqual => spec_num_cmp_le(l, r),
                    TokenV::Equal => Ok(ValueV::Bool(l == r)),
                    _ => Err(EvalError::BadOperator),
                },
            },
        },
    }
}

pub open spec fn spec_num_cmp_gt(l: ValueV, r: ValueV) -> Result<ValueV, EvalError> {
    match (l, r) {
        (ValueV::Number(a), ValueV::Number(b)) => Ok(ValueV::Bool(a.scaled() > b.scaled())),
        _ => Err(EvalError::ExpectedNumber),
    }
}

pub open spec fn spec_num_cmp_ge(l: ValueV, r: ValueV) -> Result<ValueV, EvalError> {
    match (l, r) {
        (ValueV::Number(a), ValueV::Number(b)) => Ok(ValueV::Bool(a.scaled() >= b.scaled())),
        _ => Err(EvalError::ExpectedNumber),
    }
}

pub open spec fn spec_num_cmp_lt(l: ValueV, r: ValueV) -> Result<ValueV, EvalError> {
    match (l, r) {
        (ValueV::Number(a), ValueV::Number(b)) => Ok(ValueV::Bool(a.scaled() < b.scaled())),
        _ => Err(EvalError::ExpectedNumber),
    }
}

pub open spec fn spec_num_cmp_le(l: ValueV, r: ValueV) -> Result<ValueV, EvalError> {
    match (l, r) {
        (ValueV::Number(a), ValueV::Number(b)) => Ok(ValueV::Bool(a.scaled() <= b.scaled())),
        _ => Err(EvalError::ExpectedNumber),
    }
}

/// The operand token's value against the candidate row.
fn extract_value(tok: &Token, env: &[Column]) -> (r: Result<LiteralValue, EvalError>)
    requires
        tok@.wf(),
        cells_wf(env.deep_view()),
    ensures
        match r {
            Ok(v) => spec_extract(tok@, env.deep_view()) == Ok::<ValueV, EvalError>(v@)
                && v@.wf(),
            Err(e) => spec_extract(tok@, env.deep_view()) == Err::<ValueV, EvalError>(e),
        },
{
    match tok {
        Token::Identifier(name) => match find_cell(env, name.as_slice()) {
            Some(v) => Ok(v.clone()),
            None => Err(EvalError::InvalidIdentifier),
        },
        Token::String(s) => Ok(LiteralValue::String(s.clone())),
        Token::Number(n) => Ok(LiteralValue::Number(*n)),
        _ => Err(EvalError::ExpectedValue),
    }
}

impl Expr {
    /// Evaluates the expression against the cells of a candidate row.
    /// A successful evaluation always yields a boolean value.
    pub fn eval(&self, env: &[Column]) -> (r: Result<LiteralValue, EvalError>)
        requires
            self@.wf(),
            cells_wf(env.deep_view()),
        ensures
            match r {
                Ok(v) => spec_eval(self@, env.deep_view()) == Ok::<ValueV, EvalError>(v@)
                    && v@ is Bool,
                Err(e) => spec_eval(self@, env.deep_view()) == Err::<ValueV, EvalError>(e),
            },
    {
        match self {
            Expr::Binary { left, op, right } => {
                let l = match extract_value(left, env) {
                    Ok(v) => v,
                    Err(e) => {
                        return Err(e);
                    },
                };
                let r = match extract_value(right, env) {
                    Ok(v) => v,
                    Err(e) => {
                        return Err(e);
                    },
                };
                match op {
                    Token::GreaterThan => match (&l, &r) {
                        (LiteralValue::Number(a), LiteralValue::Number(b)) => Ok(
                            LiteralValue::Bool(b.lt(a)),
                        ),
                        _ => Err(EvalError::ExpectedNumber),
                    },
                    Token::GreaterEqual => match (&l, &r) {
                        (LiteralValue::Number(a), LiteralValue::Number(b)) => Ok(
                            LiteralValue::Bool(b.le(a)),
                        ),
                        _ => Err(EvalError::ExpectedNumber),
                    },
                    Token::LessThan => match (&l, &r) {
                        (LiteralValue::Number(a), LiteralValue::Number(b)) => Ok(
                            LiteralValue::Bool(a.lt(b)),
                        ),
                        _ => Err(EvalError::ExpectedNumber),
                    },
                    Token::LessEqual => match (&l, &r) {
                        (LiteralValue::Number(a), LiteralValue::Number(b)) => Ok(
                            LiteralValue::Bool(a.le(b)),
                        ),
                        _ => Err(EvalError::ExpectedNumber),
                    },
                    Token::Equal => Ok(LiteralValue::Bool(value_eq(&l, &r))),
                    _ => Err(EvalError::BadOperator),
                }
            },
        }
    }
}

/// A select projection: every visible column, or a list of names.
#[derive(Debug)]
pub enum Key {
    Glob,
    List(Vec<Token>),
}

/// Specification-level form of a projection.
pub enum KeyV {
    Glob,
    List(Seq<TokenV>),
}

impl View for Key {
    type V = KeyV;

    open spec fn view(&self) -> KeyV {
        match self {
            Key::Glob => KeyV::Glob,
            Key::List(ts) => KeyV::List(ts.deep_view()),
        }
    }
}

impl DeepView for Key {
    type V = KeyV;

    open spec fn deep_view(&self) -> KeyV {
        self.view()
    }
}

/// An insert column list: omitted, or a list of column names.
#[derive(Debug)]
pub enum Tokens {
    Omitted,
    List(Vec<Token>),
}

/// Specification-level form of an insert column list.
pub enum TokensV {
    Omitted,
    List(Seq<TokenV>),
}

impl View for Tokens {
    type V = TokensV;

    open spec fn view(&self) -> TokensV {
        match self {
            Tokens::Omitted => TokensV::Omitted,
            Tokens::List(ts) => TokensV::List(ts.deep_view()),
        }
    }
}

impl DeepView for Tokens {
    type V = TokensV;

    open spec fn deep_view(&self) -> TokensV {
        self.view()
    }
}

/// A column constraint as it appears in a declaration.
#[derive(Debug)]
pub enum Constraint {
    NotNull,
    Unique,
    PrimaryKey,
    ForeignKey,
    Check(Expr),
    Default(LiteralValue),
    CreateIndex,
}

/// Specification-level form of a constraint.
pub enum ConstraintV {
    NotNull,
    Unique,
    PrimaryKey,
    ForeignKey,
    Check(ExprV),
    Default(ValueV),
    CreateIndex,
}

impl View for Constraint {
    type V = ConstraintV;

    open spec fn view(&self) -> ConstraintV {
        match self {
            Constraint::NotNull => ConstraintV::NotNull,
            Constraint::Unique => ConstraintV::Unique,
            Constraint::PrimaryKey => ConstraintV::PrimaryKey,
            Constraint::ForeignKey => ConstraintV::ForeignKey,
            Constraint::Check(e) => ConstraintV::Check(e@),
            Constraint::Default(v) => ConstraintV::Default(v@),
            Constraint::CreateIndex => ConstraintV::CreateIndex,
        }
    }
}

impl DeepView for Constraint {
    type V = ConstraintV;

    open spec fn deep_view(&self) -> ConstraintV {
        self.view()
    }
}

/// One column declaration of a `CREATE TABLE` statement.
#[derive(Debug)]
pub struct ColDecl {
    ident: Token,
    ty: Ty,
    constraints: Vec<Constraint>,
}

/// Specification-level form of a column declaration.
pub struct ColDeclV {
    pub ident: TokenV,
    pub ty: Ty,
    pub constraints: Seq<ConstraintV>,
}

impl View for ColDecl {
    type V = ColDeclV;

    closed spec fn view(&self) -> ColDeclV {
        ColDeclV { ident: self.ident@, ty: self.ty, constraints: self.constraints.deep_view() }
    }
}

impl DeepView for ColDecl {
    type V = ColDeclV;

    open spec fn deep_view(&self) -> ColDeclV {
        self.view()
    }
}

impl ColDecl {
    /// A declaration from its name token, type and constraints.
    pub fn new(ident: Token, ty: Ty, constraints: Vec<Constraint>) -> (r: ColDecl)
        ensures
            r@ == (ColDeclV { ident: ident@, ty, constraints: constraints.deep_view() }),
    {
        ColDecl { ident, ty, constraints }
    }

    /// The declared column name; the parser only builds declarations
    /// from identifier tokens.
    pub fn ident(&self) -> (r: Result<&Vec<u8>, ParseError>)
        ensures
            match self@.ident {
                TokenV::Identifier(name) => r matches Ok(v) && v@ == name,
                _ => r matches Err(e) && e@ == ParseErrV::Internal,
            },
    {
        match &self.ident {
            Token::Identifier(name) => Ok(name),
            _ => Err(ParseError::Internal),
        }
    }

    /// The declared type.
    pub fn ty(&self) -> (r: &Ty)
        ensures
            *r == self@.ty,
    {
        &self.ty
    }

    /// The declared constraints, in source order.
    pub fn constraints(&self) -> (r: &[Constraint])
        ensures
            r.deep_view() == self@.constraints,
    {
        self.constraints.as_slice()
    }
}

/// One SQL statement.
#[derive(Debug)]
pub enum Command {
    Select { key: Key, table: Token },
    Insert { table: Token, cols: Tokens, rows: Vec<Vec<LiteralValue>> },
    CreateTable { name: Token, def: TableDef },
}

/// What a created table is defined by: column declarations, or the
/// result of an embedded select.
#[derive(Debug)]
pub enum TableDef {
    Cols(Vec<ColDecl>),
    As(Box<Command>),
}

/// Specification-level form of a statement.
pub enum CommandV {
    Select { key: KeyV, table: TokenV },
    Insert { table: TokenV, cols: TokensV, rows: Seq<Seq<ValueV>> },
    CreateTable { name: TokenV, def: TableDefV },
}

/// Specification-level form of a table definition.
pub enum TableDefV {
    Cols(Seq<ColDeclV>),
    As(Box<CommandV>),
}

/// The abstract form of a statement.
pub open spec fn cmd_view(c: Command) -> CommandV
    decreases c,
{
    match c {
        Command::Select { key, table } => CommandV::Select { key: key@, table: table@ },
        Command::Insert { table, cols, rows } => CommandV::Insert {
            table: table@,
            cols: cols@,
            rows: rows.deep_view(),
        },
        Command::CreateTable { name, def } => CommandV::CreateTable {
            name: name@,
            def: def_view(def),
        },
    }
}

/// The abstract form of a table definition.
pub open spec fn def_view(d: TableDef) -> TableDefV
    decreases d,
{
    match d {
        TableDef::Cols(ds) => TableDefV::Cols(ds.deep_view()),
        TableDef::As(b) => TableDefV::As(Box::new(cmd_view(*b))),
    }
}

impl View for Command {
    type V = CommandV;

    open spec fn view(&self) -> CommandV {
        cmd_view(*self)
    }
}

impl DeepView for Command {
    type V = CommandV;

    open spec fn deep_view(&self) -> CommandV {
        self.view()
    }
}

impl View for TableDef {
    type V = TableDefV;

    open spec fn view(&self) -> TableDefV {
        def_view(*self)
    }
}

impl DeepView for TableDef {
    type V = TableDefV;

    open spec fn deep_view(&self) -> TableDefV {
        self.view()
    }
}

/// Element-wise equality of token vectors, over views.
pub fn token_vec_eq(a: &Vec<Token>, b: &Vec<Token>) -> (r: bool)
    ensures
        r == (a.deep_view() == b.deep_view()),
{
    if a.len() != b.len() {
        proof {
            assert(a.deep_view().len() == a@.len());
            assert(b.deep_view().len() == b@.len());
        }
        return false;
    }
    let n = a.len();
    let mut i: usize = 0;
    while i < n
        invariant
            n == a@.len() == b@.len(),
            i <= n,
            forall|k: int| 0 <= k < i ==> #[trigger] a.deep_view()[k] == b.deep_view()[k],
        decreases n - i,
    {
        if !(a[i] == b[i]) {
            proof {
                assert(a.deep_view()[i as int] == a@[i as int]@);
                assert(b.deep_view()[i as int] == b@[i as int]@);
            }
            return false;
        }
        proof {
            assert(a.deep_view()[i as int] == a@[i as int]@);
            assert(b.deep_view()[i as int] == b@[i as int]@);
        }
        i = i + 1;
    }
    proof {
        assert(a.deep_view() =~= b.deep_view());
    }
    true
}

/// Element-wise equality of value vectors, over views.
pub fn value_vec_eq(a: &Vec<LiteralValue>, b: &Vec<LiteralValue>) -> (r: bool)
    ensures
        r == (a.deep_view() == b.deep_view()),
{
    if a.len() != b.len() {
        proof {
            assert(a.deep_view().len() == a@.len());
            assert(b.deep_view().len() == b@.len());
        }
        return false;
    }
    let n = a.len();
    let mut i: usize = 0;
    while i < n
        invariant
            n == a@.len() == b@.len(),
            i <= n,
            forall|k: int| 0 <= k < i ==> #[trigger] a.deep_view()[k] == b.deep_view()[k],
        decreases n - i,
    {
        if !value_eq(&a[i], &b[i]) {
            proof {
                assert(a.deep_view()[i as int] == a@[i as int]@);
                assert(b.deep_view()[i as int] == b@[i as int]@);
            }
            return false;
        }
        proof {
            assert(a.deep_view()[i as int] == a@[i as int]@);
            assert(b.deep_view()[i as int] == b@[i as int]@);
        }
        i = i + 1;
    }
    proof {
        assert(a.deep_view() =~= b.deep_view());
    }
    true
}

/// Equality of projections, over views.
pub fn key_eq(a: &Key, b: &Key) -> (r: bool)
    ensures
        r == (a@ == b@),
{
    match (a, b) {
        (Key::Glob, Key::Glob) => true,
        (Key::List(x), Key::List(y)) => token_vec_eq(x, y),
        _ => false,
    }
}

/// Equality of insert column lists, over views.
pub fn tokens_eq(a: &Tokens, b: &Tokens) -> (r: bool)
    ensures
        r == (a@ == b@),
{
    match (a, b) {
        (Tokens::Omitted, Tokens::Omitted) => true,
        (Tokens::List(x), Tokens::List(y)) => token_vec_eq(x, y),
        _ => false,
    }
}

/// Equality of constraints, over views.
pub fn constraint_eq(a: &Constraint, b: &Constraint) -> (r: bool)
    ensures
        r == (a@ == b@),
{
    match (a, b) {
        (Constraint::NotNull, Constraint::NotNull) => true,
        (Constraint::Unique, Constraint::Unique) => true,
        (Constraint::PrimaryKey, Constraint::PrimaryKey) => true,
        (Constraint::ForeignKey, Constraint::ForeignKey) => true,
        (Constraint::Check(x), Constraint::Check(y)) => expr_eq(x, y),
        (Constraint::Default(x), Constraint::Default(y)) => value_eq(x, y),
        (Constraint::CreateIndex, Constraint::CreateIndex) => true,
        _ => false,
    }
}

impl PartialEq for Constraint {
    fn eq(&self, other: &Constraint) -> (r: bool) {
        constraint_eq(self, other)
    }
}

impl vstd::std_specs::cmp::PartialEqSpecImpl for Constraint {
    open spec fn obeys_eq_spec() -> bool {
        true
    }

    open spec fn eq_spec(&self, other: &Constraint) -> bool {
        self@ == other@
    }
}

/// Equality of column declarations, over views.
pub fn col_decl_eq(a: &ColDecl, b: &ColDecl) -> (r: bool)
    ensures
        r == (a@ == b@),
{
    if !(a.ident == b.ident) {
        return false;
    }
    if !(a.ty == b.ty) {
        return false;
    }
    if a.constraints.len() != b.constraints.len() {
        proof {
            assert(a@.constraints.len() == a.constraints@.len());
            assert(b@.constraints.len() == b.constraints@.len());
        }
        return false;
    }
    let n = a.constraints.len();
    let mut i: usize = 0;
    while i < n
        invariant
            n == a.constraints@.len() == b.constraints@.len(),
            i <= n,
            forall|k: int|
                0 <= k < i ==> #[trigger] a.constraints.deep_view()[k]
                    == b.constraints.deep_view()[k],
        decreases n - i,
    {
        if !constraint_eq(&a.constraints[i], &b.constraints[i]) {
            proof {
                assert(a.constraints.deep_view()[i as int] == a.constraints@[i as int]@);
                assert(b.constraints.deep_view()[i as int] == b.constraints@[i as int]@);
            }
            return false;
        }
        proof {
            assert(a.constraints.deep_view()[i as int] == a.constraints@[i as int]@);
            assert(b.constraints.deep_view()[i as int] == b.constraints@[i as int]@);
        }
        i = i + 1;
    }
    proof {
        assert(a.constraints.deep_view() =~= b.constraints.deep_view());
    }
    true
}

impl PartialEq for ColDecl {
    fn eq(&self, other: &ColDecl) -> (r: bool) {
        col_decl_eq(self, other)
    }
}

impl vstd::std_specs::cmp::PartialEqSpecImpl for ColDecl {
    open spec fn obeys_eq_spec() -> bool {
        true
    }

    open spec fn eq_spec(&self, other: &ColDecl) -> bool {
        self@ == other@
    }
}

/// Equality of statements, over views.
pub fn cmd_eq(a: &Command, b: &Command) -> (r: bool)
    ensures
        r == (a@ == b@),
    decreases *a,
{
    match (a, b) {
        (Command::Select { key: ka, table: ta }, Command::Select { key: kb, table: tb }) => key_eq(
            ka,
            kb,
        ) && ta == tb,
        (
            Command::Insert { table: ta, cols: ca, rows: ra },
            Command::Insert { table: tb, cols: cb, rows: rb },
        ) => {
            if !(ta == tb) || !tokens_eq(ca, cb) {
                return false;
            }
            if ra.len() != rb.len() {
                proof {
                    assert(ra.deep_view().len() == ra@.len());
                    assert(rb.deep_view().len() == rb@.len());
                }
                return false;
            }
            let n = ra.len();
            let mut i: usize = 0;
            while i < n
                invariant
                    n == ra@.len() == rb@.len(),
                    i <= n,
                    a@ == (CommandV::Insert { table: ta@, cols: ca@, rows: ra.deep_view() }),
                    b@ == (CommandV::Insert { table: tb@, cols: cb@, rows: rb.deep_view() }),
                    ta@ == tb@,
                    ca@ == cb@,
                    forall|k: int| 0 <= k < i ==> #[trigger] ra.deep_view()[k] == rb.deep_view()[k],
                decreases n - i,
            {
                if !value_vec_eq(&ra[i], &rb[i]) {
                    proof {
                        assert(ra.deep_view()[i as int] == ra@[i as int].deep_view());
                        assert(rb.deep_view()[i as int] == rb@[i as int].deep_view());
                    }
                    return false;
                }
                proof {
                    assert(ra.deep_view()[i as int] == ra@[i as int].deep_view());
                    assert(rb.deep_view()[i as int] == rb@[i as int].deep_view());
                }
                i = i + 1;
            }
            proof {
                assert(ra.deep_view() =~= rb.deep_view());
            }
            true
        },
        (
            Command::CreateTable { name: na, def: da },
            Command::CreateTable { name: nb, def: db },
        ) => {
            if !(na == nb) {
                return false;
            }
            match (da, db) {
                (TableDef::Cols(xa), TableDef::Cols(xb)) => {
                    if xa.len() != xb.len() {
                        proof {
                            assert(xa.deep_view().len() == xa@.len());
                            assert(xb.deep_view().len() == xb@.len());
                        }
                        return false;
                    }
                    let n = xa.len();
                    let mut i: usize = 0;
                    while i < n
                        invariant
                            n == xa@.len() == xb@.len(),
                            i <= n,
                            a@ == (CommandV::CreateTable {
                                name: na@,
                                def: TableDefV::Cols(xa.deep_view()),
                            }),
                            b@ == (CommandV::CreateTable {
                                name: nb@,
                                def: TableDefV::Cols(xb.deep_view()),
                            }),
                            na@ == nb@,
                            forall|k: int|
                                0 <= k < i ==> #[trigger] xa.deep_view()[k] == xb.deep_view()[k],
                        decreases n - i,
                    {
                        if !col_decl_eq(&xa[i], &xb[i]) {
                            proof {
                                assert(xa.deep_view()[i as int] == xa@[i as int]@);
                                assert(xb.deep_view()[i as int] == xb@[i as int]@);
                            }
                            return false;
                        }
                        proof {
                            assert(xa.deep_view()[i as int] == xa@[i as int]@);
                            assert(xb.deep_view()[i as int] == xb@[i as int]@);
                        }
                        i = i + 1;
                    }
                    proof {
                        assert(xa.deep_view() =~= xb.deep_view());
                    }
                    true
                },
                (TableDef::As(ba), TableDef::As(bb)) => cmd_eq(ba, bb),
                _ => false,
            }
        },
        _ => false,
    }
}

impl PartialEq for Command {
    fn eq(&self, other: &Command) -> (r: bool) {
        cmd_eq(self, other)
    }
}

impl vstd::std_specs::cmp::PartialEqSpecImpl for Command {
    open spec fn obeys_eq_spec() -> bool {
        true
    }

    open spec fn eq_spec(&self, other: &Command) -> bool {
        self@ == other@
    }
}

/// Every value of the sequence is well formed.
pub open spec fn values_wf(vs: Seq<ValueV>) -> bool {
    forall|i: int| 0 <= i < vs.len() ==> (#[trigger] vs[i]).wf()
}

/// Every value of every row is well formed.
pub open spec fn rows_wf(rs: Seq<Seq<ValueV>>) -> bool {
    forall|i: int| 0 <= i < rs.len() ==> values_wf(#[trigger] rs[i])
}

impl ConstraintV {
    /// Any number the constraint carries is canonical.
    pub open spec fn wf(self) -> bool {
        match self {
            ConstraintV::Check(e) => e.wf(),
            ConstraintV::Default(v) => v.wf(),
            _ => true,
        }
    }
}

/// Every constraint of the sequence is well formed.
pub open spec fn constraints_wf(cs: Seq<ConstraintV>) -> bool {
    forall|i: int| 0 <= i < cs.len() ==> (#[trigger] cs[i]).wf()
}

impl ColDeclV {
    /// Every constraint of the declaration is well formed.
    pub open spec fn wf(self) -> bool {
        constraints_wf(self.constraints)
    }
}

/// Every declaration of the sequence is well formed.
pub open spec fn col_decls_wf(ds: Seq<ColDeclV>) -> bool {
    forall|i: int| 0 <= i < ds.len() ==> (#[trigger] ds[i]).wf()
}

impl CommandV {
    /// Any number the statement carries is canonical.
    pub open spec fn wf(self) -> bool
        decreases self,
    {
        match self {
            CommandV::Select { .. } => true,
            CommandV::Insert { rows, .. } => rows_wf(rows),
            CommandV::CreateTable { def, .. } => match def {
                TableDefV::Cols(ds) => col_decls_wf(ds),
                TableDefV::As(b) => (*b).wf(),
            },
        }
    }
}

/// The lexicographic order on byte strings is transitive.
pub proof fn lemma_bytes_lt_trans(a: Seq<u8>, b: Seq<u8>, c: Seq<u8>)
    requires
        bytes_lt(a, b),
        bytes_lt(b, c),
    ensures
        bytes_lt(a, c),
    decreases a.len() + b.len() + c.len(),
{
    if c.len() == 0 {
    } else if b.len() == 0 {
    } else if a.len() == 0 {
    } else {
        if a[0] < b[0] {
            if b[0] < c[0] {
            } else {
                assert(b[0] == c[0]);
            }
        } else {
            assert(a[0] == b[0]);
            if b[0] < c[0] {
            } else {
                assert(b[0] == c[0]);
                lemma_bytes_lt_trans(a.skip(1), b.skip(1), c.skip(1));
            }
        }
    }
}

/// Two byte strings are ordered one way, the other, or equal.
pub proof fn lemma_bytes_lt_trichotomy(a: Seq<u8>, b: Seq<u8>)
    ensures
        bytes_lt(a, b) || bytes_lt(b, a) || a == b,
    decreases a.len(),
{
    if a.len() == 0 && b.len() == 0 {
        assert(a =~= b);
    } else if a.len() > 0 && b.len() > 0 {
        if a[0] == b[0] {
            lemma_bytes_lt_trichotomy(a.skip(1), b.skip(1));
            assert(bytes_lt(a, b) == bytes_lt(a.skip(1), b.skip(1)));
            assert(bytes_lt(b, a) == bytes_lt(b.skip(1), a.skip(1)));
            if !bytes_lt(a, b) && !bytes_lt(b, a) {
                assert(a.skip(1) == b.skip(1));
                assert(a.len() == b.len());
                assert forall|k: int| 0 <= k < a.len() implies a[k] == b[k] by {
                    if k >= 1 {
                        assert(a.skip(1)[k - 1] == a[k]);
                        assert(b.skip(1)[k - 1] == b[k]);
                    }
                }
                assert(a =~= b);
            }
        }
    }
}

/// The value order is transitive.
pub proof fn lemma_value_lt_trans(a: ValueV, b: ValueV, c: ValueV)
    requires
        value_lt(a, b),
        value_lt(b, c),
    ensures
        value_lt(a, c),
{
    if value_rank(a) == value_rank(b) && value_rank(b) == value_rank(c) {
        match (a, b, c) {
            (ValueV::String(x), ValueV::String(y), ValueV::String(z)) => {
                lemma_bytes_lt_trans(x, y, z);
            },
            _ => {},
        }
    }
}

/// Two well-formed values are ordered one way, the other, or equal.
pub proof fn lemma_value_lt_trichotomy(a: ValueV, b: ValueV)
    requires
        a.wf(),
        b.wf(),
    ensures
        value_lt(a, b) || value_lt(b, a) || a == b,
{
    if value_rank(a) == value_rank(b) {
        match (a, b) {
            (ValueV::String(x), ValueV::String(y)) => {
                lemma_bytes_lt_trichotomy(x, y);
            },
            (ValueV::Number(x), ValueV::Number(y)) => {
                crate::decimal::lemma_canonical_eq(x, y);
            },
            _ => {},
        }
    }
}

/// The lexicographic order is irreflexive.
pub proof fn lemma_bytes_lt_irrefl(a: Seq<u8>)
    ensures
        !bytes_lt(a, a),
    decreases a.len(),
{
    if a.len() > 0 {
        lemma_bytes_lt_irrefl(a.skip(1));
    }
}

/// The value order is irreflexive.
pub proof fn lemma_value_lt_irrefl(a: ValueV)
    ensures
        !value_lt(a, a),
{
    match a {
        ValueV::String(x) => {
            lemma_bytes_lt_irrefl(x);
        },
        _ => {},
    }
}

/// The value order is asymmetric.
pub proof fn lemma_value_lt_asym(a: ValueV, b: ValueV)
    requires
        value_lt(a, b),
    ensures
        !value_lt(b, a),
{
    if value_lt(b, a) {
        lemma_value_lt_trans(a, b, a);
        lemma_value_lt_irrefl(a);
    }
}

} // verus!
