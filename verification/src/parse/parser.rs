use crate::decimal::Decimal;
use crate::parse::ast::{
    col_decls_wf, constraints_wf, rows_wf, values_wf, ColDecl, ColDeclV, Command, CommandV,
    Constraint, ConstraintV, Expr, ExprV, Key, KeyV, LiteralValue, TableDef, TableDefV, Tokens,
    TokensV, Ty, ValueV,
};
use crate::parse::error::{throw_unexpected, ParseErrV, ParseError};
use crate::parse::token::{tokens_wf, Token, TokenV};
use vstd::prelude::*;
use vstd::string::StringSliceAdditionalSpecFns;

verus! {

/// Puts `t` in front of the elements of `v`.
pub fn prepend<T: DeepView>(t: T, v: Vec<T>) -> (r: Vec<T>)
    ensures
        r.deep_view() == seq![t.deep_view()] + v.deep_view(),
{
    let ghost old_v = v;
    let mut v = v;
    v.insert(0, t);
    proof {
        assert(forall|k: int| 0 <= k < v@.len() ==> v.deep_view()[k] == v@[k].deep_view());
        assert(forall|k: int|
            0 <= k < old_v@.len() ==> old_v.deep_view()[k] == old_v@[k].deep_view());
        assert(v.deep_view() =~= seq![v@[0].deep_view()] + old_v.deep_view());
    }
    v
}

/// The token at `i`, or the end-of-stream error. This is how every
/// grammar rule looks at the input.
pub open spec fn spec_peek(ts: Seq<TokenV>, i: int) -> Result<TokenV, ParseErrV> {
    if 0 <= i < ts.len() {
        Ok(ts[i])
    } else {
        Err(ParseErrV::UnexpectedEnd)
    }
}

/// Demands the exact token `t` at position `i` and steps over it.
pub open spec fn spec_consume(ts: Seq<TokenV>, i: int, t: TokenV) -> Result<int, ParseErrV> {
    match spec_peek(ts, i) {
        Err(e) => Err(e),
        Ok(got) => if got == t {
            Ok(i + 1)
        } else {
            Err(ParseErrV::Unexpected { got, expected: seq![t] })
        },
    }
}

/// Demands an identifier at position `i` and steps over it.
pub open spec fn spec_consume_ident(ts: Seq<TokenV>, i: int) -> Result<(TokenV, int), ParseErrV> {
    match spec_peek(ts, i) {
        Err(e) => Err(e),
        Ok(got) => match got {
            TokenV::Identifier(_) => Ok((got, i + 1)),
            _ => Err(
                ParseErrV::Unexpected { got, expected: seq![TokenV::Identifier(Seq::empty())] },
            ),
        },
    }
}

/// `command := insert | select | create`
pub open spec fn spec_command(ts: Seq<TokenV>, i: int) -> Result<(CommandV, int), ParseErrV> {
    match spec_peek(ts, i) {
        Err(e) => Err(e),
        Ok(got) => match got {
            TokenV::Insert => spec_insert(ts, i + 1),
            TokenV::Select => spec_select(ts, i + 1),
            TokenV::Create => spec_create_table(ts, i + 1),
            _ => Err(
                ParseErrV::Unexpected { got, expected: seq![TokenV::Insert, TokenV::Select] },
            ),
        },
    }
}

/// `insert := INTO ident cols? VALUES row (, row)*` (after `INSERT`)
pub open spec fn spec_insert(ts: Seq<TokenV>, i: int) -> Result<(CommandV, int), ParseErrV> {
    match spec_consume(ts, i, TokenV::Into) {
        Err(e) => Err(e),
        Ok(j) => match spec_consume_ident(ts, j) {
            Err(e) => Err(e),
            Ok((table, j)) => match spec_tokens_clause(ts, j) {
                Err(e) => Err(e),
                Ok((cols, j)) => match spec_consume(ts, j, TokenV::Values) {
                    Err(e) => Err(e),
                    Ok(j) => match spec_rows(ts, j) {
                        Err(e) => Err(e),
                        Ok((rows, j)) => Ok((CommandV::Insert { table, cols, rows }, j)),
                    },
                },
            },
        },
    }
}

/// `select := key FROM ident` (after `SELECT`)
pub open spec fn spec_select(ts: Seq<TokenV>, i: int) -> Result<(CommandV, int), ParseErrV> {
    match spec_key(ts, i) {
        Err(e) => Err(e),
        Ok((key, j)) => match spec_consume(ts, j, TokenV::From) {
            Err(e) => Err(e),
            Ok(j) => match spec_consume_ident(ts, j) {
                Err(e) => Err(e),
                Ok((table, j)) => Ok((CommandV::Select { key, table }, j)),
            },
        },
    }
}

/// `create := TABLE ident ( '(' coldecls ')' | AS SELECT select )`
/// (after `CREATE`)
pub open spec fn spec_create_table(ts: Seq<TokenV>, i: int) -> Result<(CommandV, int), ParseErrV> {
    match spec_consume(ts, i, TokenV::Table) {
        Err(e) => Err(e),
        Ok(j) => match spec_consume_ident(ts, j) {
            Err(e) => Err(e),
            Ok((name, j)) => match spec_peek(ts, j) {
                Err(e) => Err(e),
                Ok(got) => match got {
                    TokenV::LeftParen => match spec_col_decls(ts, j) {
                        Err(e) => Err(e),
                        Ok((decls, j)) => Ok(
                            (CommandV::CreateTable { name, def: TableDefV::Cols(decls) }, j),
                        ),
                    },
                    TokenV::As => match spec_consume(ts, j, TokenV::As) {
                        Err(e) => Err(e),
                        Ok(j) => match spec_consume(ts, j, TokenV::Select) {
                            Err(e) => Err(e),
                            Ok(j) => match spec_select(ts, j) {
                                Err(e) => Err(e),
                                Ok((cmd, j)) => Ok(
                                    (
                                        CommandV::CreateTable {
                                            name,
                                            def: TableDefV::As(Box::new(cmd)),
                                        },
                                        j,
                                    ),
                                ),
                            },
                        },
                    },
                    _ => Err(
                        ParseErrV::Unexpected {
                            got,
                            expected: seq![TokenV::LeftParen, TokenV::As],
                        },
                    ),
                },
            },
        },
    }
}

/// `coldecls := '(' coldecl (, coldecl)* ')'`
pub open spec fn spec_col_decls(ts: Seq<TokenV>, i: int) -> Result<
    (Seq<ColDeclV>, int),
    ParseErrV,
> {
    match spec_consume(ts, i, TokenV::LeftParen) {
        Err(e) => Err(e),
        Ok(j) => match spec_col_decl_list(ts, j) {
            Err(e) => Err(e),
            Ok((decls, j)) => match spec_consume(ts, j, TokenV::RightParen) {
                Err(e) => Err(e),
                Ok(j) => Ok((decls, j)),
            },
        },
    }
}

/// `coldecl (, coldecl)*`
pub open spec fn spec_col_decl_list(ts: Seq<TokenV>, i: int) -> Result<
    (Seq<ColDeclV>, int),
    ParseErrV,
>
    decreases ts.len() - i when 0 <= i <= ts.len()
{
    match spec_col_decl(ts, i) {
        Err(e) => Err(e),
        Ok((decl, j)) => {
            proof {
                lemma_spec_col_decl_bounds(ts, i);
            }
            if j < ts.len() && ts[j] == TokenV::Comma {
                match spec_col_decl_list(ts, j + 1) {
                    Err(e) => Err(e),
                    Ok((rest, k)) => Ok((seq![decl] + rest, k)),
                }
            } else {
                Ok((seq![decl], j))
            }
        },
    }
}

/// `coldecl := ident typename constraint*`
pub open spec fn spec_col_decl(ts: Seq<TokenV>, i: int) -> Result<(ColDeclV, int), ParseErrV> {
    match spec_consume_ident(ts, i) {
        Err(e) => Err(e),
        Ok((ident, j)) => match spec_ty(ts, j) {
            Err(e) => Err(e),
            Ok((ty, j)) => match spec_constraints(ts, j) {
                Err(e) => Err(e),
                Ok((cs, j)) => Ok((ColDeclV { ident, ty, constraints: cs }, j)),
            },
        },
    }
}

/// `typename := 'string' | 'number'`, matched as identifiers.
pub open spec fn spec_ty(ts: Seq<TokenV>, i: int) -> Result<(Ty, int), ParseErrV> {
    match spec_consume_ident(ts, i) {
        Err(e) => Err(e),
        Ok((t, j)) => match t {
            TokenV::Identifier(name) => if name == ("string").spec_bytes() {
                Ok((Ty::String, j))
            } else if name == ("number").spec_bytes() {
                Ok((Ty::Number, j))
            } else {
                Err(ParseErrV::UnknownType(name))
            },
            _ => Err(ParseErrV::Internal),
        },
    }
}

/// `constraint*`, ending before the first token that starts no
/// constraint.
pub open spec fn spec_constraints(ts: Seq<TokenV>, i: int) -> Result<
    (Seq<ConstraintV>, int),
    ParseErrV,
>
    decreases ts.len() - i, 0int when 0 <= i <= ts.len()
{
    match spec_peek(ts, i) {
        Err(e) => Err(e),
        Ok(got) => match got {
            TokenV::Not => match spec_consume(ts, i + 1, TokenV::Null) {
                Err(e) => Err(e),
                Ok(j) => spec_constraints_more(ts, j, ConstraintV::NotNull),
            },
            TokenV::Unique => spec_constraints_more(ts, i + 1, ConstraintV::Unique),
            TokenV::Primary => match spec_consume(ts, i + 1, TokenV::Key) {
                Err(e) => Err(e),
                Ok(j) => spec_constraints_more(ts, j, ConstraintV::PrimaryKey),
            },
            TokenV::Foreign => match spec_consume(ts, i + 1, TokenV::Key) {
                Err(e) => Err(e),
                Ok(j) => spec_constraints_more(ts, j, ConstraintV::ForeignKey),
            },
            TokenV::Check => match spec_consume(ts, i + 1, TokenV::LeftParen) {
                Err(e) => Err(e),
                Ok(j) => match spec_expr(ts, j) {
                    Err(e) => Err(e),
                    Ok((expr, j)) => match spec_consume(ts, j, TokenV::RightParen) {
                        Err(e) => Err(e),
                        Ok(j) => spec_constraints_more(ts, j, ConstraintV::Check(expr)),
                    },
                },
            },
            TokenV::Default => match spec_literal(ts, i + 1) {
                Err(e) => Err(e),
                Ok((lit, j)) => spec_constraints_more(ts, j, ConstraintV::Default(lit)),
            },
            TokenV::Create => match spec_consume(ts, i + 1, TokenV::Index) {
                Err(e) => Err(e),
                Ok(j) => spec_constraints_more(ts, j, ConstraintV::CreateIndex),
            },
            _ => Ok((Seq::empty(), i)),
        },
    }
}

/// The constraints after `c`, which ended just before position `j`.
pub open spec fn spec_constraints_more(ts: Seq<TokenV>, j: int, c: ConstraintV) -> Result<
    (Seq<ConstraintV>, int),
    ParseErrV,
>
    decreases ts.len() - j, 1int when 0 <= j <= ts.len()
{
    match spec_constraints(ts, j) {
        Err(e) => Err(e),
        Ok((rest, k)) => Ok((seq![c] + rest, k)),
    }
}

/// `expr := operand relop operand`
pub open spec fn spec_expr(ts: Seq<TokenV>, i: int) -> Result<(ExprV, int), ParseErrV> {
    match spec_bin_side(ts, i) {
        Err(e) => Err(e),
        Ok((left, j)) => match spec_peek(ts, j) {
            Err(e) => Err(e),
            Ok(got) => if got == TokenV::LessThan || got == TokenV::LessEqual || got
                == TokenV::GreaterThan || got == TokenV::GreaterEqual || got == TokenV::Equal {
                match spec_bin_side(ts, j + 1) {
                    Err(e) => Err(e),
                    Ok((right, k)) => Ok((ExprV::Binary { left, op: got, right }, k)),
                }
            } else {
                Err(
                    ParseErrV::Unexpected {
                        got,
                        expected: seq![
                            TokenV::LessThan,
                            TokenV::LessEqual,
                            TokenV::GreaterThan,
                            TokenV::GreaterEqual,
                            TokenV::Equal,
                        ],
                    },
                )
            },
        },
    }
}

/// `operand := ident | number | string`
pub open spec fn spec_bin_side(ts: Seq<TokenV>, i: int) -> Result<(TokenV, int), ParseErrV> {
    match spec_peek(ts, i) {
        Err(e) => Err(e),
        Ok(got) => match got {
            TokenV::String(_) => Ok((got, i + 1)),
            TokenV::Number(_) => Ok((got, i + 1)),
            TokenV::Identifier(_) => Ok((got, i + 1)),
            _ => Err(
                ParseErrV::Unexpected {
                    got,
                    expected: seq![
                        TokenV::String(Seq::empty()),
                        TokenV::Number(Decimal { mantissa: 0, scale: 0 }),
                        TokenV::Identifier(Seq::empty()),
                    ],
                },
            ),
        },
    }
}

/// `key := '*' | ident (, ident)*`
pub open spec fn spec_key(ts: Seq<TokenV>, i: int) -> Result<(KeyV, int), ParseErrV> {
    match spec_peek(ts, i) {
        Err(e) => Err(e),
        Ok(got) => if got == TokenV::Star {
            Ok((KeyV::Glob, i + 1))
        } else {
            match spec_token_list(ts, i) {
                Err(e) => Err(e),
                Ok((keys, j)) => Ok((KeyV::List(keys), j)),
            }
        },
    }
}

/// `cols? := ('(' ident (, ident)* ')')?`
pub open spec fn spec_tokens_clause(ts: Seq<TokenV>, i: int) -> Result<(TokensV, int), ParseErrV> {
    if 0 <= i < ts.len() && ts[i] == TokenV::LeftParen {
        match spec_token_list(ts, i + 1) {
            Err(e) => Err(e),
            Ok((cols, j)) => match spec_consume(ts, j, TokenV::RightParen) {
                Err(e) => Err(e),
                Ok(j) => Ok((TokensV::List(cols), j)),
            },
        }
    } else {
        Ok((TokensV::Omitted, i))
    }
}

/// `ident (, ident)*`
pub open spec fn spec_token_list(ts: Seq<TokenV>, i: int) -> Result<(Seq<TokenV>, int), ParseErrV>
    decreases ts.len() - i when 0 <= i <= ts.len()
{
    match spec_consume_ident(ts, i) {
        Err(e) => Err(e),
        Ok((t, j)) => if j < ts.len() && ts[j] == TokenV::Comma {
            match spec_token_list(ts, j + 1) {
                Err(e) => Err(e),
                Ok((rest, k)) => Ok((seq![t] + rest, k)),
            }
        } else {
            Ok((seq![t], j))
        },
    }
}

/// `row (, row)*`
pub open spec fn spec_rows(ts: Seq<TokenV>, i: int) -> Result<(Seq<Seq<ValueV>>, int), ParseErrV>
    decreases ts.len() - i when 0 <= i <= ts.len()
{
    match spec_values(ts, i) {
        Err(e) => Err(e),
        Ok((row, j)) => {
            proof {
                lemma_spec_values_bounds(ts, i);
            }
            if j < ts.len() && ts[j] == TokenV::Comma {
                match spec_rows(ts, j + 1) {
                    Err(e) => Err(e),
                    Ok((rest, k)) => Ok((seq![row] + rest, k)),
                }
            } else {
                Ok((seq![row], j))
            }
        },
    }
}

/// `row := '(' (literal (, literal)*)? ')'`; the empty row takes all
/// its cells from column defaults.
pub open spec fn spec_values(ts: Seq<TokenV>, i: int) -> Result<(Seq<ValueV>, int), ParseErrV> {
    match spec_consume(ts, i, TokenV::LeftParen) {
        Err(e) => Err(e),
        Ok(j) => if j < ts.len() && ts[j] == TokenV::RightParen {
            Ok((Seq::empty(), j + 1))
        } else {
            match spec_literal_list(ts, j) {
                Err(e) => Err(e),
                Ok((vals, j)) => match spec_consume(ts, j, TokenV::RightParen) {
                    Err(e) => Err(e),
                    Ok(j) => Ok((vals, j)),
                },
            }
        },
    }
}

/// `literal (, literal)*`
pub open spec fn spec_literal_list(ts: Seq<TokenV>, i: int) -> Result<(Seq<ValueV>, int), ParseErrV>
    decreases ts.len() - i when 0 <= i <= ts.len()
{
    match spec_literal(ts, i) {
        Err(e) => Err(e),
        Ok((v, j)) => if j < ts.len() && ts[j] == TokenV::Comma {
            match spec_literal_list(ts, j + 1) {
                Err(e) => Err(e),
                Ok((rest, k)) => Ok((seq![v] + rest, k)),
            }
        } else {
            Ok((seq![v], j))
        },
    }
}

/// `literal := number | string`
pub open spec fn spec_literal(ts: Seq<TokenV>, i: int) -> Result<(ValueV, int), ParseErrV> {
    match spec_peek(ts, i) {
        Err(e) => Err(e),
        Ok(got) => match got {
            TokenV::Number(n) => Ok((ValueV::Number(n), i + 1)),
            TokenV::String(s) => Ok((ValueV::String(s), i + 1)),
            _ => Err(
                ParseErrV::Unexpected {
                    got,
                    expected: seq![
                        TokenV::Number(Decimal { mantissa: 0, scale: 0 }),
                        TokenV::String(Seq::empty()),
                    ],
                },
            ),
        },
    }
}

/// The whole statement: everything after the statement's last token is
/// ignored.
pub open spec fn spec_parse(ts: Seq<TokenV>) -> Result<CommandV, ParseErrV> {
    match spec_command(ts, 0) {
        Err(e) => Err(e),
        Ok((cmd, _)) => Ok(cmd),
    }
}

/// A successful column declaration always moves forward and stays in
/// bounds.
pub proof fn lemma_spec_col_decl_bounds(ts: Seq<TokenV>, i: int)
    requires
        0 <= i <= ts.len(),
    ensures
        spec_col_decl(ts, i) matches Ok((d, j)) ==> i < j <= ts.len(),
{
    if spec_col_decl(ts, i) is Ok {
        let j1 = spec_consume_ident(ts, i)->Ok_0.1;
        let j2 = spec_ty(ts, j1)->Ok_0.1;
        lemma_spec_constraints_bounds(ts, j2);
    }
}

/// Successful constraint lists end in bounds.
pub proof fn lemma_spec_constraints_bounds(ts: Seq<TokenV>, i: int)
    requires
        0 <= i <= ts.len(),
    ensures
        spec_constraints(ts, i) matches Ok((cs, j)) ==> i <= j <= ts.len(),
    decreases ts.len() - i,
{
    if spec_constraints(ts, i) is Ok && i < ts.len() {
        let got = ts[i];
        match got {
            TokenV::Not => {
                if spec_consume(ts, i + 1, TokenV::Null) is Ok {
                    lemma_spec_constraints_bounds(ts, i + 2);
                }
            },
            TokenV::Unique => {
                lemma_spec_constraints_bounds(ts, i + 1);
            },
            TokenV::Primary => {
                if spec_consume(ts, i + 1, TokenV::Key) is Ok {
                    lemma_spec_constraints_bounds(ts, i + 2);
                }
            },
            TokenV::Foreign => {
                if spec_consume(ts, i + 1, TokenV::Key) is Ok {
                    lemma_spec_constraints_bounds(ts, i + 2);
                }
            },
            TokenV::Check => {
                if spec_consume(ts, i + 1, TokenV::LeftParen) is Ok {
                    if spec_expr(ts, i + 2) is Ok {
                        let j = spec_expr(ts, i + 2)->Ok_0.1;
                        if spec_consume(ts, j, TokenV::RightParen) is Ok {
                            lemma_spec_constraints_bounds(ts, j + 1);
                        }
                    }
                }
            },
            TokenV::Default => {
                if spec_literal(ts, i + 1) is Ok {
                    let j = spec_literal(ts, i + 1)->Ok_0.1;
                    lemma_spec_constraints_bounds(ts, j);
                }
            },
            TokenV::Create => {
                if spec_consume(ts, i + 1, TokenV::Index) is Ok {
                    lemma_spec_constraints_bounds(ts, i + 2);
                }
            },
            _ => {},
        }
    }
}

/// Successful rows always move forward and stay in bounds.
pub proof fn lemma_spec_values_bounds(ts: Seq<TokenV>, i: int)
    requires
        0 <= i <= ts.len(),
    ensures
        spec_values(ts, i) matches Ok((row, j)) ==> i < j <= ts.len(),
{
    if spec_values(ts, i) is Ok {
        if spec_consume(ts, i, TokenV::LeftParen) is Ok {
            let j0 = spec_consume(ts, i, TokenV::LeftParen)->Ok_0;
            if !(j0 < ts.len() && ts[j0] == TokenV::RightParen) {
                lemma_spec_literal_list_bounds(ts, j0);
            }
        }
    }
}

/// Successful literal lists always move forward and stay in bounds.
pub proof fn lemma_spec_literal_list_bounds(ts: Seq<TokenV>, i: int)
    requires
        0 <= i <= ts.len(),
    ensures
        spec_literal_list(ts, i) matches Ok((vals, j)) ==> i < j <= ts.len(),
    decreases ts.len() - i,
{
    if spec_literal_list(ts, i) is Ok {
        if spec_literal(ts, i) is Ok {
            let j = spec_literal(ts, i)->Ok_0.1;
            if j < ts.len() && ts[j] == TokenV::Comma {
                lemma_spec_literal_list_bounds(ts, j + 1);
            }
        }
    }
}

/// The recursive-descent parser: a token vector and a cursor with one
/// token of lookahead.
pub struct Parser {
    tokens: Vec<Token>,
    current: usize,
}

impl Parser {
    /// The abstract token stream.
    pub closed spec fn toks(self) -> Seq<TokenV> {
        self.tokens.deep_view()
    }

    /// The cursor position.
    pub closed spec fn at(self) -> int {
        self.current as int
    }

    /// The cursor is in bounds and every token is well formed.
    pub closed spec fn pwf(self) -> bool {
        &&& self.at() <= self.toks().len()
        &&& 0 <= self.at()
        &&& self.toks().len() == self.tokens@.len()
        &&& (forall|k: int|
            0 <= k < self.tokens@.len() ==> #[trigger] self.toks()[k] == self.tokens@[k]@)
        &&& tokens_wf(self.toks())
    }

    /// A parser over `tokens`, at the first token.
    pub fn new(tokens: Vec<Token>) -> (r: Parser)
        ensures
            r.toks() == tokens.deep_view(),
            r.at() == 0,
            tokens_wf(tokens.deep_view()) ==> r.pwf(),
    {
        Parser { tokens, current: 0 }
    }

    /// Parses one whole statement.
    pub fn parse(&mut self) -> (r: Result<Command, ParseError>)
        requires
            old(self).pwf(),
            old(self).at() == 0,
        ensures
            match r {
                Ok(cmd) => spec_parse(old(self).toks()) == Ok::<CommandV, ParseErrV>(cmd@)
                    && cmd@.wf(),
                Err(e) => spec_parse(old(self).toks()) == Err::<CommandV, ParseErrV>(e@) && e@.wf(),
            },
    {
        match self.command() {
            Ok(cmd) => Ok(cmd),
            Err(e) => Err(e),
        }
    }

    fn command(&mut self) -> (r: Result<Command, ParseError>)
        requires
            old(self).pwf(),
        ensures
            final(self).pwf(),
            final(self).toks() == old(self).toks(),
            match r {
                Ok(cmd) => spec_command(old(self).toks(), old(self).at()) == Ok::<
                    (CommandV, int),
                    ParseErrV,
                >((cmd@, final(self).at())) && cmd@.wf(),
                Err(e) => spec_command(old(self).toks(), old(self).at()) == Err::<
                    (CommandV, int),
                    ParseErrV,
                >(e@) && e@.wf(),
            },
    {
        let cur = match self.advance() {
            Ok(t) => t,
            Err(e) => {
                return Err(e);
            },
        };
        match cur {
            Token::Insert => self.insert(),
            Token::Select => self.select(),
            Token::Create => self.create_table(),
            _ => {
                let expected = vec![Token::Insert, Token::Select];
                proof {
                    assert(expected@[0]@ == TokenV::Insert);
                    assert(expected@[1]@ == TokenV::Select);
                    assert(expected.deep_view() =~= seq![TokenV::Insert, TokenV::Select]);
                }
                throw_unexpected(&cur, expected)
            },
        }
    }

    fn insert(&mut self) -> (r: Result<Command, ParseError>)
        requires
            old(self).pwf(),
        ensures
            final(self).pwf(),
            final(self).toks() == old(self).toks(),
            match r {
                Ok(cmd) => spec_insert(old(self).toks(), old(self).at()) == Ok::<
                    (CommandV, int),
                    ParseErrV,
                >((cmd@, final(self).at())) && cmd@.wf(),
                Err(e) => spec_insert(old(self).toks(), old(self).at()) == Err::<
                    (CommandV, int),
                    ParseErrV,
                >(e@) && e@.wf(),
            },
    {
        match self.consume(&Token::Into) {
            Ok(_) => (),
            Err(e) => {
                return Err(e);
            },
        }
        let table = match self.consume_ident() {
            Ok(t) => t,
            Err(e) => {
                return Err(e);
            },
        };
        let cols = match self.tokens() {
            Ok(c) => c,
            Err(e) => {
                return Err(e);
            },
        };
        match self.consume(&Token::Values) {
            Ok(_) => (),
            Err(e) => {
                return Err(e);
            },
        }
        let rows = match self.rows() {
            Ok(rs) => rs,
            Err(e) => {
                return Err(e);
            },
        };
        Ok(Command::Insert { table, cols, rows })
    }

    fn select(&mut self) -> (r: Result<Command, ParseError>)
        requires
            old(self).pwf(),
        ensures
            final(self).pwf(),
            final(self).toks() == old(self).toks(),
            match r {
                Ok(cmd) => spec_select(old(self).toks(), old(self).at()) == Ok::<
                    (CommandV, int),
                    ParseErrV,
                >((cmd@, final(self).at())) && cmd@.wf(),
                Err(e) => spec_select(old(self).toks(), old(self).at()) == Err::<
                    (CommandV, int),
                    ParseErrV,
                >(e@) && e@.wf(),
            },
    {
        let key = match self.key() {
            Ok(k) => k,
            Err(e) => {
                return Err(e);
            },
        };
        match self.consume(&Token::From) {
            Ok(_) => (),
            Err(e) => {
                return Err(e);
            },
        }
        let table = match self.consume_ident() {
            Ok(t) => t,
            Err(e) => {
                return Err(e);
            },
        };
        Ok(Command::Select { key, table })
    }

    fn create_table(&mut self) -> (r: Result<Command, ParseError>)
        requires
            old(self).pwf(),
        ensures
            final(self).pwf(),
            final(self).toks() == old(self).toks(),
            match r {
                Ok(cmd) => spec_create_table(old(self).toks(), old(self).at()) == Ok::<
                    (CommandV, int),
                    ParseErrV,
                >((cmd@, final(self).at())) && cmd@.wf(),
                Err(e) => spec_create_table(old(self).toks(), old(self).at()) == Err::<
                    (CommandV, int),
                    ParseErrV,
                >(e@) && e@.wf(),
            },
    {
        match self.consume(&Token::Table) {
            Ok(_) => (),
            Err(e) => {
                return Err(e);
            },
        }
        let name = match self.consume_ident() {
            Ok(t) => t,
            Err(e) => {
                return Err(e);
            },
        };
        if self.current >= self.tokens.len() {
            return Err(ParseError::UnexpectedEnd);
        }
        proof {
            assert(self.toks()[self.at()] == self.tokens@[self.at()]@);
        }
        let next = self.tokens[self.current].clone();
        match next {
            Token::LeftParen => {
                let col_decls = match self.col_decls() {
                    Ok(ds) => ds,
                    Err(e) => {
                        return Err(e);
                    },
                };
                Ok(Command::CreateTable { name, def: TableDef::Cols(col_decls) })
            },
            Token::As => {
                match self.consume(&Token::As) {
                    Ok(_) => (),
                    Err(e) => {
                        return Err(e);
                    },
                }
                match self.consume(&Token::Select) {
                    Ok(_) => (),
                    Err(e) => {
                        return Err(e);
                    },
                }
                let cmd = match self.select() {
                    Ok(c) => c,
                    Err(e) => {
                        return Err(e);
                    },
                };
                Ok(Command::CreateTable { name, def: TableDef::As(Box::new(cmd)) })
            },
            other => {
                let expected = vec![Token::LeftParen, Token::As];
                proof {
                    assert(expected@[0]@ == TokenV::LeftParen);
                    assert(expected@[1]@ == TokenV::As);
                    assert(expected.deep_view() =~= seq![TokenV::LeftParen, TokenV::As]);
                }
                throw_unexpected(&other, expected)
            },
        }
    }

    fn col_decls(&mut self) -> (r: Result<Vec<ColDecl>, ParseError>)
        requires
            old(self).pwf(),
        ensures
            final(self).pwf(),
            final(self).toks() == old(self).toks(),
            match r {
                Ok(ds) => spec_col_decls(old(self).toks(), old(self).at()) == Ok::<
                    (Seq<ColDeclV>, int),
                    ParseErrV,
                >((ds.deep_view(), final(self).at())) && col_decls_wf(ds.deep_view()),
                Err(e) => spec_col_decls(old(self).toks(), old(self).at()) == Err::<
                    (Seq<ColDeclV>, int),
                    ParseErrV,
                >(e@) && e@.wf(),
            },
    {
        match self.consume(&Token::LeftParen) {
            Ok(_) => (),
            Err(e) => {
                return Err(e);
            },
        }
        let decls = match self.col_decl_list() {
            Ok(ds) => ds,
            Err(e) => {
                return Err(e);
            },
        };
        match self.consume(&Token::RightParen) {
            Ok(_) => (),
            Err(e) => {
                return Err(e);
            },
        }
        Ok(decls)
    }

    fn col_decl_list(&mut self) -> (r: Result<Vec<ColDecl>, ParseError>)
        requires
            old(self).pwf(),
        ensures
            final(self).pwf(),
            final(self).toks() == old(self).toks(),
            match r {
                Ok(ds) => spec_col_decl_list(old(self).toks(), old(self).at()) == Ok::<
                    (Seq<ColDeclV>, int),
                    ParseErrV,
                >((ds.deep_view(), final(self).at())) && col_decls_wf(ds.deep_view()),
                Err(e) => spec_col_decl_list(old(self).toks(), old(self).at()) == Err::<
                    (Seq<ColDeclV>, int),
                    ParseErrV,
                >(e@) && e@.wf(),
            },
        decreases self.toks().len() - self.at(),
    {
        let decl = match self.col_decl() {
            Ok(d) => d,
            Err(e) => {
                return Err(e);
            },
        };
        proof {
            lemma_spec_col_decl_bounds(old(self).toks(), old(self).at());
        }
        if self.current < self.tokens.len() && self.tokens[self.current] == Token::Comma {
            proof {
                assert(self.toks()[self.at()] == self.tokens@[self.at()]@);
            }
            self.current = self.current + 1;
            let rest = match self.col_decl_list() {
                Ok(ds) => ds,
                Err(e) => {
                    return Err(e);
                },
            };
            Ok(prepend(decl, rest))
        } else {
            proof {
                if self.current < self.tokens.len() {
                    assert(self.toks()[self.at()] == self.tokens@[self.at()]@);
                }
            }
            let mut one: Vec<ColDecl> = Vec::new();
            one.push(decl);
            proof {
                assert(one.deep_view() =~= seq![one@[0]@]);
            }
            Ok(one)
        }
    }

    fn col_decl(&mut self) -> (r: Result<ColDecl, ParseError>)
        requires
            old(self).pwf(),
        ensures
            final(self).pwf(),
            final(self).toks() == old(self).toks(),
            match r {
                Ok(d) => spec_col_decl(old(self).toks(), old(self).at()) == Ok::<
                    (ColDeclV, int),
                    ParseErrV,
                >((d@, final(self).at())) && d@.wf(),
                Err(e) => spec_col_decl(old(self).toks(), old(self).at()) == Err::<
                    (ColDeclV, int),
                    ParseErrV,
                >(e@) && e@.wf(),
            },
    {
        let ident = match self.consume_ident() {
            Ok(t) => t,
            Err(e) => {
                return Err(e);
            },
        };
        let ty = match self.ty() {
            Ok(t) => t,
            Err(e) => {
                return Err(e);
            },
        };
        let constraints = match self.constraints() {
            Ok(cs) => cs,
            Err(e) => {
                return Err(e);
            },
        };
        Ok(ColDecl::new(ident, ty, constraints))
    }

    fn constraints(&mut self) -> (r: Result<Vec<Constraint>, ParseError>)
        requires
            old(self).pwf(),
        ensures
            final(self).pwf(),
            final(self).toks() == old(self).toks(),
            match r {
                Ok(cs) => spec_constraints(old(self).toks(), old(self).at()) == Ok::<
                    (Seq<ConstraintV>, int),
                    ParseErrV,
                >((cs.deep_view(), final(self).at())) && constraints_wf(cs.deep_view()),
                Err(e) => spec_constraints(old(self).toks(), old(self).at()) == Err::<
                    (Seq<ConstraintV>, int),
                    ParseErrV,
                >(e@) && e@.wf(),
            },
        decreases self.toks().len() - self.at(),
    {
        if self.current >= self.tokens.len() {
            return Err(ParseError::UnexpectedEnd);
        }
        proof {
            assert(self.toks()[self.at()] == self.tokens@[self.at()]@);
        }
        let next = self.tokens[self.current].clone();
        let c: Constraint = match next {
            Token::Not => {
                self.current = self.current + 1;
                match self.consume(&Token::Null) {
                    Ok(_) => (),
                    Err(e) => {
                        return Err(e);
                    },
                }
                Constraint::NotNull
            },
            Token::Unique => {
                self.current = self.current + 1;
                Constraint::Unique
            },
            Token::Primary => {
                self.current = self.current + 1;
                match self.consume(&Token::Key) {
                    Ok(_) => (),
                    Err(e) => {
                        return Err(e);
                    },
                }
                Constraint::PrimaryKey
            },
            Token::Foreign => {
                self.current = self.current + 1;
                match self.consume(&Token::Key) {
                    Ok(_) => (),
                    Err(e) => {
                        return Err(e);
                    },
                }
                Constraint::ForeignKey
            },
            Token::Check => {
                self.current = self.current + 1;
                match self.consume(&Token::LeftParen) {
                    Ok(_) => (),
                    Err(e) => {
                        return Err(e);
                    },
                }
                let expr = match self.expr() {
                    Ok(ex) => ex,
                    Err(e) => {
                        return Err(e);
                    },
                };
                match self.consume(&Token::RightParen) {
                    Ok(_) => (),
                    Err(e) => {
                        return Err(e);
                    },
                }
                Constraint::Check(expr)
            },
            Token::Default => {
                self.current = self.current + 1;
                let lit = match self.literal() {
                    Ok(v) => v,
                    Err(e) => {
                        return Err(e);
                    },
                };
                Constraint::Default(lit)
            },
            Token::Create => {
                self.current = self.current + 1;
                match self.consume(&Token::Index) {
                    Ok(_) => (),
                    Err(e) => {
                        return Err(e);
                    },
                }
                Constraint::CreateIndex
            },
            _ => {
                let empty: Vec<Constraint> = Vec::new();
                proof {
                    assert(empty.deep_view() =~= Seq::<ConstraintV>::empty());
                }
                return Ok(empty);
            },
        };
        let rest = match self.constraints() {
            Ok(cs) => cs,
            Err(e) => {
                return Err(e);
            },
        };
        Ok(prepend(c, rest))
    }

    fn expr(&mut self) -> (r: Result<Expr, ParseError>)
        requires
            old(self).pwf(),
        ensures
            final(self).pwf(),
            final(self).toks() == old(self).toks(),
            match r {
                Ok(ex) => spec_expr(old(self).toks(), old(self).at()) == Ok::<
                    (ExprV, int),
                    ParseErrV,
                >((ex@, final(self).at())) && ex@.wf(),
                Err(e) => spec_expr(old(self).toks(), old(self).at()) == Err::<
                    (ExprV, int),
                    ParseErrV,
                >(e@) && e@.wf(),
            },
    {
        let left = match self.bin_side() {
            Ok(t) => t,
            Err(e) => {
                return Err(e);
            },
        };
        let next = match self.advance() {
            Ok(t) => t,
            Err(e) => {
                return Err(e);
            },
        };
        let op = match next {
            Token::LessThan | Token::LessEqual | Token::GreaterThan | Token::GreaterEqual
                | Token::Equal => next,
            _ => {
                let expected = vec![
                    Token::LessThan,
                    Token::LessEqual,
                    Token::GreaterThan,
                    Token::GreaterEqual,
                    Token::Equal,
                ];
                proof {
                    assert(expected@[0]@ == TokenV::LessThan);
                    assert(expected@[1]@ == TokenV::LessEqual);
                    assert(expected@[2]@ == TokenV::GreaterThan);
                    assert(expected@[3]@ == TokenV::GreaterEqual);
                    assert(expected@[4]@ == TokenV::Equal);
                    assert(expected.deep_view() =~= seq![
                        TokenV::LessThan,
                        TokenV::LessEqual,
                        TokenV::GreaterThan,
                        TokenV::GreaterEqual,
                        TokenV::Equal,
                    ]);
                }
                return throw_unexpected(&next, expected);
            },
        };
        let right = match self.bin_side() {
            Ok(t) => t,
            Err(e) => {
                return Err(e);
            },
        };
        Ok(Expr::Binary { left, op, right })
    }

    fn bin_side(&mut self) -> (r: Result<Token, ParseError>)
        requires
            old(self).pwf(),
        ensures
            final(self).pwf(),
            final(self).toks() == old(self).toks(),
            match r {
                Ok(t) => spec_bin_side(old(self).toks(), old(self).at()) == Ok::<
                    (TokenV, int),
                    ParseErrV,
                >((t@, final(self).at())) && t@.wf(),
                Err(e) => spec_bin_side(old(self).toks(), old(self).at()) == Err::<
                    (TokenV, int),
                    ParseErrV,
                >(e@) && e@.wf(),
            },
    {
        let next = match self.advance() {
            Ok(t) => t,
            Err(e) => {
                return Err(e);
            },
        };
        match next {
            Token::String(_) | Token::Number(_) | Token::Identifier(_) => Ok(next),
            _ => {
                let expected = vec![
                    Token::String(Vec::new()),
                    Token::Number(Decimal { mantissa: 0, scale: 0 }),
                    Token::Identifier(Vec::new()),
                ];
                proof {
                    assert(expected@[0]@ == TokenV::String(Seq::<u8>::empty()));
                    assert(expected@[1]@ == TokenV::Number(Decimal { mantissa: 0, scale: 0 }));
                    assert(expected@[2]@ == TokenV::Identifier(Seq::<u8>::empty()));
                    assert(expected.deep_view() =~= seq![
                        TokenV::String(Seq::empty()),
                        TokenV::Number(Decimal { mantissa: 0, scale: 0 }),
                        TokenV::Identifier(Seq::empty()),
                    ]);
                }
                throw_unexpected(&next, expected)
            },
        }
    }

    fn ty(&mut self) -> (r: Result<Ty, ParseError>)
        requires
            old(self).pwf(),
        ensures
            final(self).pwf(),
            final(self).toks() == old(self).toks(),
            match r {
                Ok(t) => spec_ty(old(self).toks(), old(self).at()) == Ok::<(Ty, int), ParseErrV>(
                    (t, final(self).at()),
                ),
                Err(e) => spec_ty(old(self).toks(), old(self).at()) == Err::<
                    (Ty, int),
                    ParseErrV,
                >(e@) && e@.wf(),
            },
    {
        let name = match self.consume_ident() {
            Ok(t) => t,
            Err(e) => {
                return Err(e);
            },
        };
        match name {
            Token::Identifier(text) => {
                if crate::parse::token::bytes_eq(text.as_slice(), ("string").as_bytes()) {
                    Ok(Ty::String)
                } else if crate::parse::token::bytes_eq(text.as_slice(), ("number").as_bytes()) {
                    Ok(Ty::Number)
                } else {
                    Err(ParseError::UnknownType(text))
                }
            },
            _ => Err(ParseError::Internal),
        }
    }

    fn key(&mut self) -> (r: Result<Key, ParseError>)
        requires
            old(self).pwf(),
        ensures
            final(self).pwf(),
            final(self).toks() == old(self).toks(),
            match r {
                Ok(k) => spec_key(old(self).toks(), old(self).at()) == Ok::<(KeyV, int), ParseErrV>(
                    (k@, final(self).at()),
                ),
                Err(e) => spec_key(old(self).toks(), old(self).at()) == Err::<
                    (KeyV, int),
                    ParseErrV,
                >(e@) && e@.wf(),
            },
    {
        if self.current >= self.tokens.len() {
            return Err(ParseError::UnexpectedEnd);
        }
        proof {
            assert(self.toks()[self.at()] == self.tokens@[self.at()]@);
        }
        if self.tokens[self.current] == Token::Star {
            self.current = self.current + 1;
            Ok(Key::Glob)
        } else {
            let keys = match self.token_list() {
                Ok(ks) => ks,
                Err(e) => {
                    return Err(e);
                },
            };
            Ok(Key::List(keys))
        }
    }

    fn tokens(&mut self) -> (r: Result<Tokens, ParseError>)
        requires
            old(self).pwf(),
        ensures
            final(self).pwf(),
            final(self).toks() == old(self).toks(),
            match r {
                Ok(ts) => spec_tokens_clause(old(self).toks(), old(self).at()) == Ok::<
                    (TokensV, int),
                    ParseErrV,
                >((ts@, final(self).at())),
                Err(e) => spec_tokens_clause(old(self).toks(), old(self).at()) == Err::<
                    (TokensV, int),
                    ParseErrV,
                >(e@) && e@.wf(),
            },
    {
        if self.current < self.tokens.len() && self.tokens[self.current] == Token::LeftParen {
            proof {
                assert(self.toks()[self.at()] == self.tokens@[self.at()]@);
            }
            self.current = self.current + 1;
            let tokens = match self.token_list() {
                Ok(ts) => ts,
                Err(e) => {
                    return Err(e);
                },
            };
            match self.consume(&Token::RightParen) {
                Ok(_) => (),
                Err(e) => {
                    return Err(e);
                },
            }
            Ok(Tokens::List(tokens))
        } else {
            proof {
                if self.current < self.tokens.len() {
                    assert(self.toks()[self.at()] == self.tokens@[self.at()]@);
                }
            }
            Ok(Tokens::Omitted)
        }
    }

    fn token_list(&mut self) -> (r: Result<Vec<Token>, ParseError>)
        requires
            old(self).pwf(),
        ensures
            final(self).pwf(),
            final(self).toks() == old(self).toks(),
            match r {
                Ok(ts) => spec_token_list(old(self).toks(), old(self).at()) == Ok::<
                    (Seq<TokenV>, int),
                    ParseErrV,
                >((ts.deep_view(), final(self).at())),
                Err(e) => spec_token_list(old(self).toks(), old(self).at()) == Err::<
                    (Seq<TokenV>, int),
                    ParseErrV,
                >(e@) && e@.wf(),
            },
        decreases self.toks().len() - self.at(),
    {
        let first = match self.consume_ident() {
            Ok(t) => t,
            Err(e) => {
                return Err(e);
            },
        };
        if self.current < self.tokens.len() && self.tokens[self.current] == Token::Comma {
            proof {
                assert(self.toks()[self.at()] == self.tokens@[self.at()]@);
            }
            self.current = self.current + 1;
            let rest = match self.token_list() {
                Ok(ts) => ts,
                Err(e) => {
                    return Err(e);
                },
            };
            Ok(prepend(first, rest))
        } else {
            proof {
                if self.current < self.tokens.len() {
                    assert(self.toks()[self.at()] == self.tokens@[self.at()]@);
                }
            }
            let mut one: Vec<Token> = Vec::new();
            one.push(first);
            proof {
                assert(one.deep_view() =~= seq![one@[0]@]);
            }
            Ok(one)
        }
    }

    fn rows(&mut self) -> (r: Result<Vec<Vec<LiteralValue>>, ParseError>)
        requires
            old(self).pwf(),
        ensures
            final(self).pwf(),
            final(self).toks() == old(self).toks(),
            match r {
                Ok(rs) => spec_rows(old(self).toks(), old(self).at()) == Ok::<
                    (Seq<Seq<ValueV>>, int),
                    ParseErrV,
                >((rs.deep_view(), final(self).at())) && rows_wf(rs.deep_view()),
                Err(e) => spec_rows(old(self).toks(), old(self).at()) == Err::<
                    (Seq<Seq<ValueV>>, int),
                    ParseErrV,
                >(e@) && e@.wf(),
            },
        decreases self.toks().len() - self.at(),
    {
        let first = match self.values() {
            Ok(vs) => vs,
            Err(e) => {
                return Err(e);
            },
        };
        proof {
            lemma_spec_values_bounds(old(self).toks(), old(self).at());
        }
        if self.current < self.tokens.len() && self.tokens[self.current] == Token::Comma {
            proof {
                assert(self.toks()[self.at()] == self.tokens@[self.at()]@);
            }
            self.current = self.current + 1;
            let rest = match self.rows() {
                Ok(rs) => rs,
                Err(e) => {
                    return Err(e);
                },
            };
            Ok(prepend(first, rest))
        } else {
            proof {
                if self.current < self.tokens.len() {
                    assert(self.toks()[self.at()] == self.tokens@[self.at()]@);
                }
            }
            let mut one: Vec<Vec<LiteralValue>> = Vec::new();
            one.push(first);
            proof {
                assert(one.deep_view() =~= seq![one@[0].deep_view()]);
            }
            Ok(one)
        }
    }

    fn values(&mut self) -> (r: Result<Vec<LiteralValue>, ParseError>)
        requires
            old(self).pwf(),
        ensures
            final(self).pwf(),
            final(self).toks() == old(self).toks(),
            match r {
                Ok(vs) => spec_values(old(self).toks(), old(self).at()) == Ok::<
                    (Seq<ValueV>, int),
                    ParseErrV,
                >((vs.deep_view(), final(self).at())) && values_wf(vs.deep_view()),
                Err(e) => spec_values(old(self).toks(), old(self).at()) == Err::<
                    (Seq<ValueV>, int),
                    ParseErrV,
                >(e@) && e@.wf(),
            },
    {
        match self.consume(&Token::LeftParen) {
            Ok(_) => (),
            Err(e) => {
                return Err(e);
            },
        }
        if self.current < self.tokens.len() && self.tokens[self.current] == Token::RightParen {
            proof {
                assert(self.toks()[self.at()] == self.tokens@[self.at()]@);
            }
            self.current = self.current + 1;
            let empty: Vec<LiteralValue> = Vec::new();
            proof {
                assert(empty.deep_view() =~= Seq::<ValueV>::empty());
            }
            return Ok(empty);
        }
        proof {
            if self.current < self.tokens.len() {
                assert(self.toks()[self.at()] == self.tokens@[self.at()]@);
            }
        }
        let vals = match self.literal_list() {
            Ok(vs) => vs,
            Err(e) => {
                return Err(e);
            },
        };
        match self.consume(&Token::RightParen) {
            Ok(_) => (),
            Err(e) => {
                return Err(e);
            },
        }
        Ok(vals)
    }

    fn literal_list(&mut self) -> (r: Result<Vec<LiteralValue>, ParseError>)
        requires
            old(self).pwf(),
        ensures
            final(self).pwf(),
            final(self).toks() == old(self).toks(),
            match r {
                Ok(vs) => spec_literal_list(old(self).toks(), old(self).at()) == Ok::<
                    (Seq<ValueV>, int),
                    ParseErrV,
                >((vs.deep_view(), final(self).at())) && values_wf(vs.deep_view()),
                Err(e) => spec_literal_list(old(self).toks(), old(self).at()) == Err::<
                    (Seq<ValueV>, int),
                    ParseErrV,
                >(e@) && e@.wf(),
            },
        decreases self.toks().len() - self.at(),
    {
        let first = match self.literal() {
            Ok(v) => v,
            Err(e) => {
                return Err(e);
            },
        };
        if self.current < self.tokens.len() && self.tokens[self.current] == Token::Comma {
            proof {
                assert(self.toks()[self.at()] == self.tokens@[self.at()]@);
            }
            self.current = self.current + 1;
            let rest = match self.literal_list() {
                Ok(vs) => vs,
                Err(e) => {
                    return Err(e);
                },
            };
            let combined = prepend(first, rest);
            Ok(combined)
        } else {
            proof {
                if self.current < self.tokens.len() {
                    assert(self.toks()[self.at()] == self.tokens@[self.at()]@);
                }
            }
            let mut one: Vec<LiteralValue> = Vec::new();
            one.push(first);
            proof {
                assert(one.deep_view() =~= seq![one@[0]@]);
            }
            Ok(one)
        }
    }

    fn literal(&mut self) -> (r: Result<LiteralValue, ParseError>)
        requires
            old(self).pwf(),
        ensures
            final(self).pwf(),
            final(self).toks() == old(self).toks(),
            match r {
                Ok(v) => spec_literal(old(self).toks(), old(self).at()) == Ok::<
                    (ValueV, int),
                    ParseErrV,
                >((v@, final(self).at())) && v@.wf(),
                Err(e) => spec_literal(old(self).toks(), old(self).at()) == Err::<
                    (ValueV, int),
                    ParseErrV,
                >(e@) && e@.wf(),
            },
    {
        let tok = match self.advance() {
            Ok(t) => t,
            Err(e) => {
                return Err(e);
            },
        };
        match tok {
            Token::Number(n) => Ok(LiteralValue::Number(n)),
            Token::String(s) => Ok(LiteralValue::String(s)),
            _ => {
                let expected = vec![
                    Token::Number(Decimal { mantissa: 0, scale: 0 }),
                    Token::String(Vec::new()),
                ];
                proof {
                    assert(expected@[0]@ == TokenV::Number(Decimal { mantissa: 0, scale: 0 }));
                    assert(expected@[1]@ == TokenV::String(Seq::<u8>::empty()));
                    assert(expected.deep_view() =~= seq![
                        TokenV::Number(Decimal { mantissa: 0, scale: 0 }),
                        TokenV::String(Seq::empty()),
                    ]);
                }
                throw_unexpected(&tok, expected)
            },
        }
    }

    /// Steps over the next token and returns it.
    fn advance(&mut self) -> (r: Result<Token, ParseError>)
        requires
            old(self).pwf(),
        ensures
            final(self).pwf(),
            final(self).toks() == old(self).toks(),
            match r {
                Ok(t) => spec_peek(old(self).toks(), old(self).at()) == Ok::<TokenV, ParseErrV>(t@)
                    && final(self).at() == old(self).at() + 1 && t@.wf(),
                Err(e) => spec_peek(old(self).toks(), old(self).at()) == Err::<TokenV, ParseErrV>(
                    e@,
                ) && final(self).at() == old(self).at() && e@.wf(),
            },
    {
        if self.current < self.tokens.len() {
            let t = self.tokens[self.current].clone();
            proof {
                assert(self.toks()[self.at()] == self.tokens@[self.at()]@);
            }
            self.current = self.current + 1;
            Ok(t)
        } else {
            Err(ParseError::UnexpectedEnd)
        }
    }

    /// Demands the exact token `ty` next and steps over it; on failure
    /// the cursor does not move.
    fn consume(&mut self, ty: &Token) -> (r: Result<(), ParseError>)
        requires
            old(self).pwf(),
            ty@.wf(),
        ensures
            final(self).pwf(),
            final(self).toks() == old(self).toks(),
            match r {
                Ok(_) => spec_consume(old(self).toks(), old(self).at(), ty@) == Ok::<
                    int,
                    ParseErrV,
                >(final(self).at()),
                Err(e) => spec_consume(old(self).toks(), old(self).at(), ty@) == Err::<
                    int,
                    ParseErrV,
                >(e@) && final(self).at() == old(self).at() && e@.wf(),
            },
    {
        if self.current >= self.tokens.len() {
            return Err(ParseError::UnexpectedEnd);
        }
        proof {
            assert(self.toks()[self.at()] == self.tokens@[self.at()]@);
        }
        if &self.tokens[self.current] == ty {
            self.current = self.current + 1;
            Ok(())
        } else {
            let got = self.tokens[self.current].clone();
            let expected = vec![ty.clone()];
            proof {
                assert(expected@[0]@ == ty@);
                assert(expected.deep_view() =~= seq![ty@]);
            }
            throw_unexpected(&got, expected)
        }
    }

    /// Demands an identifier next and steps over it.
    fn consume_ident(&mut self) -> (r: Result<Token, ParseError>)
        requires
            old(self).pwf(),
        ensures
            final(self).pwf(),
            final(self).toks() == old(self).toks(),
            match r {
                Ok(t) => spec_consume_ident(old(self).toks(), old(self).at()) == Ok::<
                    (TokenV, int),
                    ParseErrV,
                >((t@, final(self).at())) && final(self).at() == old(self).at() + 1 && t@.wf(),
                Err(e) => spec_consume_ident(old(self).toks(), old(self).at()) == Err::<
                    (TokenV, int),
                    ParseErrV,
                >(e@) && e@.wf(),
            },
    {
        if self.current >= self.tokens.len() {
            return Err(ParseError::UnexpectedEnd);
        }
        proof {
            assert(self.toks()[self.at()] == self.tokens@[self.at()]@);
        }
        match &self.tokens[self.current] {
            Token::Identifier(_) => {
                let t = self.tokens[self.current].clone();
                self.current = self.current + 1;
                Ok(t)
            },
            _ => {
                let got = self.tokens[self.current].clone();
                let expected = vec![Token::Identifier(Vec::new())];
                proof {
                    assert(expected@[0]@ == TokenV::Identifier(Seq::<u8>::empty()));
                    assert(expected.deep_view() =~= seq![TokenV::Identifier(Seq::empty())]);
                }
                throw_unexpected(&got, expected)
            },
        }
    }
}

} // verus!
