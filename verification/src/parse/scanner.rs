use crate::decimal::{Decimal, MAX_SCALE};
use crate::parse::error::LexError;
use crate::parse::token::{spec_keyword, tokens_wf, Keyword, Token, TokenV};
use vstd::prelude::*;

verus! {

/// The byte classes the lexer distinguishes when it takes a maximal
/// run of input bytes.
pub enum ByteClass {
    /// ASCII `0` to `9`.
    Digit,
    /// ASCII letters.
    Alpha,
    /// Anything but the double quote.
    NonQuote,
}

pub open spec fn in_class(c: ByteClass, b: u8) -> bool {
    match c {
        ByteClass::Digit => 48 <= b <= 57,
        ByteClass::Alpha => (65 <= b <= 90) || (97 <= b <= 122),
        ByteClass::NonQuote => b != 34,
    }
}

/// The end of the maximal run of `c`-class bytes starting at `i`.
pub open spec fn run_end(s: Seq<u8>, i: int, c: ByteClass) -> int
    decreases s.len() - i when 0 <= i <= s.len()
{
    if i < s.len() && in_class(c, s[i]) {
        run_end(s, i + 1, c)
    } else {
        i
    }
}

pub proof fn lemma_run_end(s: Seq<u8>, i: int, c: ByteClass)
    requires
        0 <= i <= s.len(),
    ensures
        i <= run_end(s, i, c) <= s.len(),
        forall|k: int| i <= k < run_end(s, i, c) ==> in_class(c, #[trigger] s[k]),
        run_end(s, i, c) < s.len() ==> !in_class(c, s[run_end(s, i, c)]),
    decreases s.len() - i,
{
    if i < s.len() && in_class(c, s[i]) {
        lemma_run_end(s, i + 1, c);
    }
}

/// A maximal run is pinned down by its endpoints: if everything in
/// `[i, e)` is in the class and `e` is the end of input or out of the
/// class, then `e` is the run's end.
pub proof fn lemma_run_end_is(s: Seq<u8>, i: int, e: int, c: ByteClass)
    requires
        0 <= i <= e <= s.len(),
        forall|k: int| i <= k < e ==> in_class(c, #[trigger] s[k]),
        e < s.len() ==> !in_class(c, s[e]),
    ensures
        run_end(s, i, c) == e,
    decreases e - i,
{
    if i < e {
        lemma_run_end_is(s, i + 1, e, c);
    }
}

/// The numeric value of a string of ASCII digits, most significant
/// first.
pub open spec fn digits_val(d: Seq<u8>) -> int
    decreases d.len(),
{
    if d.len() == 0 {
        0
    } else {
        digits_val(d.drop_last()) * 10 + (d.last() - 48)
    }
}

/// All bytes of `d` are ASCII digits.
pub open spec fn all_digits(d: Seq<u8>) -> bool {
    forall|k: int| 0 <= k < d.len() ==> in_class(ByteClass::Digit, #[trigger] d[k])
}

pub proof fn lemma_digits_val_nonneg(d: Seq<u8>)
    requires
        all_digits(d),
    ensures
        digits_val(d) >= 0,
    decreases d.len(),
{
    if d.len() > 0 {
        assert(all_digits(d.drop_last())) by {
            assert(forall|k: int|
                0 <= k < d.len() - 1 ==> in_class(ByteClass::Digit, #[trigger] d.drop_last()[k]));
        }
        lemma_digits_val_nonneg(d.drop_last());
    }
}

/// Appending more digits never lowers the value.
pub proof fn lemma_digits_val_append_ge(d: Seq<u8>, t: Seq<u8>)
    requires
        all_digits(d),
        all_digits(t),
    ensures
        digits_val(d + t) >= digits_val(d),
    decreases t.len(),
{
    if t.len() == 0 {
        assert(d + t =~= d);
    } else {
        lemma_digits_val_append_ge(d, t.drop_last());
        assert((d + t).drop_last() =~= d + t.drop_last());
        assert(all_digits(d + t.drop_last()));
        lemma_digits_val_nonneg(d + t.drop_last());
        assert(digits_val(d + t) == digits_val(d + t.drop_last()) * 10 + ((d + t).last() - 48));
    }
}

/// The last digit is the value modulo ten.
pub proof fn lemma_digits_val_last_mod(d: Seq<u8>)
    requires
        all_digits(d),
        d.len() > 0,
    ensures
        digits_val(d) % 10 == d.last() - 48,
{
    assert(all_digits(d.drop_last()));
    lemma_digits_val_nonneg(d.drop_last());
    let q = digits_val(d.drop_last());
    let r = d.last() - 48;
    assert((q * 10 + r) % 10 == r) by (nonlinear_arith)
        requires
            q >= 0,
            0 <= r < 10,
    ;
}

/// Trailing zero digits stripped off.
pub open spec fn strip_zeros(d: Seq<u8>) -> Seq<u8>
    decreases d.len(),
{
    if d.len() > 0 && d.last() == 48 {
        strip_zeros(d.drop_last())
    } else {
        d
    }
}

pub proof fn lemma_strip_zeros(d: Seq<u8>)
    ensures
        strip_zeros(d).len() <= d.len(),
        strip_zeros(d) == d.take(strip_zeros(d).len() as int),
        strip_zeros(d).len() > 0 ==> strip_zeros(d).last() != 48,
    decreases d.len(),
{
    if d.len() > 0 && d.last() == 48 {
        lemma_strip_zeros(d.drop_last());
        assert(d.drop_last() =~= d.take(d.len() - 1));
        assert(d.drop_last().take(strip_zeros(d).len() as int) =~= d.take(
            strip_zeros(d).len() as int,
        ));
    } else {
        assert(d =~= d.take(d.len() as int));
    }
}

/// The canonical decimal denoted by integer digits `ip` and fraction
/// digits `fp`, or `None` when no canonical decimal can hold it.
pub open spec fn spec_number(ip: Seq<u8>, fp: Seq<u8>) -> Option<Decimal> {
    let f = strip_zeros(fp);
    let v = digits_val(ip + f);
    if v <= u64::MAX && f.len() <= MAX_SCALE {
        Some(Decimal { mantissa: v as u64, scale: f.len() as u32 })
    } else {
        None
    }
}

/// The token starting at position `i` (`None` for a skipped space)
/// and the position just after it, or the lexing error there.
pub open spec fn spec_next(s: Seq<u8>, i: int) -> Result<(Option<TokenV>, int), LexError>
    recommends
        0 <= i < s.len(),
{
    let b = s[i];
    if b == 42 {
        Ok((Some(TokenV::Star), i + 1))
    } else if b == 34 {
        let e = run_end(s, i + 1, ByteClass::NonQuote);
        if e == s.len() {
            Err(LexError::UnexpectedEof)
        } else {
            Ok((Some(TokenV::String(s.subrange(i + 1, e))), e + 1))
        }
    } else if b == 40 {
        Ok((Some(TokenV::LeftParen), i + 1))
    } else if b == 41 {
        Ok((Some(TokenV::RightParen), i + 1))
    } else if b == 44 {
        Ok((Some(TokenV::Comma), i + 1))
    } else if b == 62 {
        if i + 1 < s.len() && s[i + 1] == 61 {
            Ok((Some(TokenV::GreaterEqual), i + 2))
        } else {
            Ok((Some(TokenV::GreaterThan), i + 1))
        }
    } else if b == 60 {
        if i + 1 < s.len() && s[i + 1] == 61 {
            Ok((Some(TokenV::LessEqual), i + 2))
        } else {
            Ok((Some(TokenV::LessThan), i + 1))
        }
    } else if b == 61 {
        Ok((Some(TokenV::Equal), i + 1))
    } else if b == 32 {
        Ok((None, i + 1))
    } else if in_class(ByteClass::Digit, b) {
        let ie = run_end(s, i, ByteClass::Digit);
        if ie + 1 < s.len() && s[ie] == 46 && in_class(ByteClass::Digit, s[ie + 1]) {
            let fe = run_end(s, ie + 1, ByteClass::Digit);
            match spec_number(s.subrange(i, ie), s.subrange(ie + 1, fe)) {
                Some(d) => Ok((Some(TokenV::Number(d)), fe)),
                None => Err(LexError::NumberTooLarge),
            }
        } else {
            match spec_number(s.subrange(i, ie), Seq::empty()) {
                Some(d) => Ok((Some(TokenV::Number(d)), ie)),
                None => Err(LexError::NumberTooLarge),
            }
        }
    } else if in_class(ByteClass::Alpha, b) {
        let e = run_end(s, i, ByteClass::Alpha);
        let w = s.subrange(i, e);
        match spec_keyword(w) {
            Some(t) => Ok((Some(t), e)),
            None => Ok((Some(TokenV::Identifier(w)), e)),
        }
    } else {
        Err(LexError::Unrecognized(b))
    }
}

/// A successful step always advances and stays within the input.
pub proof fn lemma_spec_next_ok(s: Seq<u8>, i: int)
    requires
        0 <= i < s.len(),
    ensures
        spec_next(s, i) matches Ok((t, j)) ==> i < j <= s.len(),
{
    let b = s[i];
    if b == 34 {
        lemma_run_end(s, i + 1, ByteClass::NonQuote);
    } else if b == 42 || b == 40 || b == 41 || b == 44 || b == 62 || b == 60 || b == 61 || b == 32 {
    } else if in_class(ByteClass::Digit, b) {
        lemma_run_end(s, i, ByteClass::Digit);
        let ie = run_end(s, i, ByteClass::Digit);
        if ie + 1 < s.len() && s[ie] == 46 && in_class(ByteClass::Digit, s[ie + 1]) {
            lemma_run_end(s, ie + 1, ByteClass::Digit);
        }
    } else if in_class(ByteClass::Alpha, b) {
        lemma_run_end(s, i, ByteClass::Alpha);
    }
}

/// The token stream of the input from position `i` on, ending in the
/// explicit end-of-input token, or the first lexing error.
pub open spec fn spec_tokens_from(s: Seq<u8>, i: int) -> Result<Seq<TokenV>, LexError>
    decreases s.len() - i when 0 <= i <= s.len()
{
    if i == s.len() {
        Ok(seq![TokenV::EOF])
    } else {
        match spec_next(s, i) {
            Err(e) => Err(e),
            Ok((t, j)) => {
                proof {
                    lemma_spec_next_ok(s, i);
                }
                match spec_tokens_from(s, j) {
                    Err(e) => Err(e),
                    Ok(rest) => Ok(
                        match t {
                            Some(tok) => seq![tok] + rest,
                            None => rest,
                        },
                    ),
                }
            },
        }
    }
}

/// The token stream of the whole input.
pub open spec fn spec_tokens(s: Seq<u8>) -> Result<Seq<TokenV>, LexError> {
    spec_tokens_from(s, 0)
}

/// The lexer: walks the input bytes once and collects tokens.
pub struct Scanner {
    source: Vec<u8>,
    tokens: Vec<Token>,
    start: usize,
    current: usize,
}

impl Scanner {
    /// Splits `source` into its token stream, ending with the explicit
    /// end-of-input token, or reports the first lexing error.
    #[verifier::rlimit(100)]
    pub fn scan(source: Vec<u8>) -> (r: Result<Vec<Token>, LexError>)
        ensures
            match r {
                Ok(tokens) => spec_tokens(source@) == Ok::<Seq<TokenV>, LexError>(
                    tokens.deep_view(),
                ) && tokens_wf(tokens.deep_view()),
                Err(e) => spec_tokens(source@) == Err::<Seq<TokenV>, LexError>(e),
            },
    {
        let ghost src = source@;
        let mut scanner = Scanner { source, tokens: Vec::new(), start: 0, current: 0 };
        while scanner.current < scanner.source.len()
            invariant
                src == source@,
                scanner.source@ == src,
                scanner.current <= src.len(),
                tokens_wf(scanner.tokens.deep_view()),
                match spec_tokens_from(src, scanner.current as int) {
                    Ok(rest) => spec_tokens(src) == Ok::<Seq<TokenV>, LexError>(
                        scanner.tokens.deep_view() + rest,
                    ),
                    Err(e) => spec_tokens(src) == Err::<Seq<TokenV>, LexError>(e),
                },
            decreases src.len() - scanner.current,
        {
            scanner.start = scanner.current;
            let ghost pre = scanner;
            let step = scanner.scan_token();
            proof {
                lemma_spec_next_ok(src, pre.current as int);
            }
            match step {
                Ok(()) => {
                    proof {
                        let j = scanner.current as int;
                        if spec_tokens_from(src, j) is Ok {
                            let rest = spec_tokens_from(src, j)->Ok_0;
                            let stepped = spec_next(src, pre.current as int)->Ok_0.0;
                            match stepped {
                                Some(tok) => {
                                    assert(pre.tokens.deep_view() + (seq![tok] + rest)
                                        =~= scanner.tokens.deep_view() + rest);
                                },
                                None => {},
                            }
                        }
                    }
                },
                Err(e) => {
                    proof {
                        assert(spec_tokens_from(src, pre.current as int) == Err::<
                            Seq<TokenV>,
                            LexError,
                        >(e));
                    }
                    return Err(e);
                },
            }
        }
        scanner.push_token(Token::EOF);
        Ok(scanner.tokens)
    }

    /// Lexes the single token starting at `self.current`.
    ///
    /// On success the cursor stands just after the token, which has
    /// been appended to `self.tokens` (a space appends nothing).
    #[verifier::rlimit(60)]
    fn scan_token(&mut self) -> (r: Result<(), LexError>)
        requires
            old(self).current < old(self).source@.len(),
        ensures
            final(self).source@ == old(self).source@,
            match r {
                Ok(()) => spec_next(old(self).source@, old(self).current as int) matches Ok((t, j))
                    && final(self).current == j && final(self).tokens.deep_view() == (match t {
                    Some(tok) => old(self).tokens.deep_view() + seq![tok],
                    None => old(self).tokens.deep_view(),
                }) && (tokens_wf(old(self).tokens.deep_view()) ==> tokens_wf(
                    final(self).tokens.deep_view(),
                )),
                Err(e) => spec_next(old(self).source@, old(self).current as int) == Err::<
                    (Option<TokenV>, int),
                    LexError,
                >(e),
            },
    {
        let ghost s = self.source@;
        let n = self.source.len();
        let i = self.current;
        let b = self.source[i];
        self.current = i + 1;
        if b == 42 {
            self.push_token(Token::Star);
            Ok(())
        } else if b == 34 {
            self.string(i)
        } else if b == 40 {
            self.push_token(Token::LeftParen);
            Ok(())
        } else if b == 41 {
            self.push_token(Token::RightParen);
            Ok(())
        } else if b == 44 {
            self.push_token(Token::Comma);
            Ok(())
        } else if b == 62 {
            if self.current < self.source.len() && self.source[self.current] == 61 {
                self.current = self.current + 1;
                self.push_token(Token::GreaterEqual);
            } else {
                self.push_token(Token::GreaterThan);
            }
            Ok(())
        } else if b == 60 {
            if self.current < self.source.len() && self.source[self.current] == 61 {
                self.current = self.current + 1;
                self.push_token(Token::LessEqual);
            } else {
                self.push_token(Token::LessThan);
            }
            Ok(())
        } else if b == 61 {
            self.push_token(Token::Equal);
            Ok(())
        } else if b == 32 {
            Ok(())
        } else if 48 <= b && b <= 57 {
            self.number(i)
        } else if (65 <= b && b <= 90) || (97 <= b && b <= 122) {
            self.identifier(i)
        } else {
            Err(LexError::Unrecognized(b))
        }
    }

    /// Appends one token.
    fn push_token(&mut self, tok: Token)
        ensures
            final(self).source@ == old(self).source@,
            final(self).current == old(self).current,
            final(self).start == old(self).start,
            final(self).tokens.deep_view() == old(self).tokens.deep_view() + seq![tok@],
    {
        let ghost before = self.tokens.deep_view();
        self.tokens.push(tok);
        proof {
            assert(self.tokens.deep_view() =~= before + seq![self.tokens@.last()@]);
        }
    }

    /// Lexes a string literal; `qi` is the position of the opening
    /// quote and the cursor stands just after it.
    #[verifier::rlimit(60)]
    fn string(&mut self, qi: usize) -> (r: Result<(), LexError>)
        requires
            old(self).current == qi + 1,
            qi < old(self).source@.len(),
            old(self).source@[qi as int] == 34,
        ensures
            final(self).source@ == old(self).source@,
            match r {
                Ok(()) => {
                    &&& spec_next(old(self).source@, qi as int) matches Ok((t, j))
                    &&& final(self).current == j
                    &&& t matches Some(tok)
                    &&& final(self).tokens.deep_view() == old(self).tokens.deep_view() + seq![tok]
                    &&& tok.wf()
                },
                Err(e) => spec_next(old(self).source@, qi as int) == Err::<
                    (Option<TokenV>, int),
                    LexError,
                >(e),
            },
    {
        let ghost s = self.source@;
        let n = self.source.len();
        while self.current < n && self.source[self.current] != 34
            invariant
                self.source@ == s,
                n == s.len(),
                qi + 1 <= self.current <= n,
                forall|k: int| qi + 1 <= k < self.current ==> s[k] != 34,
                self.tokens == old(self).tokens,
                self.start == old(self).start,
            decreases n - self.current,
        {
            self.current = self.current + 1;
        }
        proof {
            lemma_run_end_is(s, qi + 1, self.current as int, ByteClass::NonQuote);
        }
        if self.current == n {
            return Err(LexError::UnexpectedEof);
        }
        let content = sub_vec(&self.source, qi + 1, self.current);
        self.current = self.current + 1;
        self.push_token(Token::String(content));
        Ok(())
    }

    /// Lexes a numeric literal; `i` is the position of its first digit
    /// and the cursor stands just after it.
    #[verifier::rlimit(60)]
    fn number(&mut self, i: usize) -> (r: Result<(), LexError>)
        requires
            old(self).current == i + 1,
            i < old(self).source@.len(),
            in_class(ByteClass::Digit, old(self).source@[i as int]),
        ensures
            final(self).source@ == old(self).source@,
            match r {
                Ok(()) => {
                    &&& spec_next(old(self).source@, i as int) matches Ok((t, j))
                    &&& final(self).current == j
                    &&& t matches Some(tok)
                    &&& final(self).tokens.deep_view() == old(self).tokens.deep_view() + seq![tok]
                    &&& tok.wf()
                },
                Err(e) => spec_next(old(self).source@, i as int) == Err::<
                    (Option<TokenV>, int),
                    LexError,
                >(e),
            },
    {
        let ghost s = self.source@;
        let n = self.source.len();
        while self.current < n && 48 <= self.source[self.current] && self.source[self.current]
            <= 57
            invariant
                self.source@ == s,
                n == s.len(),
                i + 1 <= self.current <= n,
                forall|k: int| i <= k < self.current ==> in_class(ByteClass::Digit, #[trigger] s[k]),
                self.tokens == old(self).tokens,
            decreases n - self.current,
        {
            self.current = self.current + 1;
        }
        proof {
            lemma_run_end_is(s, i as int, self.current as int, ByteClass::Digit);
        }
        let ie = self.current;
        let has_frac = n - ie > 1 && self.source[ie] == 46 && 48 <= self.source[ie + 1]
            && self.source[ie + 1] <= 57;
        let mut fe = ie;
        if has_frac {
            self.current = ie + 1;
            while self.current < n && 48 <= self.source[self.current] && self.source[self.current]
                <= 57
                invariant
                    self.source@ == s,
                    n == s.len(),
                    ie + 1 <= self.current <= n,
                    forall|k: int|
                        ie + 1 <= k < self.current ==> in_class(ByteClass::Digit, #[trigger] s[k]),
                    self.tokens == old(self).tokens,
                decreases n - self.current,
            {
                self.current = self.current + 1;
            }
            proof {
                lemma_run_end_is(s, ie + 1 as int, self.current as int, ByteClass::Digit);
            }
            fe = self.current;
        }
        // strip trailing fraction zeros
        let ghost fp = if has_frac {
            s.subrange(ie + 1 as int, fe as int)
        } else {
            Seq::<u8>::empty()
        };
        let mut fe2 = fe;
        let frac_start = if has_frac {
            ie + 1
        } else {
            ie
        };
        while fe2 > frac_start && self.source[fe2 - 1] == 48
            invariant
                self.source@ == s,
                frac_start <= fe2 <= s.len(),
                fe2 <= fe,
                has_frac ==> frac_start == ie + 1 && strip_zeros(fp) == strip_zeros(
                    s.subrange(frac_start as int, fe2 as int),
                ),
                !has_frac ==> frac_start == ie && fe2 == ie,
                has_frac ==> fe <= s.len() && forall|k: int|
                    frac_start <= k < fe ==> in_class(ByteClass::Digit, #[trigger] s[k]),
                self.tokens == old(self).tokens,
            decreases fe2,
        {
            proof {
                let cur = s.subrange(frac_start as int, fe2 as int);
                assert(cur.last() == 48);
                assert(cur.drop_last() =~= s.subrange(frac_start as int, fe2 - 1));
            }
            fe2 = fe2 - 1;
        }
        proof {
            if has_frac {
                let cur = s.subrange(frac_start as int, fe2 as int);
                if fe2 > frac_start {
                    assert(cur.last() == s[fe2 - 1]);
                    assert(strip_zeros(cur) == cur);
                } else {
                    assert(cur =~= Seq::<u8>::empty());
                    assert(strip_zeros(cur) == cur);
                }
                assert(strip_zeros(fp) == s.subrange(frac_start as int, fe2 as int));
            } else {
                assert(strip_zeros(fp) =~= Seq::<u8>::empty());
                assert(s.subrange(frac_start as int, fe2 as int) =~= Seq::<u8>::empty());
            }
        }
        // gather the significant digits and fold them into a mantissa
        let mut digits = sub_vec(&self.source, i, ie);
        let mut frac_part = sub_vec(&self.source, frac_start, fe2);
        let scale_len = fe2 - frac_start;
        proof {
            assert(digits@ + frac_part@ =~= s.subrange(i as int, ie as int) + strip_zeros(fp));
        }
        digits.append(&mut frac_part);
        let mantissa = match fold_digits(&digits) {
            Some(m) => m,
            None => {
                return Err(LexError::NumberTooLarge);
            },
        };
        if scale_len > MAX_SCALE as usize {
            return Err(LexError::NumberTooLarge);
        }
        let d = Decimal { mantissa, scale: scale_len as u32 };
        proof {
            let f = strip_zeros(fp);
            if f.len() > 0 {
                lemma_strip_zeros(fp);
                assert(all_digits(digits@));
                assert(digits@.last() == f.last());
                lemma_digits_val_last_mod(digits@);
            }
            assert(d.wf());
        }
        self.current = if has_frac {
            fe
        } else {
            ie
        };
        self.push_token(Token::Number(d));
        Ok(())
    }

    /// Lexes an identifier or keyword; `i` is the position of its
    /// first letter and the cursor stands just after it.
    #[verifier::rlimit(60)]
    fn identifier(&mut self, i: usize) -> (r: Result<(), LexError>)
        requires
            old(self).current == i + 1,
            i < old(self).source@.len(),
            in_class(ByteClass::Alpha, old(self).source@[i as int]),
        ensures
            final(self).source@ == old(self).source@,
            match r {
                Ok(()) => {
                    &&& spec_next(old(self).source@, i as int) matches Ok((t, j))
                    &&& final(self).current == j
                    &&& t matches Some(tok)
                    &&& final(self).tokens.deep_view() == old(self).tokens.deep_view() + seq![tok]
                    &&& tok.wf()
                },
                Err(e) => spec_next(old(self).source@, i as int) == Err::<
                    (Option<TokenV>, int),
                    LexError,
                >(e),
            },
    {
        let ghost s = self.source@;
        let n = self.source.len();
        while self.current < n && ((65 <= self.source[self.current] && self.source[self.current]
            <= 90) || (97 <= self.source[self.current] && self.source[self.current] <= 122))
            invariant
                self.source@ == s,
                n == s.len(),
                i + 1 <= self.current <= n,
                forall|k: int| i <= k < self.current ==> in_class(ByteClass::Alpha, #[trigger] s[k]),
                self.tokens == old(self).tokens,
            decreases n - self.current,
        {
            self.current = self.current + 1;
        }
        proof {
            lemma_run_end_is(s, i as int, self.current as int, ByteClass::Alpha);
        }
        let word = sub_vec(&self.source, i, self.current);
        let tok = match Keyword::get(word.as_slice()) {
            Some(t) => t,
            None => Token::Identifier(word),
        };
        proof {
            assert(tok@.wf()) by {
                let w = s.subrange(i as int, self.current as int);
                assert(spec_keyword(w) matches Some(t) ==> t.wf());
            }
        }
        self.push_token(tok);
        Ok(())
    }
}

/// A copy of `v[from..to]`.
pub fn sub_vec_slice(v: &[u8], from: usize, to: usize) -> (r: Vec<u8>)
    requires
        from <= to <= v@.len(),
    ensures
        r@ == v@.subrange(from as int, to as int),
{
    let mut r: Vec<u8> = Vec::new();
    let mut k = from;
    while k < to
        invariant
            from <= k <= to <= v@.len(),
            r@ == v@.subrange(from as int, k as int),
        decreases to - k,
    {
        r.push(v[k]);
        proof {
            assert(r@ =~= v@.subrange(from as int, (k + 1) as int));
        }
        k = k + 1;
    }
    r
}

/// A copy of `v[from..to]`.
pub fn sub_vec(v: &Vec<u8>, from: usize, to: usize) -> (r: Vec<u8>)
    requires
        from <= to <= v@.len(),
    ensures
        r@ == v@.subrange(from as int, to as int),
{
    let mut r: Vec<u8> = Vec::new();
    let mut k = from;
    while k < to
        invariant
            from <= k <= to <= v@.len(),
            r@ == v@.subrange(from as int, k as int),
        decreases to - k,
    {
        r.push(v[k]);
        proof {
            assert(r@ =~= v@.subrange(from as int, (k + 1) as int));
        }
        k = k + 1;
    }
    r
}

/// Folds ASCII digits into a `u64`, or `None` on overflow.
pub fn fold_digits(d: &Vec<u8>) -> (r: Option<u64>)
    requires
        all_digits(d@),
    ensures
        match r {
            Some(m) => m == digits_val(d@),
            None => digits_val(d@) > u64::MAX,
        },
{
    let mut m: u64 = 0;
    let mut k: usize = 0;
    let n = d.len();
    while k < n
        invariant
            all_digits(d@),
            n == d@.len(),
            k <= n,
            m == digits_val(d@.take(k as int)),
        decreases n - k,
    {
        let dv = d[k] - 48;
        proof {
            assert(d@.take((k + 1) as int).drop_last() =~= d@.take(k as int));
            assert(d@.take((k + 1) as int).last() == d@[k as int]);
        }
        if m > (u64::MAX - (dv as u64)) / 10 {
            proof {
                let done = d@.take((k + 1) as int);
                let rest = d@.skip((k + 1) as int);
                assert(all_digits(done));
                assert(all_digits(rest));
                assert(digits_val(done) > u64::MAX) by (nonlinear_arith)
                    requires
                        digits_val(done) == digits_val(done.drop_last()) * 10 + (done.last() - 48),
                        done.drop_last() == d@.take(k as int),
                        done.last() == d@[k as int],
                        digits_val(d@.take(k as int)) == m,
                        m > (u64::MAX - ((d@[k as int] - 48) as u64)) / 10,
                        0 <= d@[k as int] - 48 < 10,
                        m <= u64::MAX,
                ;
                lemma_digits_val_append_ge(done, rest);
                assert(done + rest =~= d@);
            }
            return None;
        }
        m = m * 10 + (dv as u64);
        k = k + 1;
    }
    proof {
        assert(d@.take(n as int) =~= d@);
    }
    Some(m)
}

} // verus!
