use vstd::prelude::*;

use crate::ast::{
    stmts_model, BlockModel, BlockStatement, ExprModel, Expression, Identifier, Program,
    Statement, StmtModel,
};
use crate::lexer::{chars_of, lex_from, Lexer};
use crate::token::{same_shape, shapes_of, token_at, Token};

verus! {

/// Binding strength of an operator, from weakest to strongest.
#[derive(Debug, Clone, Copy, PartialEq, Eq, Structural, PartialOrd)]
pub enum Precedence {
    Lowest,
    Equals,
    LessGreater,
    Sum,
    Product,
    Prefix,
    Call,
}

impl Precedence {
    /// The position of the level in the order, weakest first.
    pub open spec fn rank(self) -> int {
        match self {
            Precedence::Lowest => 0,
            Precedence::Equals => 1,
            Precedence::LessGreater => 2,
            Precedence::Sum => 3,
            Precedence::Product => 4,
            Precedence::Prefix => 5,
            Precedence::Call => 6,
        }
    }

    pub fn for_token(token: &Token) -> (r: Self)
        ensures
            r == precedence_of(*token),
    {
        match token {
            Token::Eq | Token::NotEq => Precedence::Equals,
            Token::Gt | Token::Lt => Precedence::LessGreater,
            Token::Plus | Token::Minus => Precedence::Sum,
            Token::Slash | Token::Asterisk => Precedence::Product,
            _ => Precedence::Lowest,
        }
    }

    /// Whether `self` binds strictly weaker than `other`.
    pub fn is_below(self, other: Precedence) -> (r: bool)
        ensures
            r == (self.rank() < other.rank()),
    {
        self.index() < other.index()
    }

    fn index(self) -> (r: u8)
        ensures
            r == self.rank(),
    {
        match self {
            Precedence::Lowest => 0,
            Precedence::Equals => 1,
            Precedence::LessGreater => 2,
            Precedence::Sum => 3,
            Precedence::Product => 4,
            Precedence::Prefix => 5,
            Precedence::Call => 6,
        }
    }
}

/// The level of a binary operator token; `Lowest` for every other token.
pub open spec fn precedence_of(t: Token) -> Precedence {
    match t {
        Token::Eq | Token::NotEq => Precedence::Equals,
        Token::Gt | Token::Lt => Precedence::LessGreater,
        Token::Plus | Token::Minus => Precedence::Sum,
        Token::Slash | Token::Asterisk => Precedence::Product,
        _ => Precedence::Lowest,
    }
}

pub open spec fn is_binary_operator(t: Token) -> bool {
    match t {
        Token::Plus | Token::Minus | Token::Asterisk | Token::Slash | Token::Gt | Token::Lt
        | Token::Eq | Token::NotEq => true,
        _ => false,
    }
}

#[derive(Debug, Clone, PartialEq)]
pub enum ParserError {
    ExpectedToken { expected: Token, saw: Token },
    ExpectedIdent(Token),
    IntegerParseFailure(String),
    UnhandledPrefix(Token),
    UnhandledExpression(Token),
}

/// The value of a string of decimal digits.
pub open spec fn decimal_value(d: Seq<char>) -> int
    decreases d.len(),
{
    if d.len() == 0 {
        0
    } else {
        decimal_value(d.drop_last()) * 10 + (d.last() as int - '0' as int)
    }
}

pub open spec fn all_digits(d: Seq<char>) -> bool {
    forall|i: int| 0 <= i < d.len() ==> '0' <= #[trigger] d[i] && d[i] <= '9'
}

/// The `i64` that `text` spells: an optional `+` or `-` followed by at least
/// one decimal digit, with a value in range; `None` for any other text.
pub open spec fn int_value(text: Seq<char>) -> Option<i64> {
    let negative = text.len() > 0 && text[0] == '-';
    let signed = text.len() > 0 && (text[0] == '-' || text[0] == '+');
    let digits = if signed { text.skip(1) } else { text };
    if digits.len() == 0 || !all_digits(digits) {
        None
    } else if negative {
        if decimal_value(digits) <= 0x8000_0000_0000_0000 {
            Some((-decimal_value(digits)) as i64)
        } else {
            None
        }
    } else if decimal_value(digits) <= 0x7fff_ffff_ffff_ffff {
        Some(decimal_value(digits) as i64)
    } else {
        None
    }
}

/// The position after advancing once from `k`: the stream never moves past its end.
pub open spec fn advance(s: Seq<Token>, k: int) -> int {
    if k < s.len() {
        k + 1
    } else {
        k
    }
}

pub open spec fn expr_result(r: Result<Expression, ParserError>) -> Result<ExprModel, ParserError> {
    match r {
        Ok(e) => Ok(e.model()),
        Err(e) => Err(e),
    }
}

pub open spec fn stmt_result(r: Result<Statement, ParserError>) -> Result<StmtModel, ParserError> {
    match r {
        Ok(st) => Ok(st.model()),
        Err(e) => Err(e),
    }
}

pub open spec fn block_result(r: Result<BlockStatement, ParserError>) -> Result<
    BlockModel,
    ParserError,
> {
    match r {
        Ok(b) => Ok(b.model()),
        Err(e) => Err(e),
    }
}

/// Checking that the token after position `k` has the shape of `expected`:
/// on success the position moves onto it.
pub open spec fn expect_peek_spec(s: Seq<Token>, k: int, expected: Token) -> (int, Result<(), ParserError>) {
    if same_shape(token_at(s, k + 1), expected) {
        (advance(s, k), Ok(()))
    } else {
        (k, Err(ParserError::ExpectedToken { expected, saw: token_at(s, k + 1) }))
    }
}

// The spec functions below describe the parser over a token stream `s` and the
// position `k` of the current token. Each returns the position where parsing
// left the window together with its outcome. Positions never move backwards
// (the parser's methods prove it of themselves); the comparisons of positions
// that some of these functions make only let Verus see that they terminate.

/// Parsing an expression that starts at position `k`, absorbing binary operators
/// that bind strictly tighter than `prec`. The result is the position of the
/// expression's last token (or where parsing stopped on failure) and the outcome.
pub open spec fn expression_spec(s: Seq<Token>, k: int, prec: Precedence) -> (int, Result<ExprModel, ParserError>)
    decreases s.len() - k, 3int,
{
    let (k1, r) = prefix_spec(s, k);
    match r {
        Err(e) => (k1, Err(e)),
        Ok(left) => if k <= k1 <= s.len() {
            infix_loop_spec(s, k1, prec, left)
        } else {
            (k1, Ok(left))
        },
    }
}

/// The expression that the token at `k` begins, before any binary operator.
pub open spec fn prefix_spec(s: Seq<Token>, k: int) -> (int, Result<ExprModel, ParserError>)
    decreases s.len() - k, 2int,
{
    match token_at(s, k) {
        Token::Ident(name) => (k, Ok(ExprModel::Identifier(Identifier(name)))),
        Token::Int(text) => match int_value(text@) {
            Some(v) => (k, Ok(ExprModel::IntegerLiteral(v))),
            None => (k, Err(ParserError::IntegerParseFailure(text))),
        },
        Token::Bang => prefix_expression_spec(s, k),
        Token::Minus => prefix_expression_spec(s, k),
        Token::Plus => prefix_expression_spec(s, k),
        Token::True => (k, Ok(ExprModel::Boolean(true))),
        Token::False => (k, Ok(ExprModel::Boolean(false))),
        Token::LParen => grouped_expression_spec(s, k),
        Token::If => if_expression_spec(s, k),
        t => (k, Err(ParserError::UnhandledPrefix(t))),
    }
}

/// The operand after a unary operator at `k`, bound at `Prefix` strength.
pub open spec fn prefix_expression_spec(s: Seq<Token>, k: int) -> (int, Result<ExprModel, ParserError>)
    decreases s.len() - k, 1int,
{
    if k < s.len() {
        let (k1, r) = expression_spec(s, k + 1, Precedence::Prefix);
        match r {
            Ok(right) => (k1, Ok(ExprModel::Prefix { operator: token_at(s, k), right: Box::new(right) })),
            Err(e) => (k1, Err(e)),
        }
    } else {
        (k, Err(ParserError::UnhandledPrefix(Token::EOF)))
    }
}

/// The right operand of the binary operator at `k`, bound at the operator's own
/// level, joined to `left`.
pub open spec fn infix_expression_spec(s: Seq<Token>, k: int, left: ExprModel) -> (int, Result<ExprModel, ParserError>)
    decreases s.len() - k, 0int,
{
    let operator = token_at(s, k);
    if k < s.len() {
        let (k1, r) = expression_spec(s, k + 1, precedence_of(operator));
        match r {
            Ok(right) => (k1, Ok(ExprModel::Infix { operator, left: Box::new(left), right: Box::new(right) })),
            Err(e) => (k1, Err(e)),
        }
    } else {
        (k, Err(ParserError::UnhandledPrefix(Token::EOF)))
    }
}

/// Extending `left`, which ends at `k`, with the binary operators that follow.
pub open spec fn infix_loop_spec(s: Seq<Token>, k: int, prec: Precedence, left: ExprModel) -> (int, Result<ExprModel, ParserError>)
    decreases s.len() - k, 1int,
{
    let next = token_at(s, k + 1);
    if !same_shape(next, Token::Semicolon) && prec.rank() < precedence_of(next).rank()
        && is_binary_operator(next) {
        let (k1, r) = infix_expression_spec(s, k + 1, left);
        match r {
            Ok(e) => if k < k1 <= s.len() {
                infix_loop_spec(s, k1, prec, e)
            } else {
                (k1, Ok(e))
            },
            Err(e) => (k1, Err(e)),
        }
    } else {
        (k, Ok(left))
    }
}

/// A parenthesised expression whose `(` is at `k`.
pub open spec fn grouped_expression_spec(s: Seq<Token>, k: int) -> (int, Result<ExprModel, ParserError>)
    decreases s.len() - k, 1int,
{
    let (k1, r) = if k < s.len() {
        expression_spec(s, k + 1, Precedence::Lowest)
    } else {
        (k, Err(ParserError::UnhandledPrefix(Token::EOF)))
    };
    let (k2, closed) = expect_peek_spec(s, k1, Token::RParen);
    match closed {
        Ok(_) => (k2, r),
        Err(e) => (k2, Err(e)),
    }
}

/// An `if` expression whose `if` is at `k`.
pub open spec fn if_expression_spec(s: Seq<Token>, k: int) -> (int, Result<ExprModel, ParserError>)
    decreases s.len() - k, 1int,
{
    if !same_shape(token_at(s, k + 1), Token::LParen) {
        (k, Err(ParserError::ExpectedToken { expected: Token::LParen, saw: token_at(s, k + 1) }))
    } else {
        let (k1, rc) = expression_spec(s, k + 1, Precedence::Lowest);
        match rc {
            Err(e) => (k1, Err(e)),
            Ok(condition) => if !same_shape(token_at(s, k1 + 1), Token::LBrace) || k1 < k {
                (k1, Err(ParserError::ExpectedToken { expected: Token::LBrace, saw: token_at(s, k1 + 1) }))
            } else {
                let (k2, rb) = block_statement_spec(s, k1 + 1);
                match rb {
                    Err(e) => (k2, Err(e)),
                    Ok(consequence) => if token_at(s, k2 + 1) == Token::Else && k <= k2 {
                        let k3 = advance(s, k2);
                        if !same_shape(token_at(s, k3 + 1), Token::LBrace) {
                            (k3, Err(ParserError::ExpectedToken { expected: Token::LBrace, saw: token_at(s, k3 + 1) }))
                        } else {
                            let (k4, ra) = block_statement_spec(s, k3 + 1);
                            match ra {
                                Err(e) => (k4, Err(e)),
                                Ok(alternative) => (k4, Ok(ExprModel::If {
                                    condition: Box::new(condition),
                                    consequence,
                                    alternative: Some(alternative),
                                })),
                            }
                        }
                    } else {
                        (k2, Ok(ExprModel::If {
                            condition: Box::new(condition),
                            consequence,
                            alternative: None,
                        }))
                    },
                }
            },
        }
    }
}

/// A block whose opening token is at `k`: statements up to `}` or the end.
pub open spec fn block_statement_spec(s: Seq<Token>, k: int) -> (int, Result<BlockModel, ParserError>)
    decreases s.len() - k, 0int,
{
    if k < s.len() {
        block_loop_spec(s, k + 1, token_at(s, k), Seq::empty())
    } else {
        (k, Ok(BlockModel { token: Token::EOF, statements: Seq::empty() }))
    }
}

/// The rest of a block from position `k`, after the statements `acc`.
pub open spec fn block_loop_spec(s: Seq<Token>, k: int, token: Token, acc: Seq<StmtModel>) -> (int, Result<BlockModel, ParserError>)
    decreases s.len() - k, 6int,
{
    if same_shape(token_at(s, k), Token::RBrace) || same_shape(token_at(s, k), Token::EOF) {
        (k, Ok(BlockModel { token, statements: acc }))
    } else {
        let (k1, r) = statement_spec(s, k);
        match r {
            Err(e) => (k1, Err(e)),
            Ok(st) => if k <= k1 <= s.len() {
                block_loop_spec(s, advance(s, k1), token, acc.push(st))
            } else {
                (k1, Ok(BlockModel { token, statements: acc.push(st) }))
            },
        }
    }
}

/// A statement that starts at position `k`.
pub open spec fn statement_spec(s: Seq<Token>, k: int) -> (int, Result<StmtModel, ParserError>)
    decreases s.len() - k, 5int,
{
    match token_at(s, k) {
        Token::Let => let_statement_spec(s, k),
        Token::Return => return_statement_spec(s, k),
        _ => expression_statement_spec(s, k),
    }
}

/// `let <ident> = <expression>` with an optional `;`, from the `let` at `k`.
pub open spec fn let_statement_spec(s: Seq<Token>, k: int) -> (int, Result<StmtModel, ParserError>)
    decreases s.len() - k, 4int,
{
    let token = token_at(s, k);
    match token_at(s, k + 1) {
        Token::Ident(name) => {
            let k1 = advance(s, k);
            if !same_shape(token_at(s, k1 + 1), Token::Assign) {
                (k1, Err(ParserError::ExpectedToken { expected: Token::Assign, saw: token_at(s, k1 + 1) }))
            } else {
                let (k2, r) = expression_spec(s, advance(s, advance(s, k1)), Precedence::Lowest);
                match r {
                    Err(e) => (k2, Err(e)),
                    Ok(value) => (
                        if same_shape(token_at(s, k2 + 1), Token::Semicolon) {
                            advance(s, k2)
                        } else {
                            k2
                        },
                        Ok(StmtModel::Let { token, name: Identifier(name), value }),
                    ),
                }
            }
        },
        t => (k, Err(ParserError::ExpectedIdent(t))),
    }
}

/// An expression used as a statement, with an optional `;`, from position `k`;
/// the statement carries the expression's first token.
pub open spec fn expression_statement_spec(s: Seq<Token>, k: int) -> (int, Result<StmtModel, ParserError>)
    decreases s.len() - k, 4int,
{
    let (k1, r) = expression_spec(s, k, Precedence::Lowest);
    match r {
        Err(e) => (k1, Err(e)),
        Ok(expr) => (
            if same_shape(token_at(s, k1 + 1), Token::Semicolon) {
                advance(s, k1)
            } else {
                k1
            },
            Ok(StmtModel::Expression { token: token_at(s, k), expr }),
        ),
    }
}

/// A `return` statement at `k`: its value is not parsed; the tokens up to the
/// next `;` (or the end of the stream) are skipped.
pub open spec fn return_statement_spec(s: Seq<Token>, k: int) -> (int, Result<StmtModel, ParserError>) {
    (
        skip_to_semicolon(s, advance(s, k)),
        Ok(StmtModel::Return { token: token_at(s, k), expr: ExprModel::Nothing }),
    )
}

/// The first position from `k` that holds `;` or `EOF`.
pub open spec fn skip_to_semicolon(s: Seq<Token>, k: int) -> int
    decreases s.len() - k,
{
    if same_shape(token_at(s, k), Token::Semicolon) || same_shape(token_at(s, k), Token::EOF) {
        k
    } else {
        skip_to_semicolon(s, advance(s, k))
    }
}

/// The statements and diagnostics of a whole program read from position `k`,
/// after the statements `stmts` and diagnostics `errs` collected so far. A
/// statement that fails is dropped and its error recorded; either way the
/// position then advances once.
pub open spec fn program_spec(s: Seq<Token>, k: int, stmts: Seq<StmtModel>, errs: Seq<ParserError>) -> (Seq<StmtModel>, Seq<ParserError>)
    decreases s.len() - k,
{
    if token_at(s, k) == Token::EOF {
        (stmts, errs)
    } else {
        let (k1, r) = statement_spec(s, k);
        let (stmts2, errs2) = match r {
            Ok(st) => (stmts.push(st), errs),
            Err(e) => (stmts, errs.push(e)),
        };
        if k <= k1 <= s.len() {
            program_spec(s, advance(s, k1), stmts2, errs2)
        } else {
            (stmts2, errs2)
        }
    }
}

proof fn lemma_decimal_nonneg(d: Seq<char>)
    requires
        all_digits(d),
    ensures
        decimal_value(d) >= 0,
    decreases d.len(),
{
    if d.len() > 0 {
        assert(all_digits(d.drop_last()));
        lemma_decimal_nonneg(d.drop_last());
        assert('0' <= d[d.len() - 1]);
    }
}

/// A prefix of a digit string is worth no more than the whole.
proof fn lemma_decimal_prefix(d: Seq<char>, i: int)
    requires
        all_digits(d),
        0 <= i <= d.len(),
    ensures
        decimal_value(d.subrange(0, i)) <= decimal_value(d),
    decreases d.len(),
{
    if i < d.len() {
        assert(d.drop_last().subrange(0, i) =~= d.subrange(0, i));
        assert(all_digits(d.drop_last()));
        lemma_decimal_prefix(d.drop_last(), i);
        lemma_decimal_nonneg(d.drop_last());
        assert('0' <= d[d.len() - 1]);
    } else {
        assert(d.subrange(0, i) =~= d);
    }
}

/// The `i64` that `text` spells, as `str::parse::<i64>` reads it.
fn parse_i64(text: &str) -> (r: Option<i64>)
    ensures
        r == int_value(text@),
{
    let cs = chars_of(text);
    let n = cs.len();
    let negative = n > 0 && cs[0] == '-';
    let signed = n > 0 && (cs[0] == '-' || cs[0] == '+');
    let start: usize = if signed {
        1
    } else {
        0
    };
    let ghost digits = if signed {
        text@.skip(1)
    } else {
        text@
    };
    assert(cs@.subrange(start as int, n as int) =~= digits);
    if start >= n {
        return None;
    }
    let limit: u64 = if negative {
        0x8000_0000_0000_0000
    } else {
        0x7fff_ffff_ffff_ffff
    };
    let mut acc: u64 = 0;
    let mut i: usize = start;
    assert(cs@.subrange(start as int, start as int) =~= Seq::<char>::empty());
    while i < n
        invariant
            cs@ == text@,
            n == cs.len(),
            start <= i <= n,
            signed == (text@.len() > 0 && (text@[0] == '-' || text@[0] == '+')),
            negative == (text@.len() > 0 && text@[0] == '-'),
            start == (if signed { 1int } else { 0int }),
            limit == (if negative { 0x8000_0000_0000_0000u64 } else { 0x7fff_ffff_ffff_ffffu64 }),
            digits == (if signed { text@.skip(1) } else { text@ }),
            digits == cs@.subrange(start as int, n as int),
            acc == decimal_value(cs@.subrange(start as int, i as int)),
            acc <= limit,
            all_digits(cs@.subrange(start as int, i as int)),
        decreases n - i,
    {
        let c = cs[i];
        let ghost before = cs@.subrange(start as int, i as int);
        let ghost after = cs@.subrange(start as int, i + 1);
        assert(after.drop_last() =~= before);
        assert(after =~= digits.subrange(0, i + 1 - start));
        if !('0' <= c && c <= '9') {
            assert(digits[i - start] == c);
            assert(!all_digits(digits));
            assert(int_value(text@) is None);
            return None;
        }
        let d: u64 = (c as u32 - '0' as u32) as u64;
        assert(all_digits(after));
        assert(decimal_value(after) == decimal_value(before) * 10 + d);
        let next = match acc.checked_mul(10) {
            Some(m) => m.checked_add(d),
            None => None,
        };
        match next {
            Some(v) if v <= limit => {
                acc = v;
            },
            _ => {
                proof {
                    if all_digits(digits) {
                        lemma_decimal_prefix(digits, i + 1 - start);
                        assert(decimal_value(digits) > limit);
                    }
                    assert(int_value(text@) is None);
                }
                return None;
            },
        }
        i = i + 1;
    }
    if negative {
        Some((-(acc as i128)) as i64)
    } else {
        Some(acc as i64)
    }
}

/// Holds the parser's two-token window over a lexer, and the diagnostics collected.
pub struct Parser {
    lexer: Lexer,
    errors: Vec<ParserError>,
    cur_token: Token,
    peek_token: Token,
    pos: Ghost<int>,
}

impl Parser {
    /// The stream of tokens the parser reads.
    pub closed spec fn stream(&self) -> Seq<Token> {
        self.lexer.stream()
    }

    /// The position of the current token in the stream.
    pub closed spec fn position(&self) -> int {
        self.pos@
    }

    /// The diagnostics collected so far, in order.
    pub closed spec fn diagnostics(&self) -> Seq<ParserError> {
        self.errors@
    }

    pub closed spec fn wf(&self) -> bool {
        let s = self.lexer.stream();
        &&& self.lexer.wf()
        &&& 0 <= self.pos@ <= s.len()
        &&& forall|i: int| 0 <= i < s.len() ==> s[i] != Token::EOF
        &&& self.lexer.pulled() == if self.pos@ + 2 <= s.len() {
            self.pos@ + 2
        } else {
            s.len() as int
        }
        &&& self.cur_token == token_at(s, self.pos@)
        &&& self.peek_token == token_at(s, self.pos@ + 1)
    }

    /// `self` is a well-formed successor of `before`: same stream, same
    /// diagnostics, not behind it.
    pub open spec fn follows(&self, before: &Parser) -> bool {
        &&& self.wf()
        &&& self.stream() == before.stream()
        &&& self.diagnostics() == before.diagnostics()
        &&& before.position() <= self.position()
    }

    pub fn new(lexer: Lexer) -> (r: Self)
        requires
            lexer.wf(),
        ensures
            r.wf(),
            r.stream() == lexer.stream(),
            r.position() == lexer.pulled(),
            r.diagnostics().len() == 0,
    {
        let ghost start = lexer.pulled();
        proof {
            lexer.lemma_bounds();
        }
        let mut lexer = lexer;
        let cur_token = lexer.next_token();
        let peek_token = lexer.next_token();
        Parser { lexer, errors: Vec::new(), cur_token, peek_token, pos: Ghost(start) }
    }

    pub fn from_input(input: &str) -> (r: Self)
        ensures
            r.wf(),
            shapes_of(r.stream()) == lex_from(input@, 0),
            r.position() == 0,
            r.diagnostics().len() == 0,
    {
        Parser::new(Lexer::new(input))
    }

    pub fn errors(&self) -> (r: &[ParserError])
        ensures
            r@ == self.diagnostics(),
    {
        self.errors.as_slice()
    }

    /// The diagnostic for a next token that is not `expected`.
    pub fn peek_error(&mut self, expected: &Token) -> (r: ParserError)
        requires
            old(self).wf(),
        ensures
            *final(self) == *old(self),
            r == (ParserError::ExpectedToken {
                expected: *expected,
                saw: token_at(old(self).stream(), old(self).position() + 1),
            }),
    {
        ParserError::ExpectedToken { expected: expected.copy(), saw: self.peek_token.copy() }
    }

    /// Moves the window one token on.
    pub fn next_token(&mut self)
        requires
            old(self).wf(),
        ensures
            final(self).follows(old(self)),
            final(self).position() == advance(old(self).stream(), old(self).position()),
    {
        std::mem::swap(&mut self.cur_token, &mut self.peek_token);
        self.peek_token = self.lexer.next_token();
        self.pos = Ghost(advance(self.lexer.stream(), self.pos@));
    }

    pub fn current_token_is(&self, tok: &Token) -> (r: bool)
        requires
            self.wf(),
        ensures
            r == same_shape(*tok, token_at(self.stream(), self.position())),
    {
        tok.same_shape_as(&self.cur_token)
    }

    pub fn peek_token_is(&self, tok: &Token) -> (r: bool)
        requires
            self.wf(),
        ensures
            r == same_shape(*tok, token_at(self.stream(), self.position() + 1)),
    {
        tok.same_shape_as(&self.peek_token)
    }

    /// Moves onto the next token if it has the shape of `expected`; otherwise
    /// stays and reports what was seen.
    pub fn expect_peek(&mut self, expected: &Token) -> (r: Result<(), ParserError>)
        requires
            old(self).wf(),
        ensures
            final(self).follows(old(self)),
            expect_peek_spec(old(self).stream(), old(self).position(), *expected) == (
            final(self).position(),
            r,
            ),
    {
        if self.peek_token_is(expected) {
            self.next_token();
            return Ok(());
        }
        Err(ParserError::ExpectedToken { expected: expected.copy(), saw: self.peek_token.copy() })
    }

    /// Moves onto the next token if it is an identifier, and returns its name.
    pub fn expect_ident(&mut self) -> (r: Result<Identifier, ParserError>)
        requires
            old(self).wf(),
        ensures
            final(self).follows(old(self)),
            match token_at(old(self).stream(), old(self).position() + 1) {
                Token::Ident(name) => r == Ok::<Identifier, ParserError>(Identifier(name))
                    && final(self).position() == advance(old(self).stream(), old(self).position()),
                t => r == Err::<Identifier, ParserError>(ParserError::ExpectedIdent(t))
                    && final(self).position() == old(self).position(),
            },
    {
        match &self.peek_token {
            Token::Ident(name) => {
                let ident = Identifier(name.clone());
                self.next_token();
                Ok(ident)
            },
            _ => Err(ParserError::ExpectedIdent(self.peek_token.copy())),
        }
    }

    pub fn cur_precedence(&self) -> (r: Precedence)
        requires
            self.wf(),
        ensures
            r == precedence_of(token_at(self.stream(), self.position())),
    {
        Precedence::for_token(&self.cur_token)
    }

    pub fn peek_precedence(&self) -> (r: Precedence)
        requires
            self.wf(),
        ensures
            r == precedence_of(token_at(self.stream(), self.position() + 1)),
    {
        Precedence::for_token(&self.peek_token)
    }

    /// The integer literal that `value_str` spells, or the diagnostic carrying it.
    pub fn parse_int_expression(&self, value_str: &String) -> (r: Result<Expression, ParserError>)
        ensures
            r == match int_value(value_str@) {
                Some(v) => Ok::<Expression, ParserError>(Expression::IntegerLiteral(v)),
                None => Err(ParserError::IntegerParseFailure(*value_str)),
            },
    {
        match parse_i64(value_str.as_str()) {
            Some(value) => Ok(Expression::IntegerLiteral(value)),
            None => Err(ParserError::IntegerParseFailure(value_str.clone())),
        }
    }

    pub fn parse_boolean_expression(&self, is_true: bool) -> (r: Result<Expression, ParserError>)
        ensures
            r == Ok::<Expression, ParserError>(Expression::Boolean(is_true)),
    {
        Ok(Expression::Boolean(is_true))
    }

    /// Parses statements until the end of the stream. A statement that fails is
    /// left out and its diagnostic recorded; the position then moves on once.
    pub fn parse_program(&mut self) -> (r: Option<Program>)
        requires
            old(self).wf(),
        ensures
            final(self).wf(),
            final(self).stream() == old(self).stream(),
            r is Some,
            program_spec(old(self).stream(), old(self).position(), Seq::empty(), old(self).diagnostics())
                == (r->0.model(), final(self).diagnostics()),
    {
        let mut program = Program::new();
        let ghost s = self.stream();
        assert(program.model() =~= Seq::<StmtModel>::empty());
        while !matches!(self.cur_token, Token::EOF)
            invariant
                self.wf(),
                self.stream() == s,
                program_spec(s, old(self).position(), Seq::empty(), old(self).diagnostics())
                    == program_spec(s, self.position(), program.model(), self.diagnostics()),
            decreases s.len() - self.position(),
        {
            let ghost k = self.position();
            let result = self.parse_statement();
            match result {
                Ok(stmt) => {
                    proof {
                        crate::ast::lemma_stmts_model_push(program.statements@, stmt);
                    }
                    program.statements.push(stmt);
                },
                Err(err) => self.errors.push(err),
            }
            self.next_token();
        }
        Some(program)
    }

    /// Parses the statement that starts at the current token.
    pub fn parse_statement(&mut self) -> (r: Result<Statement, ParserError>)
        requires
            old(self).wf(),
        ensures
            final(self).follows(old(self)),
            statement_spec(old(self).stream(), old(self).position()) == (final(self).position(), stmt_result(r)),
        decreases old(self).stream().len() - old(self).position(), 5int,
    {
        match self.cur_token {
            Token::Let => self.parse_let_statement(),
            Token::Return => self.parse_return_statement(),
            _ => self.parse_expression_statement(),
        }
    }

    pub fn parse_let_statement(&mut self) -> (r: Result<Statement, ParserError>)
        requires
            old(self).wf(),
        ensures
            final(self).follows(old(self)),
            let_statement_spec(old(self).stream(), old(self).position()) == (final(self).position(), stmt_result(r)),
        decreases old(self).stream().len() - old(self).position(), 4int,
    {
        let token = self.cur_token.copy();
        let name = match self.expect_ident() {
            Ok(name) => name,
            Err(e) => return Err(e),
        };
        match self.expect_peek(&Token::Assign) {
            Ok(()) => {},
            Err(e) => return Err(e),
        }
        self.next_token();
        let value = match self.parse_expression(Precedence::Lowest) {
            Ok(value) => value,
            Err(e) => return Err(e),
        };
        if self.peek_token_is(&Token::Semicolon) {
            self.next_token();
        }
        Ok(Statement::Let { token, name, value })
    }

    /// A `return` statement: its value is not parsed; the tokens up to the next
    /// `;`, or to the end of the stream, are skipped.
    pub fn parse_return_statement(&mut self) -> (r: Result<Statement, ParserError>)
        requires
            old(self).wf(),
        ensures
            final(self).follows(old(self)),
            return_statement_spec(old(self).stream(), old(self).position()) == (final(self).position(), stmt_result(r)),
    {
        let token = self.cur_token.copy();
        let stmt = Statement::Return { token, expr: Expression::Nothing };
        self.next_token();
        let ghost s = self.stream();
        while !self.current_token_is(&Token::Semicolon) && !self.current_token_is(&Token::EOF)
            invariant
                self.follows(old(self)),
                s == old(self).stream(),
                skip_to_semicolon(s, advance(s, old(self).position())) == skip_to_semicolon(s, self.position()),
            decreases s.len() - self.position(),
        {
            self.next_token();
        }
        Ok(stmt)
    }

    pub fn parse_expression_statement(&mut self) -> (r: Result<Statement, ParserError>)
        requires
            old(self).wf(),
        ensures
            final(self).follows(old(self)),
            expression_statement_spec(old(self).stream(), old(self).position()) == (final(self).position(), stmt_result(r)),
        decreases old(self).stream().len() - old(self).position(), 4int,
    {
        let token = self.cur_token.copy();
        let expr = match self.parse_expression(Precedence::Lowest) {
            Ok(expr) => expr,
            Err(e) => return Err(e),
        };
        let stmt = Statement::Expression { token, expr };
        if self.peek_token_is(&Token::Semicolon) {
            self.next_token();
        }
        Ok(stmt)
    }

    /// A unary operator applied to the operand that follows it.
    pub fn parse_prefix_expression(&mut self) -> (r: Result<Expression, ParserError>)
        requires
            old(self).wf(),
        ensures
            final(self).follows(old(self)),
            prefix_expression_spec(old(self).stream(), old(self).position()) == (final(self).position(), expr_result(r)),
        decreases old(self).stream().len() - old(self).position(), 1int,
    {
        let operator = self.cur_token.copy();
        if matches!(operator, Token::EOF) {
            return Err(ParserError::UnhandledPrefix(Token::EOF));
        }
        self.next_token();
        let right = match self.parse_expression(Precedence::Prefix) {
            Ok(right) => right,
            Err(e) => return Err(e),
        };
        Ok(Expression::Prefix { operator, right: Box::new(right) })
    }

    /// The binary operator at the current token, with `left` and the operand after it.
    pub fn parse_infix_expression(&mut self, left: Expression) -> (r: Result<Expression, ParserError>)
        requires
            old(self).wf(),
        ensures
            final(self).follows(old(self)),
            infix_expression_spec(old(self).stream(), old(self).position(), left.model()) == (final(self).position(), expr_result(r)),
        decreases old(self).stream().len() - old(self).position(), 0int,
    {
        let operator = self.cur_token.copy();
        let precedence = self.cur_precedence();
        if matches!(operator, Token::EOF) {
            return Err(ParserError::UnhandledPrefix(Token::EOF));
        }
        self.next_token();
        let right = match self.parse_expression(precedence) {
            Ok(right) => right,
            Err(e) => return Err(e),
        };
        Ok(Expression::Infix { operator, left: Box::new(left), right: Box::new(right) })
    }

    /// An expression in parentheses; a missing `)` is reported before any error
    /// inside.
    pub fn parse_grouped_expression(&mut self) -> (r: Result<Expression, ParserError>)
        requires
            old(self).wf(),
        ensures
            final(self).follows(old(self)),
            grouped_expression_spec(old(self).stream(), old(self).position()) == (final(self).position(), expr_result(r)),
        decreases old(self).stream().len() - old(self).position(), 1int,
    {
        let expr = if matches!(self.cur_token, Token::EOF) {
            Err(ParserError::UnhandledPrefix(Token::EOF))
        } else {
            self.next_token();
            self.parse_expression(Precedence::Lowest)
        };
        match self.expect_peek(&Token::RParen) {
            Ok(()) => expr,
            Err(e) => Err(e),
        }
    }

    /// A block: statements up to `}` or the end of the stream. The first
    /// statement that fails ends the block with its error.
    pub fn parse_block_statement(&mut self) -> (r: Result<BlockStatement, ParserError>)
        requires
            old(self).wf(),
        ensures
            final(self).follows(old(self)),
            block_statement_spec(old(self).stream(), old(self).position()) == (final(self).position(), block_result(r)),
        decreases old(self).stream().len() - old(self).position(), 0int,
    {
        let ghost s = self.stream();
        let ghost k0 = self.position();
        let mut block = BlockStatement::new(self.cur_token.copy());
        self.next_token();
        assert(stmts_model(block.statements@) =~= Seq::<StmtModel>::empty());
        while !self.current_token_is(&Token::RBrace) && !self.current_token_is(&Token::EOF)
            invariant
                self.follows(old(self)),
                s == old(self).stream(),
                k0 == old(self).position(),
                k0 < self.position() || self.position() == s.len(),
                k0 < s.len() ==> block_statement_spec(s, k0) == block_loop_spec(s, self.position(), block.token, stmts_model(block.statements@)),
                k0 >= s.len() ==> block.token == Token::EOF && block.statements@.len() == 0,
            decreases s.len() - self.position(),
        {
            let stmt = match self.parse_statement() {
                Ok(stmt) => stmt,
                Err(e) => return Err(e),
            };
            proof {
                crate::ast::lemma_stmts_model_push(block.statements@, stmt);
            }
            block.statements.push(stmt);
            self.next_token();
        }
        Ok(block)
    }

    /// `if (<condition>) { ... }`, optionally followed by `else { ... }`.
    pub fn parse_if_expression(&mut self) -> (r: Result<Expression, ParserError>)
        requires
            old(self).wf(),
        ensures
            final(self).follows(old(self)),
            if_expression_spec(old(self).stream(), old(self).position()) == (final(self).position(), expr_result(r)),
        decreases old(self).stream().len() - old(self).position(), 1int,
    {
        match self.expect_peek(&Token::LParen) {
            Ok(()) => {},
            Err(e) => return Err(e),
        }
        let condition = match self.parse_expression(Precedence::Lowest) {
            Ok(c) => c,
            Err(e) => return Err(e),
        };
        match self.expect_peek(&Token::LBrace) {
            Ok(()) => {},
            Err(e) => return Err(e),
        }
        let consequence = match self.parse_block_statement() {
            Ok(b) => b,
            Err(e) => return Err(e),
        };
        let alternative = match &self.peek_token {
            Token::Else => {
                self.next_token();
                match self.expect_peek(&Token::LBrace) {
                    Ok(()) => {},
                    Err(e) => return Err(e),
                }
                match self.parse_block_statement() {
                    Ok(b) => Some(b),
                    Err(e) => return Err(e),
                }
            },
            _ => None,
        };
        Ok(Expression::If { condition: Box::new(condition), consequence, alternative })
    }

    /// Parses an expression from the current token, absorbing the binary
    /// operators that bind strictly tighter than `precedence`. Operators of equal
    /// strength are left to the caller, which makes chains left-associative.
    pub fn parse_expression(&mut self, precedence: Precedence) -> (r: Result<Expression, ParserError>)
        requires
            old(self).wf(),
        ensures
            final(self).follows(old(self)),
            expression_spec(old(self).stream(), old(self).position(), precedence) == (final(self).position(), expr_result(r)),
        decreases old(self).stream().len() - old(self).position(), 3int,
    {
        let ghost s = self.stream();
        let ghost k0 = self.position();
        let first = match &self.cur_token {
            Token::Ident(name) => Ok(Expression::Identifier(Identifier(name.clone()))),
            Token::Int(value_str) => self.parse_int_expression(value_str),
            Token::Bang => self.parse_prefix_expression(),
            Token::Minus => self.parse_prefix_expression(),
            Token::Plus => self.parse_prefix_expression(),
            Token::True => self.parse_boolean_expression(true),
            Token::False => self.parse_boolean_expression(false),
            Token::LParen => self.parse_grouped_expression(),
            Token::If => self.parse_if_expression(),
            _ => Err(ParserError::UnhandledPrefix(self.cur_token.copy())),
        };
        let mut left = match first {
            Ok(e) => e,
            Err(e) => return Err(e),
        };
        while !self.peek_token_is(&Token::Semicolon) && precedence.is_below(self.peek_precedence())
            invariant
                self.follows(old(self)),
                s == old(self).stream(),
                k0 == old(self).position(),
                expression_spec(s, k0, precedence) == infix_loop_spec(s, self.position(), precedence, left.model()),
            decreases s.len() - self.position(),
        {
            match &self.peek_token {
                Token::Plus | Token::Minus | Token::Asterisk | Token::Slash | Token::Gt | Token::Lt
                | Token::Eq | Token::NotEq => {
                    self.next_token();
                    left = match self.parse_infix_expression(left) {
                        Ok(e) => e,
                        Err(e) => return Err(e),
                    };
                },
                _ => return Ok(left),
            }
        }
        Ok(left)
    }
}

/// Whether an expression can begin with `t`.
pub open spec fn starts_expression(t: Token) -> bool {
    match t {
        Token::Ident(_) | Token::Int(_) | Token::Bang | Token::Minus | Token::Plus | Token::True
        | Token::False | Token::LParen | Token::If => true,
        _ => false,
    }
}

/// A statement that begins with a token that no expression can begin with (and
/// that is not `let` or `return`) fails at once with `UnhandledPrefix` for that
/// token, without moving; in a program it adds that diagnostic and no statement,
/// and parsing goes on from the next token.
pub proof fn lemma_unhandled_prefix(s: Seq<Token>, k: int, stmts: Seq<StmtModel>, errs: Seq<ParserError>)
    requires
        0 <= k,
        token_at(s, k) != Token::EOF,
        token_at(s, k) != Token::Let,
        token_at(s, k) != Token::Return,
        !starts_expression(token_at(s, k)),
    ensures
        statement_spec(s, k) == (k, Err::<StmtModel, ParserError>(ParserError::UnhandledPrefix(token_at(s, k)))),
        program_spec(s, k, stmts, errs) == program_spec(
            s,
            k + 1,
            stmts,
            errs.push(ParserError::UnhandledPrefix(token_at(s, k))),
        ),
{
    assert(k < s.len());
}

/// At the end of the stream a program gains no statement and no diagnostic; in
/// particular an empty stream gives an empty program and no diagnostics.
pub proof fn lemma_end_of_input(s: Seq<Token>, k: int, stmts: Seq<StmtModel>, errs: Seq<ParserError>)
    requires
        k >= s.len(),
    ensures
        program_spec(s, k, stmts, errs) == (stmts, errs),
        s.len() == 0 ==> program_spec(s, 0, Seq::empty(), Seq::empty()) == (
            Seq::<StmtModel>::empty(),
            Seq::<ParserError>::empty(),
        ),
{
}

/// The expression of an identifier token.
pub open spec fn ident_expr(t: Token) -> ExprModel {
    ExprModel::Identifier(Identifier(t->Ident_0))
}

/// `x op1 y op2 z`, three identifiers and two binary operators: when `op2` binds
/// no tighter than `op1` the first operation becomes the left operand of the
/// second (so chains of one level associate to the left); when `op2` binds
/// tighter, the second operation becomes the right operand of the first.
pub proof fn lemma_two_operators(s: Seq<Token>)
    requires
        s.len() == 5,
        s[0] is Ident,
        s[2] is Ident,
        s[4] is Ident,
        is_binary_operator(s[1]),
        is_binary_operator(s[3]),
    ensures
        precedence_of(s[3]).rank() <= precedence_of(s[1]).rank() ==> expression_spec(
            s,
            0,
            Precedence::Lowest,
        ) == (4int, Ok::<ExprModel, ParserError>(ExprModel::Infix {
            operator: s[3],
            left: Box::new(ExprModel::Infix {
                operator: s[1],
                left: Box::new(ident_expr(s[0])),
                right: Box::new(ident_expr(s[2])),
            }),
            right: Box::new(ident_expr(s[4])),
        })),
        precedence_of(s[3]).rank() > precedence_of(s[1]).rank() ==> expression_spec(
            s,
            0,
            Precedence::Lowest,
        ) == (4int, Ok::<ExprModel, ParserError>(ExprModel::Infix {
            operator: s[1],
            left: Box::new(ident_expr(s[0])),
            right: Box::new(ExprModel::Infix {
                operator: s[3],
                left: Box::new(ident_expr(s[2])),
                right: Box::new(ident_expr(s[4])),
            }),
        })),
{
    let a = ident_expr(s[0]);
    let b = ident_expr(s[2]);
    let c = ident_expr(s[4]);
    let p1 = precedence_of(s[1]);
    let p3 = precedence_of(s[3]);
    assert(token_at(s, 5) == Token::EOF);
    assert(prefix_spec(s, 0) == (0int, Ok::<ExprModel, ParserError>(a)));
    assert(prefix_spec(s, 2) == (2int, Ok::<ExprModel, ParserError>(b)));
    assert(prefix_spec(s, 4) == (4int, Ok::<ExprModel, ParserError>(c)));
    assert(infix_loop_spec(s, 4, p3, c) == (4int, Ok::<ExprModel, ParserError>(c)));
    assert(expression_spec(s, 4, p3) == (4int, Ok::<ExprModel, ParserError>(c)));
    let bc = ExprModel::Infix { operator: s[3], left: Box::new(b), right: Box::new(c) };
    assert(infix_expression_spec(s, 3, b) == (4int, Ok::<ExprModel, ParserError>(bc)));
    if p3.rank() <= p1.rank() {
        assert(infix_loop_spec(s, 2, p1, b) == (2int, Ok::<ExprModel, ParserError>(b)));
        assert(expression_spec(s, 2, p1) == (2int, Ok::<ExprModel, ParserError>(b)));
        let ab = ExprModel::Infix { operator: s[1], left: Box::new(a), right: Box::new(b) };
        assert(infix_expression_spec(s, 1, a) == (2int, Ok::<ExprModel, ParserError>(ab)));
        let abc = ExprModel::Infix { operator: s[3], left: Box::new(ab), right: Box::new(c) };
        assert(infix_expression_spec(s, 3, ab) == (4int, Ok::<ExprModel, ParserError>(abc)));
        assert(infix_loop_spec(s, 4, Precedence::Lowest, abc) == (4int, Ok::<ExprModel, ParserError>(abc)));
        assert(infix_loop_spec(s, 2, Precedence::Lowest, ab) == (4int, Ok::<ExprModel, ParserError>(abc)));
        assert(infix_loop_spec(s, 0, Precedence::Lowest, a) == (4int, Ok::<ExprModel, ParserError>(abc)));
    } else {
        assert(infix_loop_spec(s, 4, p1, bc) == (4int, Ok::<ExprModel, ParserError>(bc)));
        assert(infix_loop_spec(s, 2, p1, b) == (4int, Ok::<ExprModel, ParserError>(bc)));
        assert(expression_spec(s, 2, p1) == (4int, Ok::<ExprModel, ParserError>(bc)));
        let abc = ExprModel::Infix { operator: s[1], left: Box::new(a), right: Box::new(bc) };
        assert(infix_expression_spec(s, 1, a) == (4int, Ok::<ExprModel, ParserError>(abc)));
        assert(infix_loop_spec(s, 4, Precedence::Lowest, abc) == (4int, Ok::<ExprModel, ParserError>(abc)));
        assert(infix_loop_spec(s, 0, Precedence::Lowest, a) == (4int, Ok::<ExprModel, ParserError>(abc)));
    }
}

/// `( x op1 y ) op2 z`: the parenthesised operation is the left operand of
/// `op2`, whichever of the two operators binds tighter.
pub proof fn lemma_group_binds_first(s: Seq<Token>)
    requires
        s.len() == 7,
        s[0] == Token::LParen,
        s[1] is Ident,
        s[3] is Ident,
        s[4] == Token::RParen,
        s[6] is Ident,
        is_binary_operator(s[2]),
        is_binary_operator(s[5]),
    ensures
        expression_spec(s, 0, Precedence::Lowest) == (6int, Ok::<ExprModel, ParserError>(
            ExprModel::Infix {
                operator: s[5],
                left: Box::new(ExprModel::Infix {
                    operator: s[2],
                    left: Box::new(ident_expr(s[1])),
                    right: Box::new(ident_expr(s[3])),
                }),
                right: Box::new(ident_expr(s[6])),
            },
        )),
{
    let x = ident_expr(s[1]);
    let y = ident_expr(s[3]);
    let z = ident_expr(s[6]);
    let p1 = precedence_of(s[2]);
    let p2 = precedence_of(s[5]);
    assert(token_at(s, 7) == Token::EOF);
    assert(prefix_spec(s, 1) == (1int, Ok::<ExprModel, ParserError>(x)));
    assert(prefix_spec(s, 3) == (3int, Ok::<ExprModel, ParserError>(y)));
    assert(prefix_spec(s, 6) == (6int, Ok::<ExprModel, ParserError>(z)));
    assert(infix_loop_spec(s, 3, p1, y) == (3int, Ok::<ExprModel, ParserError>(y)));
    assert(expression_spec(s, 3, p1) == (3int, Ok::<ExprModel, ParserError>(y)));
    let xy = ExprModel::Infix { operator: s[2], left: Box::new(x), right: Box::new(y) };
    assert(infix_expression_spec(s, 2, x) == (3int, Ok::<ExprModel, ParserError>(xy)));
    assert(infix_loop_spec(s, 3, Precedence::Lowest, xy) == (3int, Ok::<ExprModel, ParserError>(xy)));
    assert(infix_loop_spec(s, 1, Precedence::Lowest, x) == (3int, Ok::<ExprModel, ParserError>(xy)));
    assert(expression_spec(s, 1, Precedence::Lowest) == (3int, Ok::<ExprModel, ParserError>(xy)));
    assert(expect_peek_spec(s, 3, Token::RParen) == (4int, Ok::<(), ParserError>(())));
    assert(prefix_spec(s, 0) == (4int, Ok::<ExprModel, ParserError>(xy)));
    assert(infix_loop_spec(s, 6, p2, z) == (6int, Ok::<ExprModel, ParserError>(z)));
    assert(expression_spec(s, 6, p2) == (6int, Ok::<ExprModel, ParserError>(z)));
    let xyz = ExprModel::Infix { operator: s[5], left: Box::new(xy), right: Box::new(z) };
    assert(infix_expression_spec(s, 5, xy) == (6int, Ok::<ExprModel, ParserError>(xyz)));
    assert(infix_loop_spec(s, 6, Precedence::Lowest, xyz) == (6int, Ok::<ExprModel, ParserError>(xyz)));
    assert(infix_loop_spec(s, 4, Precedence::Lowest, xy) == (6int, Ok::<ExprModel, ParserError>(xyz)));
}

} // verus!
