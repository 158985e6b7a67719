use vstd::prelude::*;

use crate::ast::{
    lemma_stmts_model_push, stmts_model, BlockModel, BlockStatement, ExprModel, Expression, Program,
    Statement, StmtModel,
};
use crate::lexer::{chars_of, string_of};
use crate::parser::ParserError;
use crate::token::Token;

verus! {

/// The source text of a token.
pub open spec fn token_text(t: Token) -> Seq<char> {
    match t {
        Token::Illegal => "ILLEGAL"@,
        Token::EOF => Seq::empty(),
        Token::Ident(n) => n@,
        Token::Int(n) => n@,
        Token::Assign => "="@,
        Token::Plus => "+"@,
        Token::Minus => "-"@,
        Token::Bang => "!"@,
        Token::Asterisk => "*"@,
        Token::Slash => "/"@,
        Token::Lt => "<"@,
        Token::Gt => ">"@,
        Token::Eq => "=="@,
        Token::NotEq => "!="@,
        Token::Comma => ","@,
        Token::Semicolon => ";"@,
        Token::LParen => "("@,
        Token::RParen => ")"@,
        Token::LBrace => "{"@,
        Token::RBrace => "}"@,
        Token::Function => "fn"@,
        Token::Let => "let"@,
        Token::True => "true"@,
        Token::False => "false"@,
        Token::If => "if"@,
        Token::Else => "else"@,
        Token::Return => "return"@,
    }
}

pub open spec fn digit_char(d: int) -> char {
    if d == 0 {
        '0'
    } else if d == 1 {
        '1'
    } else if d == 2 {
        '2'
    } else if d == 3 {
        '3'
    } else if d == 4 {
        '4'
    } else if d == 5 {
        '5'
    } else if d == 6 {
        '6'
    } else if d == 7 {
        '7'
    } else if d == 8 {
        '8'
    } else {
        '9'
    }
}

/// The decimal digits of `n`, without leading zeros.
pub open spec fn nat_text(n: nat) -> Seq<char>
    decreases n,
{
    if n < 10 {
        seq![digit_char(n as int)]
    } else {
        nat_text(n / 10).push(digit_char((n % 10) as int))
    }
}

/// An integer in decimal, with `-` before a negative one.
pub open spec fn int_text(v: i64) -> Seq<char> {
    if v < 0 {
        "-"@ + nat_text((-v) as nat)
    } else {
        nat_text(v as nat)
    }
}

/// The canonical text of an expression: every unary and binary operation in
/// parentheses.
pub open spec fn expr_text(e: ExprModel) -> Seq<char>
    decreases e,
{
    match e {
        ExprModel::Identifier(i) => i.0@,
        ExprModel::IntegerLiteral(v) => int_text(v),
        ExprModel::Boolean(b) => if b {
            "true"@
        } else {
            "false"@
        },
        ExprModel::Prefix { operator, right } => "("@ + token_text(operator) + expr_text(*right)
            + ")"@,
        ExprModel::Infix { operator, left, right } => "("@ + expr_text(*left) + " "@ + token_text(
            operator,
        ) + " "@ + expr_text(*right) + ")"@,
        ExprModel::If { condition, consequence, alternative } => "if "@ + expr_text(*condition)
            + " "@ + block_text(consequence) + match alternative {
            Some(b) => " else "@ + block_text(b),
            None => Seq::empty(),
        },
        ExprModel::Nothing => Seq::empty(),
    }
}

/// A block: `{ `, each statement followed by a space, `}`.
pub open spec fn block_text(b: BlockModel) -> Seq<char>
    decreases b,
{
    "{ "@ + stmts_text(b.statements, " "@) + "}"@
}

/// Each statement followed by `sep`.
pub open spec fn stmts_text(ss: Seq<StmtModel>, sep: Seq<char>) -> Seq<char>
    decreases ss,
{
    if ss.len() == 0 {
        Seq::empty()
    } else {
        stmts_text(ss.drop_last(), sep) + stmt_text(ss.last()) + sep
    }
}

pub open spec fn stmt_text(st: StmtModel) -> Seq<char>
    decreases st,
{
    match st {
        StmtModel::Let { token, name, value } => "let "@ + name.0@ + " = "@ + expr_text(value)
            + ";"@,
        StmtModel::Return { token, expr } => "return "@ + expr_text(expr) + ";"@,
        StmtModel::Expression { token, expr } => expr_text(expr),
    }
}

/// A program: each statement on a line of its own.
pub open spec fn program_text(ss: Seq<StmtModel>) -> Seq<char> {
    stmts_text(ss, "\n"@)
}

fn push_str(out: &mut Vec<char>, s: &str)
    ensures
        final(out)@ == old(out)@ + s@,
{
    let cs = chars_of(s);
    let mut i: usize = 0;
    while i < cs.len()
        invariant
            i <= cs.len(),
            cs@ == s@,
            out@ == old(out)@ + cs@.subrange(0, i as int),
        decreases cs.len() - i,
    {
        out.push(cs[i]);
        i = i + 1;
        assert(out@ =~= old(out)@ + cs@.subrange(0, i as int));
    }
    assert(cs@.subrange(0, i as int) =~= cs@);
}

fn digit(d: u64) -> (r: char)
    requires
        d < 10,
    ensures
        r == digit_char(d as int),
{
    if d == 0 {
        '0'
    } else if d == 1 {
        '1'
    } else if d == 2 {
        '2'
    } else if d == 3 {
        '3'
    } else if d == 4 {
        '4'
    } else if d == 5 {
        '5'
    } else if d == 6 {
        '6'
    } else if d == 7 {
        '7'
    } else if d == 8 {
        '8'
    } else {
        '9'
    }
}

fn push_nat(out: &mut Vec<char>, n: u64)
    ensures
        final(out)@ == old(out)@ + nat_text(n as nat),
    decreases n,
{
    if n >= 10 {
        push_nat(out, n / 10);
    }
    out.push(digit(n % 10));
    assert(final(out)@ =~= old(out)@ + nat_text(n as nat));
}

fn push_int(out: &mut Vec<char>, v: i64)
    ensures
        final(out)@ == old(out)@ + int_text(v),
{
    if v < 0 {
        push_str(out, "-");
        push_nat(out, (-(v as i128)) as u64);
    } else {
        push_nat(out, v as u64);
    }
    assert(final(out)@ =~= old(out)@ + int_text(v));
}

fn push_token(out: &mut Vec<char>, t: &Token)
    ensures
        final(out)@ == old(out)@ + token_text(*t),
{
    match t {
        Token::Illegal => push_str(out, "ILLEGAL"),
        Token::EOF => {},
        Token::Ident(n) => push_str(out, n.as_str()),
        Token::Int(n) => push_str(out, n.as_str()),
        Token::Assign => push_str(out, "="),
        Token::Plus => push_str(out, "+"),
        Token::Minus => push_str(out, "-"),
        Token::Bang => push_str(out, "!"),
        Token::Asterisk => push_str(out, "*"),
        Token::Slash => push_str(out, "/"),
        Token::Lt => push_str(out, "<"),
        Token::Gt => push_str(out, ">"),
        Token::Eq => push_str(out, "=="),
        Token::NotEq => push_str(out, "!="),
        Token::Comma => push_str(out, ","),
        Token::Semicolon => push_str(out, ";"),
        Token::LParen => push_str(out, "("),
        Token::RParen => push_str(out, ")"),
        Token::LBrace => push_str(out, "{"),
        Token::RBrace => push_str(out, "}"),
        Token::Function => push_str(out, "fn"),
        Token::Let => push_str(out, "let"),
        Token::True => push_str(out, "true"),
        Token::False => push_str(out, "false"),
        Token::If => push_str(out, "if"),
        Token::Else => push_str(out, "else"),
        Token::Return => push_str(out, "return"),
    }
}

impl Expression {
    /// Appends the canonical text of the expression.
    pub fn write_to(&self, out: &mut Vec<char>)
        ensures
            final(out)@ == old(out)@ + expr_text(self.model()),
        decreases self,
    {
        match self {
            Expression::Identifier(i) => push_str(out, i.0.as_str()),
            Expression::IntegerLiteral(v) => push_int(out, *v),
            Expression::Boolean(b) => if *b {
                push_str(out, "true")
            } else {
                push_str(out, "false")
            },
            Expression::Prefix { operator, right } => {
                push_str(out, "(");
                push_token(out, operator);
                right.write_to(out);
                push_str(out, ")");
            },
            Expression::Infix { operator, left, right } => {
                push_str(out, "(");
                left.write_to(out);
                push_str(out, " ");
                push_token(out, operator);
                push_str(out, " ");
                right.write_to(out);
                push_str(out, ")");
            },
            Expression::If { condition, consequence, alternative } => {
                push_str(out, "if ");
                condition.write_to(out);
                push_str(out, " ");
                consequence.write_to(out);
                let ghost mid = out@;
                match alternative {
                    Some(b) => {
                        push_str(out, " else ");
                        b.write_to(out);
                        assert(out@ =~= mid + (" else "@ + block_text(b.model())));
                    },
                    None => {
                        assert(out@ =~= mid + Seq::<char>::empty());
                    },
                }
            },
            Expression::Nothing => {},
        }
        assert(final(out)@ =~= old(out)@ + expr_text(self.model()));
    }

    /// The canonical text of the expression.
    pub fn render(&self) -> (r: String)
        ensures
            r@ == expr_text(self.model()),
    {
        let mut out: Vec<char> = Vec::new();
        self.write_to(&mut out);
        assert(out@ =~= expr_text(self.model()));
        string_of(&out)
    }
}

/// Appends each statement of `ss` followed by `sep`.
fn write_statements(ss: &Vec<Statement>, sep: &str, out: &mut Vec<char>)
    ensures
        final(out)@ == old(out)@ + stmts_text(stmts_model(ss@), sep@),
    decreases ss, 0int,
{
    let mut i: usize = 0;
    assert(ss@.subrange(0, 0) =~= Seq::<Statement>::empty());
    while i < ss.len()
        invariant
            i <= ss.len(),
            out@ == old(out)@ + stmts_text(stmts_model(ss@.subrange(0, i as int)), sep@),
        decreases ss.len() - i,
    {
        proof {
            assert(decreases_to!(ss => ss@[i as int]));
        }
        ss[i].write_to(out);
        push_str(out, sep);
        proof {
            assert(ss@.subrange(0, i as int).push(ss@[i as int]) =~= ss@.subrange(0, i + 1));
            lemma_stmts_model_push(ss@.subrange(0, i as int), ss@[i as int]);
            let m = stmts_model(ss@.subrange(0, i + 1));
            assert(m.drop_last() =~= stmts_model(ss@.subrange(0, i as int)));
        }
        i = i + 1;
        assert(out@ =~= old(out)@ + stmts_text(stmts_model(ss@.subrange(0, i as int)), sep@));
    }
    assert(ss@.subrange(0, i as int) =~= ss@);
}

impl BlockStatement {
    /// Appends the text of the block.
    pub fn write_to(&self, out: &mut Vec<char>)
        ensures
            final(out)@ == old(out)@ + block_text(self.model()),
        decreases self,
    {
        push_str(out, "{ ");
        write_statements(&self.statements, " ", out);
        push_str(out, "}");
        assert(final(out)@ =~= old(out)@ + block_text(self.model()));
    }
}

impl Statement {
    /// Appends the text of the statement.
    pub fn write_to(&self, out: &mut Vec<char>)
        ensures
            final(out)@ == old(out)@ + stmt_text(self.model()),
        decreases self,
    {
        match self {
            Statement::Let { name, value, .. } => {
                push_str(out, "let ");
                push_str(out, name.0.as_str());
                push_str(out, " = ");
                value.write_to(out);
                push_str(out, ";");
            },
            Statement::Return { expr, .. } => {
                push_str(out, "return ");
                expr.write_to(out);
                push_str(out, ";");
            },
            Statement::Expression { expr, .. } => expr.write_to(out),
        }
        assert(final(out)@ =~= old(out)@ + stmt_text(self.model()));
    }

    /// The text of the statement.
    pub fn render(&self) -> (r: String)
        ensures
            r@ == stmt_text(self.model()),
    {
        let mut out: Vec<char> = Vec::new();
        self.write_to(&mut out);
        assert(out@ =~= stmt_text(self.model()));
        string_of(&out)
    }
}

impl Program {
    /// The text of the program: each statement on a line of its own.
    pub fn render(&self) -> (r: String)
        ensures
            r@ == program_text(self.model()),
    {
        let mut out: Vec<char> = Vec::new();
        write_statements(&self.statements, "\n", &mut out);
        assert(out@ =~= program_text(self.model()));
        string_of(&out)
    }
}

pub open spec fn hex_digit(d: int) -> char {
    if d < 10 {
        digit_char(d)
    } else if d == 10 {
        'a'
    } else if d == 11 {
        'b'
    } else if d == 12 {
        'c'
    } else if d == 13 {
        'd'
    } else if d == 14 {
        'e'
    } else {
        'f'
    }
}

/// The lower-case hexadecimal digits of `n`, without leading zeros.
pub open spec fn hex_text(n: nat) -> Seq<char>
    decreases n,
{
    if n < 16 {
        seq![hex_digit(n as int)]
    } else {
        hex_text(n / 16).push(hex_digit((n % 16) as int))
    }
}

/// Whether `c` is a control character (C0, DEL or C1).
pub open spec fn is_control(c: char) -> bool {
    (c as int) < 0x20 || (0x7f <= (c as int) && (c as int) <= 0x9f)
}

/// How a character of quoted text is written: a quote, a backslash and the
/// control characters are escaped as Rust's `Debug` writes them; any other
/// character stands as it is (`Debug` also escapes some non-printing Unicode
/// characters beyond the control range, such as combining marks; those are not
/// escaped here).
pub open spec fn escape_char(c: char) -> Seq<char> {
    if c == '"' {
        "\\\""@
    } else if c == '\\' {
        "\\\\"@
    } else if c == '\t' {
        "\\t"@
    } else if c == '\r' {
        "\\r"@
    } else if c == '\n' {
        "\\n"@
    } else if c == '\0' {
        "\\0"@
    } else if is_control(c) {
        "\\u{"@ + hex_text(c as nat) + "}"@
    } else {
        seq![c]
    }
}

/// Each character of `t` escaped with `escape_char`.
pub open spec fn escaped(t: Seq<char>) -> Seq<char>
    decreases t.len(),
{
    if t.len() == 0 {
        Seq::empty()
    } else {
        escaped(t.drop_last()) + escape_char(t.last())
    }
}

/// How a token is written in a diagnostic: its tag's name, and for identifiers
/// and integer literals the text, escaped, in quotes after it.
pub open spec fn token_debug_text(t: Token) -> Seq<char> {
    match t {
        Token::Illegal => "Illegal"@,
        Token::EOF => "EOF"@,
        Token::Ident(n) => "Ident(\""@ + escaped(n@) + "\")"@,
        Token::Int(n) => "Int(\""@ + escaped(n@) + "\")"@,
        Token::Assign => "Assign"@,
        Token::Plus => "Plus"@,
        Token::Minus => "Minus"@,
        Token::Bang => "Bang"@,
        Token::Asterisk => "Asterisk"@,
        Token::Slash => "Slash"@,
        Token::Lt => "Lt"@,
        Token::Gt => "Gt"@,
        Token::Eq => "Eq"@,
        Token::NotEq => "NotEq"@,
        Token::Comma => "Comma"@,
        Token::Semicolon => "Semicolon"@,
        Token::LParen => "LParen"@,
        Token::RParen => "RParen"@,
        Token::LBrace => "LBrace"@,
        Token::RBrace => "RBrace"@,
        Token::Function => "Function"@,
        Token::Let => "Let"@,
        Token::True => "True"@,
        Token::False => "False"@,
        Token::If => "If"@,
        Token::Else => "Else"@,
        Token::Return => "Return"@,
    }
}

/// The human-readable text of a diagnostic.
pub open spec fn error_text(e: ParserError) -> Seq<char> {
    match e {
        ParserError::ExpectedToken { expected, saw } => "Expected next token to be "@
            + token_debug_text(expected) + ", got "@ + token_debug_text(saw) + " instead"@,
        ParserError::ExpectedIdent(saw) => "Expected next token to be Ident, got "@
            + token_debug_text(saw) + " instead"@,
        ParserError::IntegerParseFailure(text) => "Could not parse "@ + text@ + " as integer"@,
        ParserError::UnhandledPrefix(t) => "No prefix parse function for "@ + token_debug_text(t),
        ParserError::UnhandledExpression(t) => "No handler for expression: "@ + token_debug_text(
            t,
        ),
    }
}

fn hex(d: u64) -> (r: char)
    requires
        d < 16,
    ensures
        r == hex_digit(d as int),
{
    if d < 10 {
        digit(d)
    } else if d == 10 {
        'a'
    } else if d == 11 {
        'b'
    } else if d == 12 {
        'c'
    } else if d == 13 {
        'd'
    } else if d == 14 {
        'e'
    } else {
        'f'
    }
}

fn push_hex(out: &mut Vec<char>, n: u64)
    ensures
        final(out)@ == old(out)@ + hex_text(n as nat),
    decreases n,
{
    if n >= 16 {
        push_hex(out, n / 16);
    }
    out.push(hex(n % 16));
    assert(final(out)@ =~= old(out)@ + hex_text(n as nat));
}

fn push_escape_char(out: &mut Vec<char>, c: char)
    ensures
        final(out)@ == old(out)@ + escape_char(c),
{
    let code = c as u32;
    if c == '"' {
        push_str(out, "\\\"");
    } else if c == '\\' {
        push_str(out, "\\\\");
    } else if c == '\t' {
        push_str(out, "\\t");
    } else if c == '\r' {
        push_str(out, "\\r");
    } else if c == '\n' {
        push_str(out, "\\n");
    } else if c == '\0' {
        push_str(out, "\\0");
    } else if code < 0x20 || (0x7f <= code && code <= 0x9f) {
        push_str(out, "\\u{");
        push_hex(out, code as u64);
        push_str(out, "}");
    } else {
        out.push(c);
        assert(final(out)@ =~= old(out)@ + seq![c]);
    }
}

fn push_escaped(out: &mut Vec<char>, t: &str)
    ensures
        final(out)@ == old(out)@ + escaped(t@),
{
    let cs = chars_of(t);
    let mut i: usize = 0;
    assert(escaped(cs@.subrange(0, 0)) =~= Seq::<char>::empty());
    while i < cs.len()
        invariant
            i <= cs.len(),
            cs@ == t@,
            out@ == old(out)@ + escaped(cs@.subrange(0, i as int)),
        decreases cs.len() - i,
    {
        push_escape_char(out, cs[i]);
        assert(cs@.subrange(0, i + 1).drop_last() =~= cs@.subrange(0, i as int));
        i = i + 1;
        assert(out@ =~= old(out)@ + escaped(cs@.subrange(0, i as int)));
    }
    assert(cs@.subrange(0, i as int) =~= cs@);
}

fn push_token_debug(out: &mut Vec<char>, t: &Token)
    ensures
        final(out)@ == old(out)@ + token_debug_text(*t),
{
    match t {
        Token::Ident(n) => {
            push_str(out, "Ident(\"");
            push_escaped(out, n.as_str());
            push_str(out, "\")");
        },
        Token::Int(n) => {
            push_str(out, "Int(\"");
            push_escaped(out, n.as_str());
            push_str(out, "\")");
        },
        Token::Illegal => push_str(out, "Illegal"),
        Token::EOF => push_str(out, "EOF"),
        Token::Assign => push_str(out, "Assign"),
        Token::Plus => push_str(out, "Plus"),
        Token::Minus => push_str(out, "Minus"),
        Token::Bang => push_str(out, "Bang"),
        Token::Asterisk => push_str(out, "Asterisk"),
        Token::Slash => push_str(out, "Slash"),
        Token::Lt => push_str(out, "Lt"),
        Token::Gt => push_str(out, "Gt"),
        Token::Eq => push_str(out, "Eq"),
        Token::NotEq => push_str(out, "NotEq"),
        Token::Comma => push_str(out, "Comma"),
        Token::Semicolon => push_str(out, "Semicolon"),
        Token::LParen => push_str(out, "LParen"),
        Token::RParen => push_str(out, "RParen"),
        Token::LBrace => push_str(out, "LBrace"),
        Token::RBrace => push_str(out, "RBrace"),
        Token::Function => push_str(out, "Function"),
        Token::Let => push_str(out, "Let"),
        Token::True => push_str(out, "True"),
        Token::False => push_str(out, "False"),
        Token::If => push_str(out, "If"),
        Token::Else => push_str(out, "Else"),
        Token::Return => push_str(out, "Return"),
    }
    assert(final(out)@ =~= old(out)@ + token_debug_text(*t));
}

impl ParserError {
    /// The human-readable text of the diagnostic.
    pub fn message(&self) -> (r: String)
        ensures
            r@ == error_text(*self),
    {
        let mut out: Vec<char> = Vec::new();
        match self {
            ParserError::ExpectedToken { expected, saw } => {
                push_str(&mut out, "Expected next token to be ");
                push_token_debug(&mut out, expected);
                push_str(&mut out, ", got ");
                push_token_debug(&mut out, saw);
                push_str(&mut out, " instead");
            },
            ParserError::ExpectedIdent(saw) => {
                push_str(&mut out, "Expected next token to be Ident, got ");
                push_token_debug(&mut out, saw);
                push_str(&mut out, " instead");
            },
            ParserError::IntegerParseFailure(text) => {
                push_str(&mut out, "Could not parse ");
                push_str(&mut out, text.as_str());
                push_str(&mut out, " as integer");
            },
            ParserError::UnhandledPrefix(t) => {
                push_str(&mut out, "No prefix parse function for ");
                push_token_debug(&mut out, t);
            },
            ParserError::UnhandledExpression(t) => {
                push_str(&mut out, "No handler for expression: ");
                push_token_debug(&mut out, t);
            },
        }
        assert(out@ =~= error_text(*self));
        string_of(&out)
    }
}

} // verus!
