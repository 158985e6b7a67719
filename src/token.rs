use vstd::prelude::*;

verus! {

/// A lexical unit of the language. `Ident` and `Int` carry their source text.
#[derive(Debug, Clone, PartialEq, Eq)]
pub enum Token {
    Illegal,
    EOF,
    Ident(String),
    Int(String),
    Assign,
    Plus,
    Minus,
    Bang,
    Asterisk,
    Slash,
    Lt,
    Gt,
    Eq,
    NotEq,
    Comma,
    Semicolon,
    LParen,
    RParen,
    LBrace,
    RBrace,
    Function,
    Let,
    True,
    False,
    If,
    Else,
    Return,
}

/// Two tokens have the same shape when their tags agree; identifiers match any
/// identifier and integer literals any integer literal, whatever their text.
pub open spec fn same_shape(a: Token, b: Token) -> bool {
    match (a, b) {
        (Token::Ident(_), Token::Ident(_)) => true,
        (Token::Int(_), Token::Int(_)) => true,
        _ => a == b,
    }
}

/// The token at position `i` of a stream; past its end the stream yields `EOF`.
pub open spec fn token_at(s: Seq<Token>, i: int) -> Token {
    if 0 <= i < s.len() {
        s[i]
    } else {
        Token::EOF
    }
}

/// A token as its tag (see `Token::tag`) and the text it carries; the text is
/// empty for every tag but `Ident` and `Int`.
pub open spec fn shape_of(t: Token) -> (u8, Seq<char>) {
    match t {
        Token::Ident(n) => (t.spec_tag(), n@),
        Token::Int(n) => (t.spec_tag(), n@),
        _ => (t.spec_tag(), Seq::empty()),
    }
}

/// The shapes of a sequence of tokens, in order.
pub open spec fn shapes_of(ts: Seq<Token>) -> Seq<(u8, Seq<char>)> {
    ts.map_values(|t: Token| shape_of(t))
}

impl Token {
    pub fn make_ident(name: &str) -> (r: Token)
        ensures
            r matches Token::Ident(n) && n@ == name@,
    {
        Token::Ident(name.to_owned())
    }

    pub fn make_int(text: &str) -> (r: Token)
        ensures
            r matches Token::Int(n) && n@ == text@,
    {
        Token::Int(text.to_owned())
    }

    /// A copy of this token, equal to it.
    pub fn copy(&self) -> (r: Token)
        ensures
            r == *self,
    {
        match self {
            Token::Ident(n) => Token::Ident(n.clone()),
            Token::Int(n) => Token::Int(n.clone()),
            Token::Illegal => Token::Illegal,
            Token::EOF => Token::EOF,
            Token::Assign => Token::Assign,
            Token::Plus => Token::Plus,
            Token::Minus => Token::Minus,
            Token::Bang => Token::Bang,
            Token::Asterisk => Token::Asterisk,
            Token::Slash => Token::Slash,
            Token::Lt => Token::Lt,
            Token::Gt => Token::Gt,
            Token::Eq => Token::Eq,
            Token::NotEq => Token::NotEq,
            Token::Comma => Token::Comma,
            Token::Semicolon => Token::Semicolon,
            Token::LParen => Token::LParen,
            Token::RParen => Token::RParen,
            Token::LBrace => Token::LBrace,
            Token::RBrace => Token::RBrace,
            Token::Function => Token::Function,
            Token::Let => Token::Let,
            Token::True => Token::True,
            Token::False => Token::False,
            Token::If => Token::If,
            Token::Else => Token::Else,
            Token::Return => Token::Return,
        }
    }

    /// Whether `self` and `other` have the same shape (see `same_shape`).
    pub fn same_shape_as(&self, other: &Token) -> (r: bool)
        ensures
            r == same_shape(*self, *other),
    {
        match (self, other) {
            (Token::Ident(_), Token::Ident(_)) => true,
            (Token::Int(_), Token::Int(_)) => true,
            (Token::Ident(_), _) => false,
            (Token::Int(_), _) => false,
            (_, Token::Ident(_)) => false,
            (_, Token::Int(_)) => false,
            _ => self.tag() == other.tag(),
        }
    }

    /// The position of the token's tag in the list of tags.
    pub fn tag(&self) -> (r: u8)
        ensures
            r == self.spec_tag(),
    {
        match self {
            Token::Illegal => 0,
            Token::EOF => 1,
            Token::Ident(_) => 2,
            Token::Int(_) => 3,
            Token::Assign => 4,
            Token::Plus => 5,
            Token::Minus => 6,
            Token::Bang => 7,
            Token::Asterisk => 8,
            Token::Slash => 9,
            Token::Lt => 10,
            Token::Gt => 11,
            Token::Eq => 12,
            Token::NotEq => 13,
            Token::Comma => 14,
            Token::Semicolon => 15,
            Token::LParen => 16,
            Token::RParen => 17,
            Token::LBrace => 18,
            Token::RBrace => 19,
            Token::Function => 20,
            Token::Let => 21,
            Token::True => 22,
            Token::False => 23,
            Token::If => 24,
            Token::Else => 25,
            Token::Return => 26,
        }
    }

    pub open spec fn spec_tag(&self) -> u8 {
        match self {
            Token::Illegal => 0,
            Token::EOF => 1,
            Token::Ident(_) => 2,
            Token::Int(_) => 3,
            Token::Assign => 4,
            Token::Plus => 5,
            Token::Minus => 6,
            Token::Bang => 7,
            Token::Asterisk => 8,
            Token::Slash => 9,
            Token::Lt => 10,
            Token::Gt => 11,
            Token::Eq => 12,
            Token::NotEq => 13,
            Token::Comma => 14,
            Token::Semicolon => 15,
            Token::LParen => 16,
            Token::RParen => 17,
            Token::LBrace => 18,
            Token::RBrace => 19,
            Token::Function => 20,
            Token::Let => 21,
            Token::True => 22,
            Token::False => 23,
            Token::If => 24,
            Token::Else => 25,
            Token::Return => 26,
        }
    }
}

} // verus!
