use vstd::prelude::*;

use crate::token::{shape_of, shapes_of, token_at, Token};

verus! {

/// The characters of `s`, in order.
/// Relies on `str::chars` (collected into a `Vec`): it yields each character once, in order.
#[verifier::external_body]
pub(crate) fn chars_of(s: &str) -> (r: Vec<char>)
    ensures
        r@ == s@,
{
    s.chars().collect()
}

/// A string holding exactly the characters of `v`.
/// Relies on `String`'s `FromIterator<char>`: it appends each character in order.
#[verifier::external_body]
pub(crate) fn string_of(v: &Vec<char>) -> (r: String)
    ensures
        r@ == v@,
{
    v.iter().collect()
}

pub open spec fn is_letter(c: char) -> bool {
    ('a' <= c && c <= 'z') || ('A' <= c && c <= 'Z') || c == '_'
}

pub open spec fn is_digit(c: char) -> bool {
    '0' <= c && c <= '9'
}

pub open spec fn is_space(c: char) -> bool {
    c == ' ' || c == '\t' || c == '\n' || c == '\r'
}

/// How many characters from position `i` on are digits (`digits`) or letters
/// (otherwise), without a break.
pub open spec fn run_len(cs: Seq<char>, i: int, digits: bool) -> nat
    decreases cs.len() - i,
{
    if 0 <= i < cs.len() && (if digits {
        is_digit(cs[i])
    } else {
        is_letter(cs[i])
    }) {
        1 + run_len(cs, i + 1, digits)
    } else {
        0
    }
}

/// The shape of the token a word of letters spells: a keyword, or an identifier.
pub open spec fn word_shape(w: Seq<char>) -> (u8, Seq<char>) {
    if w == "fn"@ {
        (20, Seq::empty())
    } else if w == "let"@ {
        (21, Seq::empty())
    } else if w == "true"@ {
        (22, Seq::empty())
    } else if w == "false"@ {
        (23, Seq::empty())
    } else if w == "if"@ {
        (24, Seq::empty())
    } else if w == "else"@ {
        (25, Seq::empty())
    } else if w == "return"@ {
        (26, Seq::empty())
    } else {
        (2, w)
    }
}

/// The tag of the token of a one-character operator or delimiter; `Illegal`'s
/// for any other character.
pub open spec fn single_char_tag(c: char) -> u8 {
    if c == '=' {
        4
    } else if c == '+' {
        5
    } else if c == '-' {
        6
    } else if c == '!' {
        7
    } else if c == '*' {
        8
    } else if c == '/' {
        9
    } else if c == '<' {
        10
    } else if c == '>' {
        11
    } else if c == ',' {
        14
    } else if c == ';' {
        15
    } else if c == '(' {
        16
    } else if c == ')' {
        17
    } else if c == '{' {
        18
    } else if c == '}' {
        19
    } else {
        0
    }
}

/// The shapes of the tokens of `cs` from position `i` on. Whitespace is
/// skipped; a run of letters is a keyword or an identifier; a run of digits an
/// integer literal; `==` and `!=` are read before `=` and `!`.
pub open spec fn lex_from(cs: Seq<char>, i: int) -> Seq<(u8, Seq<char>)>
    decreases cs.len() - i,
{
    if !(0 <= i < cs.len()) {
        Seq::empty()
    } else {
        let c = cs[i];
        let next_is_eq = i + 1 < cs.len() && cs[i + 1] == '=';
        if is_space(c) {
            lex_from(cs, i + 1)
        } else if is_letter(c) || is_digit(c) {
            let j = i + 1 + run_len(cs, i + 1, is_digit(c));
            let shape = if is_digit(c) {
                (3u8, cs.subrange(i, j))
            } else {
                word_shape(cs.subrange(i, j))
            };
            // a run never ends past the input; the test only makes termination evident
            if j <= cs.len() {
                seq![shape] + lex_from(cs, j)
            } else {
                seq![shape]
            }
        } else if c == '=' && next_is_eq {
            seq![(12u8, Seq::empty())] + lex_from(cs, i + 2)
        } else if c == '!' && next_is_eq {
            seq![(13u8, Seq::empty())] + lex_from(cs, i + 2)
        } else {
            seq![(single_char_tag(c), Seq::empty())] + lex_from(cs, i + 1)
        }
    }
}

/// A source of tokens, pulled one at a time. Once its tokens are used up it
/// yields `EOF` on every pull.
pub struct Lexer {
    tokens: Vec<Token>,
    pos: usize,
}

impl Lexer {
    /// The whole stream the lexer yields.
    pub closed spec fn stream(&self) -> Seq<Token> {
        self.tokens@
    }

    /// How many tokens have been pulled (never past the end of the stream).
    pub closed spec fn pulled(&self) -> int {
        self.pos as int
    }

    /// The lexer has not pulled past its end, and `EOF` stands only after it.
    pub closed spec fn wf(&self) -> bool {
        &&& self.pos <= self.tokens.len()
        &&& forall|i: int| 0 <= i < self.tokens@.len() ==> self.tokens@[i] != Token::EOF
    }

    pub proof fn lemma_bounds(&self)
        requires
            self.wf(),
        ensures
            0 <= self.pulled() <= self.stream().len(),
            forall|i: int| 0 <= i < self.stream().len() ==> self.stream()[i] != Token::EOF,
    {
    }

    /// Breaks `input` into tokens. Whitespace separates tokens; letters and `_`
    /// form identifiers or keywords; digits form integer literals; any other
    /// character that is not an operator or delimiter is `Illegal`.
    pub fn new(input: &str) -> (r: Lexer)
        ensures
            r.wf(),
            r.pulled() == 0,
            shapes_of(r.stream()) == lex_from(input@, 0),
    {
        let cs = chars_of(input);
        let mut tokens: Vec<Token> = Vec::new();
        let mut i: usize = 0;
        assert(shapes_of(tokens@) + lex_from(cs@, 0) =~= lex_from(cs@, 0));
        while i < cs.len()
            invariant
                i <= cs.len(),
                cs@ == input@,
                forall|j: int| 0 <= j < tokens@.len() ==> tokens@[j] != Token::EOF,
                shapes_of(tokens@) + lex_from(cs@, i as int) == lex_from(cs@, 0),
            decreases cs.len() - i,
        {
            let ghost before = tokens@;
            let ghost i0 = i as int;
            let c = cs[i];
            if c == ' ' || c == '\t' || c == '\n' || c == '\r' {
                i = i + 1;
            } else if ('a' <= c && c <= 'z') || ('A' <= c && c <= 'Z') || c == '_' {
                let mut word: Vec<char> = Vec::new();
                word.push(c);
                i = i + 1;
                let ghost start = i;
                assert(word@ =~= cs@.subrange(i0, i as int));
                while i < cs.len() && (('a' <= cs[i] && cs[i] <= 'z') || ('A' <= cs[i] && cs[i]
                    <= 'Z') || cs[i] == '_')
                    invariant
                        start <= i <= cs.len(),
                        start == i0 + 1,
                        0 <= i0,
                        word@ == cs@.subrange(i0, i as int),
                        run_len(cs@, start as int, false) == (i - start) + run_len(cs@, i as int, false),
                    decreases cs.len() - i,
                {
                    word.push(cs[i]);
                    i = i + 1;
                    assert(word@ =~= cs@.subrange(i0, i as int));
                }
                let t = keyword_or_ident(&word);
                tokens.push(t);
                proof {
                    assert(shapes_of(tokens@) =~= shapes_of(before).push(shape_of(t)));
                    assert(shapes_of(tokens@) + lex_from(cs@, i as int) =~= shapes_of(before) + (
                    seq![shape_of(t)] + lex_from(cs@, i as int)));
                }
            } else if '0' <= c && c <= '9' {
                let mut digits: Vec<char> = Vec::new();
                digits.push(c);
                i = i + 1;
                let ghost start = i;
                assert(digits@ =~= cs@.subrange(i0, i as int));
                while i < cs.len() && '0' <= cs[i] && cs[i] <= '9'
                    invariant
                        start <= i <= cs.len(),
                        start == i0 + 1,
                        0 <= i0,
                        digits@ == cs@.subrange(i0, i as int),
                        run_len(cs@, start as int, true) == (i - start) + run_len(cs@, i as int, true),
                    decreases cs.len() - i,
                {
                    digits.push(cs[i]);
                    i = i + 1;
                    assert(digits@ =~= cs@.subrange(i0, i as int));
                }
                let t = Token::Int(string_of(&digits));
                tokens.push(t);
                proof {
                    assert(shapes_of(tokens@) =~= shapes_of(before).push(shape_of(t)));
                    assert(shapes_of(tokens@) + lex_from(cs@, i as int) =~= shapes_of(before) + (
                    seq![shape_of(t)] + lex_from(cs@, i as int)));
                }
            } else {
                let next_is_eq = i + 1 < cs.len() && cs[i + 1] == '=';
                let t = if c == '=' && next_is_eq {
                    i = i + 1;
                    Token::Eq
                } else if c == '!' && next_is_eq {
                    i = i + 1;
                    Token::NotEq
                } else {
                    single_char_token(c)
                };
                tokens.push(t);
                i = i + 1;
                proof {
                    assert(shapes_of(tokens@) =~= shapes_of(before).push(shape_of(t)));
                    assert(shapes_of(tokens@) + lex_from(cs@, i as int) =~= shapes_of(before) + (
                    seq![shape_of(t)] + lex_from(cs@, i as int)));
                }
            }
        }
        assert(lex_from(cs@, i as int) =~= Seq::<(u8, Seq<char>)>::empty());
        assert(shapes_of(tokens@) =~= shapes_of(tokens@) + lex_from(cs@, i as int));
        Lexer { tokens, pos: 0 }
    }

    /// Pulls the next token; at the end of the stream, `EOF` again and again.
    pub fn next_token(&mut self) -> (r: Token)
        requires
            old(self).wf(),
        ensures
            final(self).wf(),
            final(self).stream() == old(self).stream(),
            forall|i: int| 0 <= i < old(self).stream().len() ==> old(self).stream()[i] != Token::EOF,
            r == token_at(old(self).stream(), old(self).pulled()),
            final(self).pulled() == if old(self).pulled() < old(self).stream().len() {
                old(self).pulled() + 1
            } else {
                old(self).pulled()
            },
    {
        if self.pos < self.tokens.len() {
            let t = self.tokens[self.pos].copy();
            self.pos = self.pos + 1;
            t
        } else {
            Token::EOF
        }
    }
}

/// The token of a one-character operator or delimiter; `Illegal` for any other.
fn single_char_token(c: char) -> (r: Token)
    ensures
        r != Token::EOF,
        shape_of(r) == (single_char_tag(c), Seq::<char>::empty()),
        c == '=' ==> r == Token::Assign,
        c == '+' ==> r == Token::Plus,
        c == '-' ==> r == Token::Minus,
        c == '!' ==> r == Token::Bang,
        c == '*' ==> r == Token::Asterisk,
        c == '/' ==> r == Token::Slash,
        c == '<' ==> r == Token::Lt,
        c == '>' ==> r == Token::Gt,
        c == ',' ==> r == Token::Comma,
        c == ';' ==> r == Token::Semicolon,
        c == '(' ==> r == Token::LParen,
        c == ')' ==> r == Token::RParen,
        c == '{' ==> r == Token::LBrace,
        c == '}' ==> r == Token::RBrace,
{
    match c {
        '=' => Token::Assign,
        '+' => Token::Plus,
        '-' => Token::Minus,
        '!' => Token::Bang,
        '*' => Token::Asterisk,
        '/' => Token::Slash,
        '<' => Token::Lt,
        '>' => Token::Gt,
        ',' => Token::Comma,
        ';' => Token::Semicolon,
        '(' => Token::LParen,
        ')' => Token::RParen,
        '{' => Token::LBrace,
        '}' => Token::RBrace,
        _ => Token::Illegal,
    }
}

/// Whether `v` holds exactly the characters of `s`.
fn chars_equal(v: &Vec<char>, s: &str) -> (r: bool)
    ensures
        r == (v@ == s@),
{
    let w = chars_of(s);
    if v.len() != w.len() {
        return false;
    }
    let mut i: usize = 0;
    while i < v.len()
        invariant
            w@ == s@,
            v@.len() == w@.len(),
            i <= v.len(),
            forall|j: int| 0 <= j < i ==> v@[j] == w@[j],
        decreases v.len() - i,
    {
        if v[i] != w[i] {
            assert(v@[i as int] != w@[i as int]);
            return false;
        }
        i = i + 1;
    }
    assert(v@ =~= w@);
    true
}

/// The keyword spelled by `word`, or an identifier token holding it.
fn keyword_or_ident(word: &Vec<char>) -> (r: Token)
    ensures
        r != Token::EOF,
        shape_of(r) == word_shape(word@),
{
    if chars_equal(word, "fn") {
        Token::Function
    } else if chars_equal(word, "let") {
        Token::Let
    } else if chars_equal(word, "true") {
        Token::True
    } else if chars_equal(word, "false") {
        Token::False
    } else if chars_equal(word, "if") {
        Token::If
    } else if chars_equal(word, "else") {
        Token::Else
    } else if chars_equal(word, "return") {
        Token::Return
    } else {
        Token::Ident(string_of(word))
    }
}

} // verus!
