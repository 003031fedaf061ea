//! The token alphabet produced by a character-level scanner and consumed
//! by the parser, together with the keyword table and the identifier
//! character class.
use vstd::prelude::*;

verus! {

/// A lexical token. `IDENT` and `INT` carry a payload; `IMG` is an
/// integer literal with an imaginary-unit suffix. `ILLIGAL` marks a
/// character the scanner cannot place and `EOF` is the end marker.
#[derive(Debug, PartialEq)]
pub enum Token {
    ILLIGAL,
    EOF,
    // Identifiers + literals
    IDENT(String),
    INT(i64),
    IMG(i64),
    // Operations
    ASSIGN,
    PLUS,
    MINUS,
    BANG,
    ASTERISK,
    SLASH,
    POWER,
    LT,
    GT,
    EQ,
    NOTEQ,
    // Delimiters
    COMMA,
    SEMICOLON,
    LPAREN,
    RPAREN,
    LBRACE,
    RBRACE,
    // Keywords
    FUNCTION,
    LET,
    IF,
    ELSE,
    RETURN,
    TRUE,
    FALSE,
}

/// The mathematical mirror of [`Token`]: identifier text is a `Seq<char>`.
pub enum TokenV {
    ILLIGAL,
    EOF,
    IDENT(Seq<char>),
    INT(i64),
    IMG(i64),
    ASSIGN,
    PLUS,
    MINUS,
    BANG,
    ASTERISK,
    SLASH,
    POWER,
    LT,
    GT,
    EQ,
    NOTEQ,
    COMMA,
    SEMICOLON,
    LPAREN,
    RPAREN,
    LBRACE,
    RBRACE,
    FUNCTION,
    LET,
    IF,
    ELSE,
    RETURN,
    TRUE,
    FALSE,
}

impl View for Token {
    type V = TokenV;

    open spec fn view(&self) -> TokenV {
        match self {
            Token::ILLIGAL => TokenV::ILLIGAL,
            Token::EOF => TokenV::EOF,
            Token::IDENT(s) => TokenV::IDENT(s@),
            Token::INT(n) => TokenV::INT(*n),
            Token::IMG(n) => TokenV::IMG(*n),
            Token::ASSIGN => TokenV::ASSIGN,
            Token::PLUS => TokenV::PLUS,
            Token::MINUS => TokenV::MINUS,
            Token::BANG => TokenV::BANG,
            Token::ASTERISK => TokenV::ASTERISK,
            Token::SLASH => TokenV::SLASH,
            Token::POWER => TokenV::POWER,
            Token::LT => TokenV::LT,
            Token::GT => TokenV::GT,
            Token::EQ => TokenV::EQ,
            Token::NOTEQ => TokenV::NOTEQ,
            Token::COMMA => TokenV::COMMA,
            Token::SEMICOLON => TokenV::SEMICOLON,
            Token::LPAREN => TokenV::LPAREN,
            Token::RPAREN => TokenV::RPAREN,
            Token::LBRACE => TokenV::LBRACE,
            Token::RBRACE => TokenV::RBRACE,
            Token::FUNCTION => TokenV::FUNCTION,
            Token::LET => TokenV::LET,
            Token::IF => TokenV::IF,
            Token::ELSE => TokenV::ELSE,
            Token::RETURN => TokenV::RETURN,
            Token::TRUE => TokenV::TRUE,
            Token::FALSE => TokenV::FALSE,
        }
    }
}

/// Compares two string slices character by character.
pub fn str_eq_chars(s: &str, t: &str) -> (r: bool)
    ensures
        r == (s@ == t@),
{
    let sn = s.unicode_len();
    let tn = t.unicode_len();
    if sn != tn {
        proof {
            assert(s@ != t@) by {
                assert(s@.len() != t@.len());
            }
        }
        return false;
    }
    let mut i: usize = 0;
    #[verifier::loop_isolation(false)]
    while i < sn
        invariant
            i <= sn,
            forall|j: int| 0 <= j < i ==> s@[j] == t@[j],
        decreases sn - i,
    {
        if s.get_char(i) != t.get_char(i) {
            return false;
        }
        i = i + 1;
    }
    proof {
        assert(s@ =~= t@);
    }
    true
}

/// What [`Token::is_str_keywords`] returns: the keyword token for one of
/// the seven reserved words, and `None` for every other string.
pub open spec fn is_str_keywords_spec(s: Seq<char>) -> Option<TokenV> {
    if s == "let"@ {
        Some(TokenV::LET)
    } else if s == "fn"@ {
        Some(TokenV::FUNCTION)
    } else if s == "if"@ {
        Some(TokenV::IF)
    } else if s == "else"@ {
        Some(TokenV::ELSE)
    } else if s == "return"@ {
        Some(TokenV::RETURN)
    } else if s == "true"@ {
        Some(TokenV::TRUE)
    } else if s == "false"@ {
        Some(TokenV::FALSE)
    } else {
        None
    }
}

impl Token {
    /// Maps a reserved word to its keyword token; any other string is not
    /// a keyword.
    pub fn is_str_keywords(s: &str) -> (r: Option<Token>)
        ensures
            match r {
                Some(t) => is_str_keywords_spec(s@) == Some(t@),
                None => is_str_keywords_spec(s@) is None,
            },
    {
        if str_eq_chars(s, "let") {
            Some(Token::LET)
        } else if str_eq_chars(s, "fn") {
            Some(Token::FUNCTION)
        } else if str_eq_chars(s, "if") {
            Some(Token::IF)
        } else if str_eq_chars(s, "else") {
            Some(Token::ELSE)
        } else if str_eq_chars(s, "return") {
            Some(Token::RETURN)
        } else if str_eq_chars(s, "true") {
            Some(Token::TRUE)
        } else if str_eq_chars(s, "false") {
            Some(Token::FALSE)
        } else {
            None
        }
    }
}

/// The identifier character class, as a predicate on the character value.
pub open spec fn is_letter_spec(c: char) -> bool {
    ('a' <= c && c <= 'z') || ('A' <= c && c <= 'Z') || c == '_'
}

/// An identifier character is an ASCII letter or an underscore.
pub fn is_letter(chr: char) -> (r: bool)
    ensures
        r == is_letter_spec(chr),
{
    ('a' <= chr && chr <= 'z') || ('A' <= chr && chr <= 'Z') || chr == '_'
}

/// Structural equality of tokens: same variant, equal payloads.
pub fn token_eq(a: &Token, b: &Token) -> (r: bool)
    ensures
        r == (a@ == b@),
{
    match (a, b) {
        (Token::ILLIGAL, Token::ILLIGAL) => true,
        (Token::EOF, Token::EOF) => true,
        (Token::IDENT(x), Token::IDENT(y)) => *x == *y,
        (Token::INT(x), Token::INT(y)) => x == y,
        (Token::IMG(x), Token::IMG(y)) => x == y,
        (Token::ASSIGN, Token::ASSIGN) => true,
        (Token::PLUS, Token::PLUS) => true,
        (Token::MINUS, Token::MINUS) => true,
        (Token::BANG, Token::BANG) => true,
        (Token::ASTERISK, Token::ASTERISK) => true,
        (Token::SLASH, Token::SLASH) => true,
        (Token::POWER, Token::POWER) => true,
        (Token::LT, Token::LT) => true,
        (Token::GT, Token::GT) => true,
        (Token::EQ, Token::EQ) => true,
        (Token::NOTEQ, Token::NOTEQ) => true,
        (Token::COMMA, Token::COMMA) => true,
        (Token::SEMICOLON, Token::SEMICOLON) => true,
        (Token::LPAREN, Token::LPAREN) => true,
        (Token::RPAREN, Token::RPAREN) => true,
        (Token::LBRACE, Token::LBRACE) => true,
        (Token::RBRACE, Token::RBRACE) => true,
        (Token::FUNCTION, Token::FUNCTION) => true,
        (Token::LET, Token::LET) => true,
        (Token::IF, Token::IF) => true,
        (Token::ELSE, Token::ELSE) => true,
        (Token::RETURN, Token::RETURN) => true,
        (Token::TRUE, Token::TRUE) => true,
        (Token::FALSE, Token::FALSE) => true,
        _ => false,
    }
}

/// Copies a token, preserving its mathematical value.
pub fn token_clone(t: &Token) -> (r: Token)
    ensures
        r@ == t@,
{
    match t {
        Token::ILLIGAL => Token::ILLIGAL,
        Token::EOF => Token::EOF,
        Token::IDENT(s) => Token::IDENT(s.clone()),
        Token::INT(n) => Token::INT(*n),
        Token::IMG(n) => Token::IMG(*n),
        Token::ASSIGN => Token::ASSIGN,
        Token::PLUS => Token::PLUS,
        Token::MINUS => Token::MINUS,
        Token::BANG => Token::BANG,
        Token::ASTERISK => Token::ASTERISK,
        Token::SLASH => Token::SLASH,
        Token::POWER => Token::POWER,
        Token::LT => Token::LT,
        Token::GT => Token::GT,
        Token::EQ => Token::EQ,
        Token::NOTEQ => Token::NOTEQ,
        Token::COMMA => Token::COMMA,
        Token::SEMICOLON => Token::SEMICOLON,
        Token::LPAREN => Token::LPAREN,
        Token::RPAREN => Token::RPAREN,
        Token::LBRACE => Token::LBRACE,
        Token::RBRACE => Token::RBRACE,
        Token::FUNCTION => Token::FUNCTION,
        Token::LET => Token::LET,
        Token::IF => Token::IF,
        Token::ELSE => Token::ELSE,
        Token::RETURN => Token::RETURN,
        Token::TRUE => Token::TRUE,
        Token::FALSE => Token::FALSE,
    }
}

} // verus!
