//! The token alphabet of the language, produced by the lexer and consumed by
//! the parser.

use vstd::prelude::*;
use vstd::string::StringSliceAdditionalSpecFns;

verus! {

/// A lexical token.  `IDENT` and `STRING` carry their text, `INT` and
/// `IMEGINARY` the parsed number.
#[allow(clippy::upper_case_acronyms)]
#[derive(Debug, Clone)]
pub enum Token {
    ILLIGAL,
    EOF,
    IDENT(String),
    STRING(String),
    INT(i64),
    IMEGINARY(i64),
    ASSIGN,
    PLUS,
    MINUS,
    BANG,
    ASTERISK,
    SLASH,
    POWER,
    LT,
    GT,
    EQ,
    NOTEQ,
    COMMA,
    SEMICOLON,
    COLON,
    LPAREN,
    RPAREN,
    LBRACE,
    RBRACE,
    LBRACKET,
    RBRACKET,
    FUNCTION,
    LET,
    IF,
    ELSE,
    RETURN,
    TRUE,
    FALSE,
}

/// The mathematical value of a token: text becomes a character sequence and
/// numbers become unbounded integers.
pub enum TokenV {
    ILLIGAL,
    EOF,
    IDENT(Seq<char>),
    STRING(Seq<char>),
    INT(int),
    IMEGINARY(int),
    ASSIGN,
    PLUS,
    MINUS,
    BANG,
    ASTERISK,
    SLASH,
    POWER,
    LT,
    GT,
    EQ,
    NOTEQ,
    COMMA,
    SEMICOLON,
    COLON,
    LPAREN,
    RPAREN,
    LBRACE,
    RBRACE,
    LBRACKET,
    RBRACKET,
    FUNCTION,
    LET,
    IF,
    ELSE,
    RETURN,
    TRUE,
    FALSE,
}

impl View for Token {
    type V = TokenV;

    open spec fn view(&self) -> TokenV {
        match self {
            Token::ILLIGAL => TokenV::ILLIGAL,
            Token::EOF => TokenV::EOF,
            Token::IDENT(s) => TokenV::IDENT(s@),
            Token::STRING(s) => TokenV::STRING(s@),
            Token::INT(n) => TokenV::INT(*n as int),
            Token::IMEGINARY(n) => TokenV::IMEGINARY(*n as int),
            Token::ASSIGN => TokenV::ASSIGN,
            Token::PLUS => TokenV::PLUS,
            Token::MINUS => TokenV::MINUS,
            Token::BANG => TokenV::BANG,
            Token::ASTERISK => TokenV::ASTERISK,
            Token::SLASH => TokenV::SLASH,
            Token::POWER => TokenV::POWER,
            Token::LT => TokenV::LT,
            Token::GT => TokenV::GT,
            Token::EQ => TokenV::EQ,
            Token::NOTEQ => TokenV::NOTEQ,
            Token::COMMA => TokenV::COMMA,
            Token::SEMICOLON => TokenV::SEMICOLON,
            Token::COLON => TokenV::COLON,
            Token::LPAREN => TokenV::LPAREN,
            Token::RPAREN => TokenV::RPAREN,
            Token::LBRACE => TokenV::LBRACE,
            Token::RBRACE => TokenV::RBRACE,
            Token::LBRACKET => TokenV::LBRACKET,
            Token::RBRACKET => TokenV::RBRACKET,
            Token::FUNCTION => TokenV::FUNCTION,
            Token::LET => TokenV::LET,
            Token::IF => TokenV::IF,
            Token::ELSE => TokenV::ELSE,
            Token::RETURN => TokenV::RETURN,
            Token::TRUE => TokenV::TRUE,
            Token::FALSE => TokenV::FALSE,
        }
    }
}

impl PartialEq for Token {
    fn eq(&self, other: &Token) -> (r: bool) {
        match (self, other) {
            (Token::IDENT(a), Token::IDENT(b)) => *a == *b,
            (Token::STRING(a), Token::STRING(b)) => *a == *b,
            (Token::INT(a), Token::INT(b)) => *a == *b,
            (Token::IMEGINARY(a), Token::IMEGINARY(b)) => *a == *b,
            (Token::ILLIGAL, Token::ILLIGAL) => true,
            (Token::EOF, Token::EOF) => true,
            (Token::ASSIGN, Token::ASSIGN) => true,
            (Token::PLUS, Token::PLUS) => true,
            (Token::MINUS, Token::MINUS) => true,
            (Token::BANG, Token::BANG) => true,
            (Token::ASTERISK, Token::ASTERISK) => true,
            (Token::SLASH, Token::SLASH) => true,
            (Token::POWER, Token::POWER) => true,
            (Token::LT, Token::LT) => true,
            (Token::GT, Token::GT) => true,
            (Token::EQ, Token::EQ) => true,
            (Token::NOTEQ, Token::NOTEQ) => true,
            (Token::COMMA, Token::COMMA) => true,
            (Token::SEMICOLON, Token::SEMICOLON) => true,
            (Token::COLON, Token::COLON) => true,
            (Token::LPAREN, Token::LPAREN) => true,
            (Token::RPAREN, Token::RPAREN) => true,
            (Token::LBRACE, Token::LBRACE) => true,
            (Token::RBRACE, Token::RBRACE) => true,
            (Token::LBRACKET, Token::LBRACKET) => true,
            (Token::RBRACKET, Token::RBRACKET) => true,
            (Token::FUNCTION, Token::FUNCTION) => true,
            (Token::LET, Token::LET) => true,
            (Token::IF, Token::IF) => true,
            (Token::ELSE, Token::ELSE) => true,
            (Token::RETURN, Token::RETURN) => true,
            (Token::TRUE, Token::TRUE) => true,
            (Token::FALSE, Token::FALSE) => true,
            _ => false,
        }
    }
}

impl vstd::std_specs::cmp::PartialEqSpecImpl for Token {
    open spec fn obeys_eq_spec() -> bool {
        true
    }

    open spec fn eq_spec(&self, other: &Token) -> bool {
        self@ == other@
    }
}

/// The keyword token for a character sequence, if it is a keyword.
pub open spec fn keyword_token(s: Seq<char>) -> Option<Token> {
    if s == "let"@ {
        Some(Token::LET)
    } else if s == "fn"@ {
        Some(Token::FUNCTION)
    } else if s == "if"@ {
        Some(Token::IF)
    } else if s == "else"@ {
        Some(Token::ELSE)
    } else if s == "return"@ {
        Some(Token::RETURN)
    } else if s == "true"@ {
        Some(Token::TRUE)
    } else if s == "false"@ {
        Some(Token::FALSE)
    } else {
        None
    }
}

/// Whether two token values are of the same kind, ignoring any payload.
pub open spec fn same_token_type(a: TokenV, b: TokenV) -> bool {
    match (a, b) {
        (TokenV::IDENT(_), TokenV::IDENT(_)) => true,
        (TokenV::STRING(_), TokenV::STRING(_)) => true,
        (TokenV::INT(_), TokenV::INT(_)) => true,
        (TokenV::IMEGINARY(_), TokenV::IMEGINARY(_)) => true,
        _ => a == b,
    }
}

/// The display name of a token's kind.
pub open spec fn token_type_name(t: TokenV) -> Seq<char> {
    match t {
        TokenV::ILLIGAL => "ILLIGAL"@,
        TokenV::EOF => "EOF"@,
        TokenV::IDENT(_) => "IDENT"@,
        TokenV::STRING(_) => "STRING"@,
        TokenV::INT(_) => "INT"@,
        TokenV::IMEGINARY(_) => "IMEGINARY"@,
        TokenV::ASSIGN => "ASSIGN"@,
        TokenV::PLUS => "PLUS"@,
        TokenV::MINUS => "MINUS"@,
        TokenV::BANG => "BANG"@,
        TokenV::ASTERISK => "ASTERISK"@,
        TokenV::SLASH => "SLASH"@,
        TokenV::POWER => "POWER"@,
        TokenV::LT => "LT"@,
        TokenV::GT => "GT"@,
        TokenV::EQ => "EQ"@,
        TokenV::NOTEQ => "NOTEQ"@,
        TokenV::COMMA => "COMMA"@,
        TokenV::SEMICOLON => "SEMICOLON"@,
        TokenV::COLON => "COLON"@,
        TokenV::LPAREN => "LPAREN"@,
        TokenV::RPAREN => "RPAREN"@,
        TokenV::LBRACE => "LBRACE"@,
        TokenV::RBRACE => "RBRACE"@,
        TokenV::LBRACKET => "LBRACKET"@,
        TokenV::RBRACKET => "RBRACKET"@,
        TokenV::FUNCTION => "FUNCTION"@,
        TokenV::LET => "LET"@,
        TokenV::IF => "IF"@,
        TokenV::ELSE => "ELSE"@,
        TokenV::RETURN => "RETURN"@,
        TokenV::TRUE => "TRUE"@,
        TokenV::FALSE => "FALSE"@,
    }
}

impl Token {
    /// A copy of this token whose value is the same.
    pub fn duplicate(&self) -> (t: Token)
        ensures
            t@ == self@,
    {
        match self {
            Token::ILLIGAL => Token::ILLIGAL,
            Token::EOF => Token::EOF,
            Token::IDENT(s) => Token::IDENT(s.clone()),
            Token::STRING(s) => Token::STRING(s.clone()),
            Token::INT(n) => Token::INT(*n),
            Token::IMEGINARY(n) => Token::IMEGINARY(*n),
            Token::ASSIGN => Token::ASSIGN,
            Token::PLUS => Token::PLUS,
            Token::MINUS => Token::MINUS,
            Token::BANG => Token::BANG,
            Token::ASTERISK => Token::ASTERISK,
            Token::SLASH => Token::SLASH,
            Token::POWER => Token::POWER,
            Token::LT => Token::LT,
            Token::GT => Token::GT,
            Token::EQ => Token::EQ,
            Token::NOTEQ => Token::NOTEQ,
            Token::COMMA => Token::COMMA,
            Token::SEMICOLON => Token::SEMICOLON,
            Token::COLON => Token::COLON,
            Token::LPAREN => Token::LPAREN,
            Token::RPAREN => Token::RPAREN,
            Token::LBRACE => Token::LBRACE,
            Token::RBRACE => Token::RBRACE,
            Token::LBRACKET => Token::LBRACKET,
            Token::RBRACKET => Token::RBRACKET,
            Token::FUNCTION => Token::FUNCTION,
            Token::LET => Token::LET,
            Token::IF => Token::IF,
            Token::ELSE => Token::ELSE,
            Token::RETURN => Token::RETURN,
            Token::TRUE => Token::TRUE,
            Token::FALSE => Token::FALSE,
        }
    }

    /// The keyword token that spells `s`, if any.
    pub fn is_str_keywords(s: &str) -> (r: Option<Token>)
        ensures
            match keyword_token(s@) {
                Some(k) => r matches Some(t) && t@ == k@,
                None => r is None,
            },
    {
        if str_equal(s, "let") {
            Some(Token::LET)
        } else if str_equal(s, "fn") {
            Some(Token::FUNCTION)
        } else if str_equal(s, "if") {
            Some(Token::IF)
        } else if str_equal(s, "else") {
            Some(Token::ELSE)
        } else if str_equal(s, "return") {
            Some(Token::RETURN)
        } else if str_equal(s, "true") {
            Some(Token::TRUE)
        } else if str_equal(s, "false") {
            Some(Token::FALSE)
        } else {
            None
        }
    }

    /// Whether `self` and `other` are tokens of the same kind, ignoring any
    /// payload they carry.
    pub fn is_same_type(&self, other: &Self) -> (r: bool)
        ensures
            r == same_token_type(self@, other@),
    {
        match (self, other) {
            (Token::IDENT(_), Token::IDENT(_)) => true,
            (Token::STRING(_), Token::STRING(_)) => true,
            (Token::INT(_), Token::INT(_)) => true,
            (Token::IMEGINARY(_), Token::IMEGINARY(_)) => true,
            _ => self == other,
        }
    }

    /// The identifier text, or an error for any other token.
    pub fn unwrap_string(&self) -> (r: Result<String, crate::error::MonkeyErr>)
        ensures
            match self@ {
                TokenV::IDENT(s) => r matches Ok(out) && out@ == s,
                _ => r matches Err(e) && e@ == crate::error::MonkeyErrV::CannotConvertStringErr {
                    got: self@,
                },
            },
    {
        if let Token::IDENT(s) = self {
            Ok(s.clone())
        } else {
            Err(crate::error::MonkeyErr::CannotConvertStringErr { got: self.duplicate() })
        }
    }

    /// The display name of this token's kind.
    pub fn take_tok_name(&self) -> (r: String)
        ensures
            r@ == token_type_name(self@),
    {
        match self {
            Token::ILLIGAL => String::from_str("ILLIGAL"),
            Token::EOF => String::from_str("EOF"),
            Token::IDENT(_) => String::from_str("IDENT"),
            Token::STRING(_) => String::from_str("STRING"),
            Token::INT(_) => String::from_str("INT"),
            Token::IMEGINARY(_) => String::from_str("IMEGINARY"),
            Token::ASSIGN => String::from_str("ASSIGN"),
            Token::PLUS => String::from_str("PLUS"),
            Token::MINUS => String::from_str("MINUS"),
            Token::BANG => String::from_str("BANG"),
            Token::ASTERISK => String::from_str("ASTERISK"),
            Token::SLASH => String::from_str("SLASH"),
            Token::POWER => String::from_str("POWER"),
            Token::LT => String::from_str("LT"),
            Token::GT => String::from_str("GT"),
            Token::EQ => String::from_str("EQ"),
            Token::NOTEQ => String::from_str("NOTEQ"),
            Token::COMMA => String::from_str("COMMA"),
            Token::SEMICOLON => String::from_str("SEMICOLON"),
            Token::COLON => String::from_str("COLON"),
            Token::LPAREN => String::from_str("LPAREN"),
            Token::RPAREN => String::from_str("RPAREN"),
            Token::LBRACE => String::from_str("LBRACE"),
            Token::RBRACE => String::from_str("RBRACE"),
            Token::LBRACKET => String::from_str("LBRACKET"),
            Token::RBRACKET => String::from_str("RBRACKET"),
            Token::FUNCTION => String::from_str("FUNCTION"),
            Token::LET => String::from_str("LET"),
            Token::IF => String::from_str("IF"),
            Token::ELSE => String::from_str("ELSE"),
            Token::RETURN => String::from_str("RETURN"),
            Token::TRUE => String::from_str("TRUE"),
            Token::FALSE => String::from_str("FALSE"),
        }
    }
}

/// Whether `chr` can occur in an identifier: an ASCII letter or `_`.
pub open spec fn is_letter_spec(chr: char) -> bool {
    (97 <= chr as u32 && chr as u32 <= 122) || (65 <= chr as u32 && chr as u32 <= 90) || chr as u32
        == 95
}

/// Whether `chr` can occur in an identifier: an ASCII letter or `_`.
pub fn is_letter(chr: char) -> (r: bool)
    ensures
        r == is_letter_spec(chr),
{
    let c = chr as u32;
    (97 <= c && c <= 122) || (65 <= c && c <= 90) || c == 95
}

/// Whether two strings hold the same characters.
pub fn str_equal(a: &str, b: &str) -> (r: bool)
    ensures
        r == (a@ == b@),
{
    let ab = a.as_bytes();
    let bb = b.as_bytes();
    proof {
        vstd::utf8::encode_utf8_decode_utf8(a@);
        vstd::utf8::encode_utf8_decode_utf8(b@);
    }
    if ab.len() != bb.len() {
        proof {
            assert(a.spec_bytes() != b.spec_bytes());
        }
        return false;
    }
    let n = ab.len();
    let mut i: usize = 0;
    while i < n
        invariant
            n == ab@.len() == bb@.len(),
            0 <= i <= n,
            forall|j: int| 0 <= j < i ==> ab@[j] == bb@[j],
            ab@ == a.spec_bytes(),
            bb@ == b.spec_bytes(),
            vstd::utf8::decode_utf8(a.spec_bytes()) == a@,
            vstd::utf8::decode_utf8(b.spec_bytes()) == b@,
        decreases n - i,
    {
        if ab[i] != bb[i] {
            return false;
        }
        i += 1;
    }
    proof {
        assert(a.spec_bytes() =~= b.spec_bytes());
    }
    true
}

} // verus!
