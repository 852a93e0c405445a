//! The token alphabet of the small parser.

use vstd::prelude::*;

verus! {

/// A lexical token of the small grammar.
#[allow(clippy::upper_case_acronyms)]
#[derive(Debug, Clone, PartialEq, Eq, Hash)]
pub enum Token {
    ILLIGAL,
    EOF,
    IDENT(String),
    INT(i64),
    ASSIGN,
    PLUS,
    MINUS,
    BANG,
    ASTERISK,
    SLASH,
    LT,
    GT,
    EQ,
    NOTEQ,
    COMMA,
    SEMICOLON,
    LPAREN,
    RPAREN,
    LBRACE,
    RBRACE,
    FUNCTION,
    LET,
    IF,
    ELSE,
    RETURN,
    TRUE,
    FALSE,
}

impl Token {
    /// The keyword token that spells `s`, if any.
    pub fn is_str_keywords(s: &str) -> (r: Option<Token>)
        ensures
            (s@ == "let"@) ==> r == Some(Token::LET),
    {
        if crate::token::str_equal(s, "let") {
            Some(Token::LET)
        } else if crate::token::str_equal(s, "fn") {
            Some(Token::FUNCTION)
        } else if crate::token::str_equal(s, "if") {
            Some(Token::IF)
        } else if crate::token::str_equal(s, "else") {
            Some(Token::ELSE)
        } else if crate::token::str_equal(s, "return") {
            Some(Token::RETURN)
        } else if crate::token::str_equal(s, "true") {
            Some(Token::TRUE)
        } else if crate::token::str_equal(s, "false") {
            Some(Token::FALSE)
        } else {
            None
        }
    }

    /// The identifier text; requires an identifier token, where the original
    /// grammar gave up instead.
    pub fn unwrap_string(&self) -> (r: String)
        requires
            self is IDENT,
        ensures
            self matches Token::IDENT(s) ==> r@ == s@,
    {
        if let Token::IDENT(s) = self {
            s.clone()
        } else {
            String::new()
        }
    }

    /// The display name of this token's kind.
    pub fn take_tok_name(&self) -> (r: String)
        ensures
            self is IDENT ==> r@ == "IDENT"@,
            self is INT ==> r@ == "INT"@,
    {
        match self {
            Token::ILLIGAL => String::from_str("ILLIGAL"),
            Token::EOF => String::from_str("EOF"),
            Token::IDENT(_) => String::from_str("IDENT"),
            Token::INT(_) => String::from_str("INT"),
            Token::ASSIGN => String::from_str("ASSIGN"),
            Token::PLUS => String::from_str("PLUS"),
            Token::MINUS => String::from_str("MINUS"),
            Token::BANG => String::from_str("BANG"),
            Token::ASTERISK => String::from_str("ASTERISK"),
            Token::SLASH => String::from_str("SLASH"),
            Token::LT => String::from_str("LT"),
            Token::GT => String::from_str("GT"),
            Token::EQ => String::from_str("EQ"),
            Token::NOTEQ => String::from_str("NOTEQ"),
            Token::COMMA => String::from_str("COMMA"),
            Token::SEMICOLON => String::from_str("SEMICOLON"),
            Token::LPAREN => String::from_str("LPAREN"),
            Token::RPAREN => String::from_str("RPAREN"),
            Token::LBRACE => String::from_str("LBRACE"),
            Token::RBRACE => String::from_str("RBRACE"),
            Token::FUNCTION => String::from_str("FUNCTION"),
            Token::LET => String::from_str("LET"),
            Token::IF => String::from_str("IF"),
            Token::ELSE => String::from_str("ELSE"),
            Token::RETURN => String::from_str("RETURN"),
            Token::TRUE => String::from_str("TRUE"),
            Token::FALSE => String::from_str("FALSE"),
        }
    }
}

/// Whether `chr` can occur in an identifier: an ASCII letter or `_`.
pub fn is_letter(chr: char) -> (r: bool)
    ensures
        r == crate::token::is_letter_spec(chr),
{
    crate::token::is_letter(chr)
}

} // verus!
