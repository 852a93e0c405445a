//! The lexer: turns source text, read as bytes, into tokens.

use crate::token::{is_letter, Token};
use vstd::prelude::*;
use vstd::string::StringSliceAdditionalSpecFns;

verus! {

broadcast use vstd::std_specs::vec::group_vec_axioms, vstd::seq::group_seq_axioms;

/// Decodes bytes back into text.
///
/// Relies on `String::from_utf8`: valid UTF-8 bytes decode to exactly their
/// characters; invalid bytes give the empty string.
#[verifier::external_body]
fn bytes_to_string(bytes: Vec<u8>) -> (r: String)
    ensures
        vstd::utf8::valid_utf8(bytes@) ==> r@ == vstd::utf8::decode_utf8(bytes@),
{
    match String::from_utf8(bytes) {
        Ok(s) => s,
        Err(_) => String::new(),
    }
}

/// The lexer's cursor over the input bytes: the byte under examination, its
/// position, and the position of the next byte to read.
#[derive(Debug)]
pub struct Lexer {
    pub input: Vec<u8>,
    pub position: usize,
    pub read_position: usize,
    pub ch: u8,
}

impl Lexer {
    /// A lexer over the UTF-8 bytes of `input`, with the first byte loaded.
    pub fn new(input: &str) -> (lex: Lexer)
        ensures
            lex.input@ == input.spec_bytes(),
    {
        let mut lex = Lexer { input: input.as_bytes_vec(), position: 0, read_position: 0, ch: 0 };
        lex.read_char();
        lex
    }

    /// Loads the next byte, or 0 past the end, and advances the cursor.
    fn read_char(&mut self)
        ensures
            final(self).input@ == old(self).input@,
            final(self).position == old(self).read_position,
            final(self).read_position >= final(self).position,
    {
        if self.read_position >= self.input.len() {
            self.ch = 0;
        } else {
            self.ch = self.input[self.read_position];
        }
        self.position = self.read_position;
        if self.read_position < usize::MAX {
            self.read_position = self.read_position + 1;
        }
    }

    /// The next byte without advancing, or 0 past the end.
    fn peek_char(&self) -> (r: u8)
        ensures
            (self.read_position < self.input@.len()) ==> r == self.input@[
                self.read_position as int],
            (self.read_position >= self.input@.len()) ==> r == 0,
    {
        if self.read_position >= self.input.len() {
            0
        } else {
            self.input[self.read_position]
        }
    }

    /// Whether the whole input has been consumed: used by drivers to stop
    /// asking for tokens after the end-of-input token came out.
    pub fn finished(&self) -> (r: bool)
        ensures
            r == (self.position > self.input@.len()),
    {
        self.position > self.input.len()
    }

    /// The next token of the input.  After the end of the input it returns
    /// the end-of-input token forever.
    pub fn next_token(&mut self) -> (tok: Token)
        ensures
            final(self).input@ == old(self).input@,
    {
        while self.ch == 32 || self.ch == 9 || self.ch == 10 || self.ch == 13
            invariant
                self.input@ == old(self).input@,
            decreases (if self.position <= self.input@.len() {
                self.input@.len() + 1 - self.position
            } else {
                0int
            }),
        {
            if self.position >= self.input.len() {
                self.ch = 0;
                break ;
            }
            let before = self.position;
            self.read_char();
            if self.position <= before || self.position > self.input.len() {
                break ;
            }
        }
        let tok = match self.ch {
            61 => {
                if self.peek_char() == 61 {
                    self.read_char();
                    Token::EQ
                } else {
                    Token::ASSIGN
                }
            },
            43 => Token::PLUS,
            45 => Token::MINUS,
            42 => {
                if self.peek_char() == 42 {
                    self.read_char();
                    Token::POWER
                } else {
                    Token::ASTERISK
                }
            },
            47 => Token::SLASH,
            33 => {
                if self.peek_char() == 61 {
                    self.read_char();
                    Token::NOTEQ
                } else {
                    Token::BANG
                }
            },
            60 => Token::LT,
            62 => Token::GT,
            44 => Token::COMMA,
            59 => Token::SEMICOLON,
            58 => Token::COLON,
            40 => Token::LPAREN,
            41 => Token::RPAREN,
            123 => Token::LBRACE,
            125 => Token::RBRACE,
            91 => Token::LBRACKET,
            93 => Token::RBRACKET,
            34 => self.read_string(),
            0 => Token::EOF,
            c => {
                if is_letter(c as char) {
                    let read_str = self.read_identifier();
                    let semi_tok = Token::is_str_keywords(read_str.as_str());
                    if let Some(tmp) = semi_tok {
                        tmp
                    } else {
                        Token::IDENT(read_str)
                    }
                } else if 48 <= c && c <= 57 {
                    self.read_number()
                } else {
                    Token::ILLIGAL
                }
            },
        };
        self.read_char();
        tok
    }

    /// Reads an identifier starting at the current byte: the longest run of
    /// letters, left as the current token when this returns.
    fn read_identifier(&mut self) -> (r: String)
        ensures
            final(self).input@ == old(self).input@,
    {
        let mut bytes: Vec<u8> = Vec::new();
        while self.position < self.input.len() && is_letter(self.ch as char)
            invariant
                self.input@ == old(self).input@,
                forall|j: int| 0 <= j < bytes@.len() ==> (#[trigger] bytes@[j]) < 128,
            decreases (if self.position <= self.input@.len() {
                self.input@.len() + 1 - self.position
            } else {
                0int
            }),
        {
            proof {
                assert(self.ch < 128) by {
                    assert(crate::token::is_letter_spec(self.ch as char));
                }
            }
            bytes.push(self.ch);
            let before = self.position;
            self.read_char();
            if self.position <= before || self.position > self.input.len() {
                break ;
            }
        }
        if self.position >= 1 {
            self.position = self.position - 1;
        }
        if self.read_position >= 1 {
            self.read_position = self.read_position - 1;
        }
        ascii_to_string(bytes)
    }

    /// Reads a string literal: the bytes after the opening quote, up to the
    /// closing quote or the end of the input.
    fn read_string(&mut self) -> (r: Token)
        ensures
            final(self).input@ == old(self).input@,
    {
        let mut bytes: Vec<u8> = Vec::new();
        loop
            invariant_except_break
                self.input@ == old(self).input@,
            ensures
                self.input@ == old(self).input@,
            decreases (if self.position <= self.input@.len() {
                self.input@.len() + 1 - self.position
            } else {
                0int
            }),
        {
            let before = self.position;
            self.read_char();
            if self.position <= before || self.position > self.input.len() {
                break ;
            }
            if self.ch == 34 || self.ch == 0 {
                break ;
            }
            bytes.push(self.ch);
        }
        Token::STRING(bytes_to_string(bytes))
    }

    /// Reads an integer literal: the longest run of digits, parsed as a
    /// 64-bit integer with wrap-around on overflow, left as the current
    /// token when this returns.
    fn read_number(&mut self) -> (r: Token)
        ensures
            final(self).input@ == old(self).input@,
    {
        let mut num: i64 = 0;
        while self.position < self.input.len() && 48 <= self.ch && self.ch <= 57
            invariant
                self.input@ == old(self).input@,
            decreases (if self.position <= self.input@.len() {
                self.input@.len() + 1 - self.position
            } else {
                0int
            }),
        {
            let d = (self.ch - 48) as i64;
            num = num.wrapping_mul(10).wrapping_add(d);
            let before = self.position;
            self.read_char();
            if self.position <= before || self.position > self.input.len() {
                break ;
            }
        }
        if self.position >= 1 {
            self.position = self.position - 1;
        }
        if self.read_position >= 1 {
            self.read_position = self.read_position - 1;
        }
        if self.peek_char() == 105 {
            self.read_char();
            Token::IMEGINARY(num)
        } else {
            Token::INT(num)
        }
    }
}

/// Builds text from ASCII bytes.
///
/// Relies on `String::from_utf8`: ASCII bytes decode to exactly the matching
/// characters.
#[verifier::external_body]
fn ascii_to_string(bytes: Vec<u8>) -> (r: String)
    requires
        forall|j: int| 0 <= j < bytes@.len() ==> bytes@[j] < 128,
    ensures
        r@ == Seq::new(bytes@.len(), |j: int| bytes@[j] as char),
{
    match String::from_utf8(bytes) {
        Ok(s) => s,
        Err(_) => String::new(),
    }
}

} // verus!
