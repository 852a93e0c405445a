//! The small parser: `let` and `return` statements whose values are skipped,
//! and expression statements over integers, identifiers, prefix `!`/`-`, and
//! the binary operators.

use crate::error::MonkeyErr;
use crate::lexer::Lexer;
use crate::token::Token;
use vstd::prelude::*;

verus! {

broadcast use vstd::std_specs::vec::group_vec_axioms, vstd::seq::group_seq_axioms;

/// A parsed program of the small grammar: its statements in order.
pub type Program = Vec<Statement>;

/// One statement of the small grammar.  The values of `let` and `return`
/// statements are not parsed yet and read as `NoneVal`.
#[derive(Debug, PartialEq)]
pub enum Statement {
    LetStmt { name: String, value: Expression },
    ReturnStmt { value: Expression },
    ExpressionStmt { expression: Expression },
}

/// One expression of the small grammar.
#[derive(Debug, PartialEq)]
pub enum Expression {
    NoneVal,
    Ident(String),
    Integer(i64),
    Prefix { operator: Token, right: Box<Expression> },
    Infix { left: Box<Expression>, operator: Token, right: Box<Expression> },
}

/// Operator binding strength of the small grammar, weakest first.
#[derive(Debug, Clone, Copy, PartialEq, Eq, Structural)]
pub enum Precedence {
    LOWEST,
    EQUALS,
    LESSGREATER,
    SUM,
    PRODUCT,
    PREFIX,
    CALL,
}

/// The numeric rank of a precedence level, for comparisons.
fn prec_rank(p: Precedence) -> (r: u8) {
    match p {
        Precedence::LOWEST => 0,
        Precedence::EQUALS => 1,
        Precedence::LESSGREATER => 2,
        Precedence::SUM => 3,
        Precedence::PRODUCT => 4,
        Precedence::PREFIX => 5,
        Precedence::CALL => 6,
    }
}

/// The precedence that `tok` binds with as an infix operator.
fn take_precedence(tok: &Token) -> (r: Precedence) {
    match tok {
        Token::EQ => Precedence::EQUALS,
        Token::NOTEQ => Precedence::EQUALS,
        Token::LT => Precedence::LESSGREATER,
        Token::GT => Precedence::LESSGREATER,
        Token::PLUS => Precedence::SUM,
        Token::MINUS => Precedence::SUM,
        Token::ASTERISK => Precedence::PRODUCT,
        Token::SLASH => Precedence::PRODUCT,
        _ => Precedence::LOWEST,
    }
}

/// The parser of the small grammar: the token stream and a cursor into it.
#[derive(Debug)]
pub struct Parser {
    pub l: Vec<Token>,
    pub cur_position: usize,
}

impl Parser {
    /// Advances the cursor by one token.
    pub fn next_token(&mut self)
        ensures
            final(self).l@ == old(self).l@,
            final(self).cur_position >= old(self).cur_position,
    {
        if self.cur_position < usize::MAX {
            self.cur_position = self.cur_position + 1;
        }
    }

    /// The current token and the one after it; past the end both read as the
    /// end-of-input token.
    pub fn take_token(&self) -> (r: (&Token, &Token)) {
        let cur_tok = if self.cur_position >= self.l.len() {
            &Token::EOF
        } else {
            &self.l[self.cur_position]
        };
        let peek_tok = if self.cur_position >= usize::MAX || self.cur_position + 1 >= self.l.len() {
            &Token::EOF
        } else {
            &self.l[self.cur_position + 1]
        };
        (cur_tok, peek_tok)
    }

    /// A parser over every token the lexer produces.
    pub fn new(l: Lexer) -> (p: Parser) {
        let mut lx = l;
        let mut toks: Vec<Token> = Vec::new();
        loop
            invariant_except_break
                true,
            ensures
                true,
            decreases (if lx.position <= lx.input@.len() {
                lx.input@.len() + 1 - lx.position
            } else {
                0int
            }),
        {
            if lx.finished() {
                break ;
            }
            let before = lx.position;
            let t = lx.next_token();
            toks.push(t);
            if lx.position <= before || lx.position >= lx.input.len() {
                break ;
            }
        }
        Parser { l: toks, cur_position: 0 }
    }

    /// Parses the whole token stream into a program, stopping at the first
    /// token that fits no rule.
    pub fn parse_program(&mut self) -> (r: Result<Program, MonkeyErr>) {
        let mut program: Vec<Statement> = Vec::new();
        let n64 = self.l.len() as u64;
        let fuel: u64 = if n64 <= 0xffff_ffff_ffff_fffdu64 {
            n64 + 2
        } else {
            n64
        };
        loop
            invariant_except_break
                true,
            ensures
                true,
            decreases (if self.cur_position <= self.l@.len() {
                self.l@.len() + 1 - self.cur_position
            } else {
                0int
            }),
        {
            if self.cur_position >= self.l.len() {
                break ;
            }
            if matches!(self.take_token().0, Token::EOF) {
                break ;
            }
            let stmt = self.parse_statement(fuel)?;
            program.push(stmt);
            let before = self.cur_position;
            self.next_token();
            if self.cur_position <= before || self.cur_position > self.l.len() {
                break ;
            }
        }
        Ok(program)
    }

    /// Parses one statement, dispatching on the current token.
    fn parse_statement(&mut self, fuel: u64) -> (r: Result<Statement, MonkeyErr>)
        ensures
            final(self).l@ == old(self).l@,
            final(self).cur_position >= old(self).cur_position,
        decreases fuel,
    {
        if fuel == 0 {
            return Err(
                MonkeyErr::PrefixParseNoneErr { got: self.take_token().0.duplicate() },
            );
        }
        match self.take_token().0 {
            Token::LET => self.parse_let_stmt(fuel - 1),
            Token::RETURN => self.parse_return_stmt(fuel - 1),
            _ => self.parse_expression_stmt(fuel - 1),
        }
    }

    /// Parses `let <ident> = ...;`, skipping the value expression.
    fn parse_let_stmt(&mut self, fuel: u64) -> (r: Result<Statement, MonkeyErr>)
        ensures
            final(self).l@ == old(self).l@,
            final(self).cur_position >= old(self).cur_position,
        decreases fuel,
    {
        if !matches!(self.take_token().1, Token::IDENT(_)) {
            return Err(
                MonkeyErr::ParseTokDiffErr {
                    expected: Token::IDENT(String::new()),
                    got: self.take_token().1.duplicate(),
                },
            );
        }
        self.next_token();
        let name = match self.take_token().0 {
            Token::IDENT(s) => s.clone(),
            _ => String::new(),
        };
        if !matches!(self.take_token().1, Token::ASSIGN) {
            return Err(
                MonkeyErr::ParseTokDiffErr {
                    expected: Token::ASSIGN,
                    got: self.take_token().1.duplicate(),
                },
            );
        }
        self.next_token();
        self.skip_to_semicolon();
        Ok(Statement::LetStmt { name, value: Expression::NoneVal })
    }

    /// Parses `return ...;`, skipping the value expression.
    fn parse_return_stmt(&mut self, fuel: u64) -> (r: Result<Statement, MonkeyErr>)
        ensures
            final(self).l@ == old(self).l@,
            final(self).cur_position >= old(self).cur_position,
        decreases fuel,
    {
        self.next_token();
        self.skip_to_semicolon();
        Ok(Statement::ReturnStmt { value: Expression::NoneVal })
    }

    /// Advances the cursor up to the next semicolon, or the end of input.
    fn skip_to_semicolon(&mut self)
        ensures
            final(self).l@ == old(self).l@,
            final(self).cur_position >= old(self).cur_position,
    {
        loop
            invariant_except_break
                self.l@ == old(self).l@,
                self.cur_position >= old(self).cur_position,
            ensures
                self.l@ == old(self).l@,
                self.cur_position >= old(self).cur_position,
            decreases (if self.cur_position <= self.l@.len() {
                self.l@.len() + 1 - self.cur_position
            } else {
                0int
            }),
        {
            if self.cur_position >= self.l.len() {
                break ;
            }
            if matches!(self.take_token().0, Token::SEMICOLON | Token::EOF) {
                break ;
            }
            let before = self.cur_position;
            self.next_token();
            if self.cur_position <= before || self.cur_position > self.l.len() {
                break ;
            }
        }
    }

    /// Parses a bare expression statement up to its semicolon.
    fn parse_expression_stmt(&mut self, fuel: u64) -> (r: Result<Statement, MonkeyErr>)
        ensures
            final(self).l@ == old(self).l@,
            final(self).cur_position >= old(self).cur_position,
        decreases fuel,
    {
        if fuel == 0 {
            return Err(
                MonkeyErr::PrefixParseNoneErr { got: self.take_token().0.duplicate() },
            );
        }
        let expression = self.parse_expression(Precedence::LOWEST, fuel - 1)?;
        self.skip_to_semicolon();
        Ok(Statement::ExpressionStmt { expression })
    }

    /// Pratt-parses one expression at the given precedence.
    fn parse_expression(&mut self, prece: Precedence, fuel: u64) -> (r: Result<
        Expression,
        MonkeyErr,
    >)
        ensures
            final(self).l@ == old(self).l@,
            final(self).cur_position >= old(self).cur_position,
        decreases fuel,
    {
        if fuel == 0 {
            return Err(
                MonkeyErr::PrefixParseNoneErr { got: self.take_token().0.duplicate() },
            );
        }
        let mut left_exp = match self.take_token().0 {
            Token::IDENT(s) => Expression::Ident(s.clone()),
            Token::INT(n) => Expression::Integer(*n),
            Token::BANG | Token::MINUS => {
                let operator = self.take_token().0.duplicate();
                self.next_token();
                let right = Box::new(self.parse_expression(Precedence::PREFIX, fuel - 1)?);
                Expression::Prefix { operator, right }
            },
            other => {
                return Err(MonkeyErr::PrefixParseNoneErr { got: other.duplicate() });
            },
        };
        loop
            invariant_except_break
                self.l@ == old(self).l@,
                self.cur_position >= old(self).cur_position,
                fuel >= 1,
            ensures
                self.l@ == old(self).l@,
                self.cur_position >= old(self).cur_position,
            decreases (if self.cur_position <= self.l@.len() {
                self.l@.len() + 1 - self.cur_position
            } else {
                0int
            }),
        {
            if matches!(self.take_token().1, Token::SEMICOLON) {
                break ;
            }
            let peek_prec = take_precedence(self.take_token().1);
            if prec_rank(prece) >= prec_rank(peek_prec) {
                break ;
            }
            let is_infix = matches!(
                self.take_token().1,
                Token::PLUS | Token::MINUS | Token::ASTERISK | Token::SLASH | Token::EQ
                    | Token::NOTEQ | Token::LT | Token::GT
            );
            if !is_infix {
                return Err(
                    MonkeyErr::InfixParseNoneErr { got: self.take_token().1.duplicate() },
                );
            }
            let before = self.cur_position;
            self.next_token();
            if self.cur_position <= before {
                break ;
            }
            let operator = self.take_token().0.duplicate();
            let precedence = take_precedence(self.take_token().0);
            self.next_token();
            let right = Box::new(self.parse_expression(precedence, fuel - 1)?);
            left_exp = Expression::Infix { left: Box::new(left_exp), operator, right };
            if self.cur_position > self.l.len() {
                break ;
            }
        }
        Ok(left_exp)
    }
}

} // verus!
