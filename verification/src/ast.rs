//! The abstract syntax tree produced by the parser and consumed by the
//! evaluator, together with the mathematical view of each node kind.

use crate::token::{Token, TokenV};
use vstd::prelude::*;

verus! {

broadcast use vstd::std_specs::vec::group_vec_axioms, vstd::seq::group_seq_axioms;

/// A block of statements, as found in function bodies and `if` arms.
pub type BlockStmt = Vec<Statement>;

/// A whole program: the ordered statements of one source text.
#[derive(Debug)]
pub struct Program {
    pub stmts: Vec<Statement>,
}

/// One statement: a `let` binding, a `return`, or a bare expression.
#[derive(Debug)]
pub enum Statement {
    LetStmt { name: String, value: Expression },
    ReturnStmt { value: Expression },
    ExpressionStmt { expression: Expression },
}

/// One expression node.
#[derive(Debug)]
pub enum Expression {
    Ident(String),
    String(String),
    Boolean(bool),
    Integer(i64),
    Array(Vec<Expression>),
    Complex { re: i64, im: i64 },
    Hash { key: Vec<Expression>, value: Vec<Expression> },
    Prefix { operator: Token, right: Box<Expression> },
    Infix { left: Box<Expression>, operator: Token, right: Box<Expression> },
    IfExpr { condition: Box<Expression>, consequence: BlockStmt, alternative: Option<BlockStmt> },
    Function { parameters: Vec<String>, body: BlockStmt },
    Call { function: Box<Expression>, arguments: Vec<Expression> },
}

/// The mathematical value of a [`Statement`].
pub enum StatementV {
    LetStmt { name: Seq<char>, value: ExpressionV },
    ReturnStmt { value: ExpressionV },
    ExpressionStmt { expression: ExpressionV },
}

/// The mathematical value of an [`Expression`].
pub enum ExpressionV {
    Ident(Seq<char>),
    String(Seq<char>),
    Boolean(bool),
    Integer(int),
    Array(Seq<ExpressionV>),
    Complex { re: int, im: int },
    Hash { key: Seq<ExpressionV>, value: Seq<ExpressionV> },
    Prefix { operator: TokenV, right: Box<ExpressionV> },
    Infix { left: Box<ExpressionV>, operator: TokenV, right: Box<ExpressionV> },
    IfExpr {
        condition: Box<ExpressionV>,
        consequence: Seq<StatementV>,
        alternative: Option<Seq<StatementV>>,
    },
    Function { parameters: Seq<Seq<char>>, body: Seq<StatementV> },
    Call { function: Box<ExpressionV>, arguments: Seq<ExpressionV> },
}

/// The views of the expressions of `s`, in order.
pub open spec fn views_of_exprs(s: Seq<Expression>) -> Seq<ExpressionV>
    decreases s,
{
    if s.len() == 0 {
        Seq::empty()
    } else {
        views_of_exprs(s.drop_last()).push(s.last()@)
    }
}

/// The views of the statements of `s`, in order.
pub open spec fn views_of_stmts(s: Seq<Statement>) -> Seq<StatementV>
    decreases s,
{
    if s.len() == 0 {
        Seq::empty()
    } else {
        views_of_stmts(s.drop_last()).push(s.last()@)
    }
}

/// The views of the strings of `s`, in order.
pub open spec fn views_of_strings(s: Seq<String>) -> Seq<Seq<char>> {
    Seq::new(s.len(), |i: int| s[i]@)
}

impl View for Expression {
    type V = ExpressionV;

    open spec fn view(&self) -> ExpressionV
        decreases self,
    {
        match self {
            Expression::Ident(s) => ExpressionV::Ident(s@),
            Expression::String(s) => ExpressionV::String(s@),
            Expression::Boolean(b) => ExpressionV::Boolean(*b),
            Expression::Integer(n) => ExpressionV::Integer(*n as int),
            Expression::Array(v) => ExpressionV::Array(views_of_exprs(v@)),
            Expression::Complex { re, im } => ExpressionV::Complex {
                re: *re as int,
                im: *im as int,
            },
            Expression::Hash { key, value } => ExpressionV::Hash {
                key: views_of_exprs(key@),
                value: views_of_exprs(value@),
            },
            Expression::Prefix { operator, right } => ExpressionV::Prefix {
                operator: operator@,
                right: Box::new((**right)@),
            },
            Expression::Infix { left, operator, right } => ExpressionV::Infix {
                left: Box::new((**left)@),
                operator: operator@,
                right: Box::new((**right)@),
            },
            Expression::IfExpr { condition, consequence, alternative } => ExpressionV::IfExpr {
                condition: Box::new((**condition)@),
                consequence: views_of_stmts(consequence@),
                alternative: match alternative {
                    Some(alt) => Some(views_of_stmts(alt@)),
                    None => None,
                },
            },
            Expression::Function { parameters, body } => ExpressionV::Function {
                parameters: views_of_strings(parameters@),
                body: views_of_stmts(body@),
            },
            Expression::Call { function, arguments } => ExpressionV::Call {
                function: Box::new((**function)@),
                arguments: views_of_exprs(arguments@),
            },
        }
    }
}

impl View for Statement {
    type V = StatementV;

    open spec fn view(&self) -> StatementV
        decreases self,
    {
        match self {
            Statement::LetStmt { name, value } => StatementV::LetStmt {
                name: name@,
                value: value@,
            },
            Statement::ReturnStmt { value } => StatementV::ReturnStmt { value: value@ },
            Statement::ExpressionStmt { expression } => StatementV::ExpressionStmt {
                expression: expression@,
            },
        }
    }
}

impl View for Program {
    type V = Seq<StatementV>;

    open spec fn view(&self) -> Seq<StatementV> {
        views_of_stmts(self.stmts@)
    }
}

/// `views_of_exprs` maps each element to its view.
pub broadcast proof fn lemma_views_of_exprs(s: Seq<Expression>)
    ensures
        (#[trigger] views_of_exprs(s)).len() == s.len(),
        forall|i: int| 0 <= i < s.len() ==> views_of_exprs(s)[i] == s[i]@,
    decreases s,
{
    if s.len() > 0 {
        lemma_views_of_exprs(s.drop_last());
        assert(views_of_exprs(s) == views_of_exprs(s.drop_last()).push(s.last()@));
    }
}

/// `views_of_stmts` maps each element to its view.
pub broadcast proof fn lemma_views_of_stmts(s: Seq<Statement>)
    ensures
        (#[trigger] views_of_stmts(s)).len() == s.len(),
        forall|i: int| 0 <= i < s.len() ==> views_of_stmts(s)[i] == s[i]@,
    decreases s,
{
    if s.len() > 0 {
        lemma_views_of_stmts(s.drop_last());
        assert(views_of_stmts(s) == views_of_stmts(s.drop_last()).push(s.last()@));
    }
}

impl Program {
    /// A program holding exactly `stmts`.
    pub fn new(stmts: Vec<Statement>) -> (p: Program)
        ensures
            p@ == views_of_stmts(stmts@),
    {
        Program { stmts }
    }

    /// The statements of the program, in order.
    pub fn get_stmts(&self) -> (r: &Vec<Statement>)
        ensures
            views_of_stmts(r@) == self@,
    {
        &self.stmts
    }

    /// Appends one statement at the end of the program.
    pub fn push(&mut self, stmt: Statement)
        ensures
            final(self)@ == old(self)@.push(stmt@),
    {
        proof {
            broadcast use lemma_views_of_stmts;

            assert(views_of_stmts(self.stmts@.push(stmt)) =~= views_of_stmts(self.stmts@).push(
                stmt@,
            ));
        }
        self.stmts.push(stmt);
    }
}

/// A copy of each string of `v`, in order.
pub fn duplicate_strings(v: &Vec<String>) -> (r: Vec<String>)
    ensures
        views_of_strings(r@) == views_of_strings(v@),
{
    let n = v.len();
    let mut out: Vec<String> = Vec::new();
    let mut i: usize = 0;
    while i < n
        invariant
            n == v@.len(),
            0 <= i <= n,
            out@.len() == i,
            forall|j: int| 0 <= j < i ==> out@[j]@ == v@[j]@,
        decreases n - i,
    {
        out.push(v[i].clone());
        i += 1;
    }
    proof {
        assert(views_of_strings(out@) =~= views_of_strings(v@));
    }
    out
}

/// A copy of the expression `e` whose value is the same.
pub fn duplicate_expr(e: &Expression) -> (r: Expression)
    ensures
        r@ == e@,
    decreases e,
{
    match e {
        Expression::Ident(s) => Expression::Ident(s.clone()),
        Expression::String(s) => Expression::String(s.clone()),
        Expression::Boolean(b) => Expression::Boolean(*b),
        Expression::Integer(n) => Expression::Integer(*n),
        Expression::Array(v) => Expression::Array(duplicate_exprs(v)),
        Expression::Complex { re, im } => Expression::Complex { re: *re, im: *im },
        Expression::Hash { key, value } => Expression::Hash {
            key: duplicate_exprs(key),
            value: duplicate_exprs(value),
        },
        Expression::Prefix { operator, right } => Expression::Prefix {
            operator: operator.duplicate(),
            right: Box::new(duplicate_expr(&**right)),
        },
        Expression::Infix { left, operator, right } => Expression::Infix {
            left: Box::new(duplicate_expr(&**left)),
            operator: operator.duplicate(),
            right: Box::new(duplicate_expr(&**right)),
        },
        Expression::IfExpr { condition, consequence, alternative } => Expression::IfExpr {
            condition: Box::new(duplicate_expr(&**condition)),
            consequence: duplicate_stmts(consequence),
            alternative: match alternative {
                Some(alt) => Some(duplicate_stmts(alt)),
                None => None,
            },
        },
        Expression::Function { parameters, body } => Expression::Function {
            parameters: duplicate_strings(parameters),
            body: duplicate_stmts(body),
        },
        Expression::Call { function, arguments } => Expression::Call {
            function: Box::new(duplicate_expr(&**function)),
            arguments: duplicate_exprs(arguments),
        },
    }
}

/// A copy of the statement `s` whose value is the same.
pub fn duplicate_stmt(s: &Statement) -> (r: Statement)
    ensures
        r@ == s@,
    decreases s,
{
    match s {
        Statement::LetStmt { name, value } => Statement::LetStmt {
            name: name.clone(),
            value: duplicate_expr(value),
        },
        Statement::ReturnStmt { value } => Statement::ReturnStmt { value: duplicate_expr(value) },
        Statement::ExpressionStmt { expression } => Statement::ExpressionStmt {
            expression: duplicate_expr(expression),
        },
    }
}

/// A copy of each expression of `v`, in order.
pub fn duplicate_exprs(v: &Vec<Expression>) -> (r: Vec<Expression>)
    ensures
        views_of_exprs(r@) == views_of_exprs(v@),
    decreases v,
{
    broadcast use lemma_views_of_exprs;

    let n = v.len();
    let mut out: Vec<Expression> = Vec::new();
    let mut i: usize = 0;
    while i < n
        invariant
            n == v@.len(),
            0 <= i <= n,
            out@.len() == i,
            forall|j: int| 0 <= j < i ==> out@[j]@ == v@[j]@,
        decreases n - i,
    {
        out.push(duplicate_expr(&v[i]));
        i += 1;
    }
    proof {
        assert(views_of_exprs(out@) =~= views_of_exprs(v@));
    }
    out
}

/// A copy of each statement of `v`, in order.
pub fn duplicate_stmts(v: &Vec<Statement>) -> (r: Vec<Statement>)
    ensures
        views_of_stmts(r@) == views_of_stmts(v@),
    decreases v,
{
    broadcast use lemma_views_of_stmts;

    let n = v.len();
    let mut out: Vec<Statement> = Vec::new();
    let mut i: usize = 0;
    while i < n
        invariant
            n == v@.len(),
            0 <= i <= n,
            out@.len() == i,
            forall|j: int| 0 <= j < i ==> out@[j]@ == v@[j]@,
        decreases n - i,
    {
        out.push(duplicate_stmt(&v[i]));
        i += 1;
    }
    proof {
        assert(views_of_stmts(out@) =~= views_of_stmts(v@));
    }
    out
}

/// Operator binding strength, weakest first.
#[derive(Debug, Clone, Copy, PartialEq, Eq, Structural)]
pub enum Precedence {
    LOWEST,
    EQUALS,
    LESSGREATER,
    SUM,
    PRODUCT,
    POWER,
    PREFIX,
    CALL,
    INDEX,
}

/// The numeric rank of a precedence level, for comparisons.
pub open spec fn prec_rank(p: Precedence) -> int {
    match p {
        Precedence::LOWEST => 0,
        Precedence::EQUALS => 1,
        Precedence::LESSGREATER => 2,
        Precedence::SUM => 3,
        Precedence::PRODUCT => 4,
        Precedence::POWER => 5,
        Precedence::PREFIX => 6,
        Precedence::CALL => 7,
        Precedence::INDEX => 8,
    }
}

/// The precedence that `t` binds with when it appears as an infix operator.
pub open spec fn precedence_of(t: TokenV) -> Precedence {
    match t {
        TokenV::EQ => Precedence::EQUALS,
        TokenV::NOTEQ => Precedence::EQUALS,
        TokenV::LT => Precedence::LESSGREATER,
        TokenV::GT => Precedence::LESSGREATER,
        TokenV::PLUS => Precedence::SUM,
        TokenV::MINUS => Precedence::SUM,
        TokenV::ASTERISK => Precedence::PRODUCT,
        TokenV::SLASH => Precedence::PRODUCT,
        TokenV::POWER => Precedence::POWER,
        TokenV::LPAREN => Precedence::CALL,
        TokenV::LBRACKET => Precedence::INDEX,
        _ => Precedence::LOWEST,
    }
}

impl Precedence {
    /// The numeric rank of this precedence level.
    pub fn rank(&self) -> (r: u8)
        ensures
            r == prec_rank(*self),
    {
        match self {
            Precedence::LOWEST => 0,
            Precedence::EQUALS => 1,
            Precedence::LESSGREATER => 2,
            Precedence::SUM => 3,
            Precedence::PRODUCT => 4,
            Precedence::POWER => 5,
            Precedence::PREFIX => 6,
            Precedence::CALL => 7,
            Precedence::INDEX => 8,
        }
    }

    /// The precedence that `tok` binds with as an infix operator.
    pub fn take_precedence(tok: &Token) -> (r: Precedence)
        ensures
            r == precedence_of(tok@),
    {
        match tok {
            Token::EQ => Precedence::EQUALS,
            Token::NOTEQ => Precedence::EQUALS,
            Token::LT => Precedence::LESSGREATER,
            Token::GT => Precedence::LESSGREATER,
            Token::PLUS => Precedence::SUM,
            Token::MINUS => Precedence::SUM,
            Token::ASTERISK => Precedence::PRODUCT,
            Token::SLASH => Precedence::PRODUCT,
            Token::POWER => Precedence::POWER,
            Token::LPAREN => Precedence::CALL,
            Token::LBRACKET => Precedence::INDEX,
            _ => Precedence::LOWEST,
        }
    }
}

} // verus!
