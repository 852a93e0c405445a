//! The crate-wide error type.  Parsing errors carry the offending token;
//! evaluation errors carry a structured [`crate::evalerror::EvalError`].

use crate::evalerror::{EvalError, EvalErrorV};
use crate::token::{Token, TokenV};
use vstd::prelude::*;

verus! {

/// Every failure the interpreter can report.  `IOErr` and `FmtErr` describe
/// host input/output and formatting faults and are the only critical ones; the
/// rest are ordinary language errors that a driver reports and recovers from.
#[derive(Debug)]
pub enum MonkeyErr {
    IOErr { msg: String },
    FmtErr { msg: String },
    CannotConvertStringErr { got: Token },
    CannotConvertSymbolErr { got: Token },
    PrefixParseNoneErr { got: Token },
    InfixParseNoneErr { got: Token },
    ParseExprErr { expected: String, got: Token },
    ParseTokDiffErr { expected: Token, got: Token },
    EvalErr { err: EvalError },
}

/// The mathematical value of a [`MonkeyErr`].
pub enum MonkeyErrV {
    IOErr { msg: Seq<char> },
    FmtErr { msg: Seq<char> },
    CannotConvertStringErr { got: TokenV },
    CannotConvertSymbolErr { got: TokenV },
    PrefixParseNoneErr { got: TokenV },
    InfixParseNoneErr { got: TokenV },
    ParseExprErr { expected: Seq<char>, got: TokenV },
    ParseTokDiffErr { expected: TokenV, got: TokenV },
    EvalErr { err: EvalErrorV },
}

impl View for MonkeyErr {
    type V = MonkeyErrV;

    open spec fn view(&self) -> MonkeyErrV {
        match self {
            MonkeyErr::IOErr { msg } => MonkeyErrV::IOErr { msg: msg@ },
            MonkeyErr::FmtErr { msg } => MonkeyErrV::FmtErr { msg: msg@ },
            MonkeyErr::CannotConvertStringErr { got } => MonkeyErrV::CannotConvertStringErr {
                got: got@,
            },
            MonkeyErr::CannotConvertSymbolErr { got } => MonkeyErrV::CannotConvertSymbolErr {
                got: got@,
            },
            MonkeyErr::PrefixParseNoneErr { got } => MonkeyErrV::PrefixParseNoneErr { got: got@ },
            MonkeyErr::InfixParseNoneErr { got } => MonkeyErrV::InfixParseNoneErr { got: got@ },
            MonkeyErr::ParseExprErr { expected, got } => MonkeyErrV::ParseExprErr {
                expected: expected@,
                got: got@,
            },
            MonkeyErr::ParseTokDiffErr { expected, got } => MonkeyErrV::ParseTokDiffErr {
                expected: expected@,
                got: got@,
            },
            MonkeyErr::EvalErr { err } => MonkeyErrV::EvalErr { err: err@ },
        }
    }
}

impl MonkeyErr {
    /// Whether this error should end the hosting process: exactly the host
    /// input/output and formatting failures.
    pub fn is_critical_err(&self) -> (r: bool)
        ensures
            r == (self@ is IOErr || self@ is FmtErr),
    {
        matches!(self, MonkeyErr::IOErr { .. } | MonkeyErr::FmtErr { .. })
    }
}

} // verus!
