//! The structured evaluation errors: one variant per failure category that
//! evaluating an expression can report.

use crate::builtin::BuiltInFnt;
use crate::object::{Object, ObjectV};
use crate::token::{Token, TokenV};
use vstd::prelude::*;

verus! {

/// Every failure category of evaluation.
///
/// `NameResolution` is an identifier found neither in scope nor among the
/// built-ins; `Arity` a call with the wrong argument count; `UnknownPrefix`
/// and `UnknownInfix` an operator undefined for its same-typed operands;
/// `TypeMismatch` an operator across differing operand types; `KeyError` a
/// non-hashable hash key; `NotCallable` a call of a value that is neither
/// function nor built-in; `IndexNotSupported` an index into a value that is
/// neither array nor hash; `WrongArgument` a built-in applied to a value of
/// the wrong type; `Arithmetic` an integer division by zero or an overflowing
/// integer operation; `InvalidAccess` a read through a handle whose target is
/// no longer live; `RecursionLimit` an evaluation deeper than the recursion
/// budget; `HostIO` a failure of a host input/output operation.
#[derive(Debug)]
pub enum EvalError {
    NameResolution { name: String },
    Arity { expected: usize, got: usize },
    UnknownPrefix { operator: Token, right: Object },
    UnknownInfix { left: Object, operator: Token, right: Object },
    TypeMismatch { left: Object, operator: Token, right: Object },
    KeyError { key: Object },
    NotCallable { callee: Object },
    IndexNotSupported { left: Object },
    WrongArgument { builtin: BuiltInFnt, got: Object },
    Arithmetic { operator: Token, left: i64, right: i64 },
    InvalidAccess,
    RecursionLimit,
    HostIO { msg: String },
}

/// The mathematical value of an [`EvalError`].
pub enum EvalErrorV {
    NameResolution { name: Seq<char> },
    Arity { expected: int, got: int },
    UnknownPrefix { operator: TokenV, right: ObjectV },
    UnknownInfix { left: ObjectV, operator: TokenV, right: ObjectV },
    TypeMismatch { left: ObjectV, operator: TokenV, right: ObjectV },
    KeyError { key: ObjectV },
    NotCallable { callee: ObjectV },
    IndexNotSupported { left: ObjectV },
    WrongArgument { builtin: BuiltInFnt, got: ObjectV },
    Arithmetic { operator: TokenV, left: int, right: int },
    InvalidAccess,
    RecursionLimit,
    HostIO { msg: Seq<char> },
}

impl View for EvalError {
    type V = EvalErrorV;

    open spec fn view(&self) -> EvalErrorV {
        match self {
            EvalError::NameResolution { name } => EvalErrorV::NameResolution { name: name@ },
            EvalError::Arity { expected, got } => EvalErrorV::Arity {
                expected: *expected as int,
                got: *got as int,
            },
            EvalError::UnknownPrefix { operator, right } => EvalErrorV::UnknownPrefix {
                operator: operator@,
                right: right@,
            },
            EvalError::UnknownInfix { left, operator, right } => EvalErrorV::UnknownInfix {
                left: left@,
                operator: operator@,
                right: right@,
            },
            EvalError::TypeMismatch { left, operator, right } => EvalErrorV::TypeMismatch {
                left: left@,
                operator: operator@,
                right: right@,
            },
            EvalError::KeyError { key } => EvalErrorV::KeyError { key: key@ },
            EvalError::NotCallable { callee } => EvalErrorV::NotCallable { callee: callee@ },
            EvalError::IndexNotSupported { left } => EvalErrorV::IndexNotSupported { left: left@ },
            EvalError::WrongArgument { builtin, got } => EvalErrorV::WrongArgument {
                builtin: *builtin,
                got: got@,
            },
            EvalError::Arithmetic { operator, left, right } => EvalErrorV::Arithmetic {
                operator: operator@,
                left: *left as int,
                right: *right as int,
            },
            EvalError::InvalidAccess => EvalErrorV::InvalidAccess,
            EvalError::RecursionLimit => EvalErrorV::RecursionLimit,
            EvalError::HostIO { msg } => EvalErrorV::HostIO { msg: msg@ },
        }
    }
}

} // verus!
