//! The tree-walking evaluator.  It owns the environment arena and the
//! garbage collector and is proved to return, for every program, exactly the
//! state and value that the interpreter of [`crate::semantics`] assigns.

use crate::ast::{
    views_of_exprs, views_of_stmts, views_of_strings, BlockStmt, Expression, Program, Statement,
};
use crate::builtin::BuiltInFnt;
use crate::error::{MonkeyErr, MonkeyErrV};
use crate::evalerror::{EvalError, EvalErrorV};
use crate::gc::{gc_wf, views_of_slots, GCBox, GC};
use crate::object::{
    views_of_envs, views_of_objs, views_of_pairs, Environment, FunctionObj, HashKey, HashPair,
    Object, ObjectV,
};
use crate::semantics::{
    alloc_bindings_v, apply_function_v, bind_v, eval_block_v, eval_expr_v, eval_exprs_v,
    eval_hash_v, eval_ident_v, eval_index_v, eval_infix_v, eval_integer_infix_v, eval_prefix_v,
    eval_program_v, eval_statement_v, eval_string_infix_v, extended_fnt_env_v, gc_step_v,
    hash_insert_v, trunc_div, truthy_v, unwrap_return_v, StateV,
};
use crate::token::Token;
use vstd::prelude::*;

verus! {

broadcast use vstd::std_specs::vec::group_vec_axioms, vstd::seq::group_seq_axioms;

/// Whether an executable evaluation result and a mathematical one agree: the
/// values are equal, or both are the same evaluation error.
pub open spec fn res_matches(
    r: Result<Object, MonkeyErr>,
    v: Result<ObjectV, EvalErrorV>,
) -> bool {
    match (r, v) {
        (Ok(o), Ok(ov)) => o@ == ov,
        (Err(e), Err(ev)) => e@ == (MonkeyErrV::EvalErr { err: ev }),
        _ => false,
    }
}

/// The evaluator: the statement counter that paces collection passes, the
/// collector, and the arena of every environment created so far.
#[derive(Debug)]
pub struct Evaluator {
    pub gc_count: usize,
    pub gc: GC<Object>,
    pub envs: Vec<Environment>,
}

impl View for Evaluator {
    type V = StateV;

    open spec fn view(&self) -> StateV {
        StateV {
            envs: views_of_envs(self.envs@),
            slots: views_of_slots(self.gc.slots@),
            free: self.gc.free@,
            gc_count: self.gc_count as int,
        }
    }
}

impl Evaluator {
    /// Validity of the evaluator: the collector is well formed and the
    /// statement counter has not passed the collection threshold.
    pub open spec fn wf(&self) -> bool {
        &&& gc_wf(&self.gc)
        &&& self.gc_count <= 99
    }

    /// A fresh evaluator: empty heap, empty arena, counter at zero.
    pub fn new() -> (ev: Evaluator)
        ensures
            ev.wf(),
            ev@.envs == Seq::<crate::object::EnvV>::empty(),
            ev@.slots == Seq::<crate::gc::SlotV>::empty(),
            ev@.free == Seq::<usize>::empty(),
            ev@.gc_count == 0,
    {
        let ev = Evaluator { gc_count: 0, gc: GC::new(), envs: Vec::new() };
        proof {
            assert(ev@.envs =~= Seq::<crate::object::EnvV>::empty());
            assert(ev@.slots =~= Seq::<crate::gc::SlotV>::empty());
        }
        ev
    }

    /// Registers an environment in the arena and returns its handle.
    pub fn add_env(&mut self, e: Environment) -> (r: usize)
        requires
            old(self).wf(),
        ensures
            final(self).wf(),
            r as int == old(self)@.envs.len(),
            final(self)@.envs == old(self)@.envs.push(e@),
            final(self)@.slots == old(self)@.slots,
            final(self)@.free == old(self)@.free,
            final(self)@.gc_count == old(self)@.gc_count,
    {
        let r = self.envs.len();
        self.envs.push(e);
        proof {
            assert(self@.envs =~= old(self)@.envs.push(e@));
            assert(self@.slots =~= old(self)@.slots);
        }
        r
    }

    /// Evaluates a whole program in the environment `env`, returning its
    /// value or the first error: exactly what the mathematical interpreter
    /// assigns to it, at the evaluator's full recursion budget.
    #[verifier::rlimit(100)]
    pub fn eval(&mut self, program: &Program, env: usize) -> (r: Result<Object, MonkeyErr>)
        requires
            old(self).wf(),
        ensures
            final(self).wf(),
            ({
                let (st, res) = eval_program_v(
                    old(self)@,
                    env as int,
                    program@,
                    0,
                    ObjectV::Null,
                    u64::MAX as nat,
                );
                final(self)@ == st && res_matches(r, res)
            }),
    {
        let fuel: u64 = u64::MAX;
        let ghost st0 = self@;
        let ghost stmtsv = program@;
        let stmts = program.get_stmts();
        let n = stmts.len();
        proof {
            broadcast use crate::ast::lemma_views_of_stmts;

        }
        let mut result: Object = Object::Null;
        let mut i: usize = 0;
        while i < n
            invariant
                self.wf(),
                n == stmts@.len(),
                0 <= i <= n,
                stmtsv == views_of_stmts(stmts@),
                stmtsv == program@,
                st0 == old(self)@,
                stmtsv.len() == n,
                fuel == u64::MAX,
                !(result@ is ReturnValue),
                eval_program_v(st0, env as int, stmtsv, 0, ObjectV::Null, fuel as nat)
                    == eval_program_v(self@, env as int, stmtsv, i as int, result@, fuel as nat),
            decreases n - i,
        {
            proof {
                broadcast use crate::ast::lemma_views_of_stmts;

            }
            let ghost pre = self@;
            let ghost prevv = result@;
            let r = self.eval_statement(&stmts[i], env, fuel - 1);
            proof {
                crate::semantics::lemma_program_step(
                    pre,
                    env as int,
                    stmtsv,
                    i as int,
                    prevv,
                    fuel as nat,
                );
            }
            match r {
                Err(e) => {
                    return Err(e);
                },
                Ok(o) => {
                    if let Object::ReturnValue(b) = o {
                        return Ok(*b);
                    } else {
                        result = o;
                    }
                },
            }
            i += 1;
        }
        proof {
            crate::semantics::lemma_program_done(
                self@,
                env as int,
                stmtsv,
                i as int,
                result@,
                fuel as nat,
            );
        }
        Ok(result)
    }

    /// Evaluates the statements of a block from the start, pacing the
    /// collector between statements, mirroring the block rule of the
    /// mathematical interpreter.
    #[verifier::rlimit(100)]
    fn eval_block_stmts(&mut self, stmts: &BlockStmt, env: usize, fuel: u64) -> (r: Result<
        Object,
        MonkeyErr,
    >)
        requires
            old(self).wf(),
        ensures
            final(self).wf(),
            ({
                let (st, res) = eval_block_v(
                    old(self)@,
                    env as int,
                    views_of_stmts(stmts@),
                    0,
                    ObjectV::Null,
                    fuel as nat,
                );
                final(self)@ == st && res_matches(r, res)
            }),
        decreases fuel, 0int,
    {
        broadcast use crate::ast::lemma_views_of_stmts;

        let ghost st0 = self@;
        let ghost stmtsv = views_of_stmts(stmts@);
        if fuel == 0 {
            return Err(MonkeyErr::EvalErr { err: EvalError::RecursionLimit });
        }
        let n = stmts.len();
        let mut result: Object = Object::Null;
        let mut i: usize = 0;
        while i < n
            invariant
                self.wf(),
                n == stmts@.len(),
                0 <= i <= n,
                stmtsv == views_of_stmts(stmts@),
                st0 == old(self)@,
                stmtsv.len() == n,
                fuel >= 1,
                !(result@ is ReturnValue),
                eval_block_v(st0, env as int, stmtsv, 0, ObjectV::Null, fuel as nat)
                    == eval_block_v(self@, env as int, stmtsv, i as int, result@, fuel as nat),
            decreases n - i,
        {
            proof {
                broadcast use crate::ast::lemma_views_of_stmts;

            }
            let ghost pre = self@;
            let ghost prevv = result@;
            let r = self.eval_statement(&stmts[i], env, fuel - 1);
            proof {
                crate::semantics::lemma_block_step(
                    pre,
                    env as int,
                    stmtsv,
                    i as int,
                    prevv,
                    fuel as nat,
                );
            }
            match r {
                Err(e) => {
                    return Err(e);
                },
                Ok(o) => {
                    if let Object::ReturnValue(_) = &o {
                        return Ok(o);
                    }
                    result = o;
                },
            }
            self.run_gc_pacing(env);
            i += 1;
        }
        proof {
            crate::semantics::lemma_block_done(
                self@,
                env as int,
                stmtsv,
                i as int,
                result@,
                fuel as nat,
            );
        }
        Ok(result)
    }

    /// Advances the statement counter and, past the threshold, marks from
    /// the chain of `env` and sweeps, exactly as `gc_step_v` describes.
    fn run_gc_pacing(&mut self, env: usize)
        requires
            old(self).wf(),
        ensures
            final(self).wf(),
            final(self)@ == gc_step_v(old(self)@, env as int),
    {
        let ghost mid = self@;
        self.gc_count = self.gc_count + 1;
        if self.gc_count > 99 {
            GCBox::mark_env(&mut self.gc, &self.envs, env);
            self.gc.sweep();
            self.gc_count = 0;
        }
        proof {
            assert(self@ == gc_step_v(mid, env as int));
        }
    }

    /// Evaluates one statement, mirroring the statement rule of the
    /// mathematical interpreter.
    fn eval_statement(&mut self, stmt: &Statement, env: usize, fuel: u64) -> (r: Result<
        Object,
        MonkeyErr,
    >)
        requires
            old(self).wf(),
        ensures
            final(self).wf(),
            ({
                let (st, res) = eval_statement_v(old(self)@, env as int, stmt@, fuel as nat);
                final(self)@ == st && res_matches(r, res)
            }),
        decreases fuel, 0int,
    {
        if fuel == 0 {
            return Err(MonkeyErr::EvalErr { err: EvalError::RecursionLimit });
        }
        match stmt {
            Statement::ExpressionStmt { expression } => self.eval_expression(
                expression,
                env,
                fuel - 1,
            ),
            Statement::ReturnStmt { value } => {
                let r = self.eval_expression(value, env, fuel - 1)?;
                Ok(Object::ReturnValue(Box::new(r)))
            },
            Statement::LetStmt { name, value } => {
                let val = self.eval_expression(value, env, fuel - 1)?;
                if env < self.envs.len() {
                    let ghost mid = self@;
                    let ghost valv = val@;
                    let obj_ref = self.gc.add(GCBox::new(val));
                    let ghost after_alloc = self@;
                    proof {
                        let (slots, free, r0) = crate::semantics::alloc_v(
                            mid.slots,
                            mid.free,
                            valv,
                        );
                        assert(views_of_slots(self.gc.slots@) =~= slots);
                        assert(obj_ref == r0);
                    }
                    let e = &mut self.envs[env];
                    e.push(name.clone(), obj_ref);
                    proof {
                        assert(views_of_envs(self.envs@) =~= bind_v(mid, env as int, name@, valv)
                            .envs);
                        assert(self@ == bind_v(mid, env as int, name@, valv));
                    }
                    Ok(Object::DeclareVariable)
                } else {
                    Err(MonkeyErr::EvalErr { err: EvalError::InvalidAccess })
                }
            },
        }
    }

    /// Evaluates one expression, mirroring the expression rule of the
    /// mathematical interpreter.
    fn eval_expression(&mut self, expr: &Expression, env: usize, fuel: u64) -> (r: Result<
        Object,
        MonkeyErr,
    >)
        requires
            old(self).wf(),
        ensures
            final(self).wf(),
            ({
                let (st, res) = eval_expr_v(old(self)@, env as int, expr@, fuel as nat);
                final(self)@ == st && res_matches(r, res)
            }),
        decreases fuel, 0int,
    {
        if fuel == 0 {
            return Err(MonkeyErr::EvalErr { err: EvalError::RecursionLimit });
        }
        match expr {
            Expression::Ident(s) => self.eval_ident(s.as_str(), env),
            Expression::Integer(n) => Ok(Object::Integer(*n)),
            Expression::Boolean(b) => Ok(Object::Boolean(*b)),
            Expression::String(s) => Ok(Object::String(s.clone())),
            Expression::Array(es) => {
                let vals = self.eval_expressions(es, env, fuel - 1)?;
                Ok(Object::Array(vals))
            },
            Expression::Complex { .. } => Ok(Object::Null),
            Expression::Prefix { operator, right } => {
                let rv = self.eval_expression(&**right, env, fuel - 1)?;
                Self::eval_prefix_expression(operator, rv)
            },
            Expression::IfExpr { condition, consequence, alternative } => {
                let c = self.eval_expression(&**condition, env, fuel - 1)?;
                self.eval_if_expression(c, consequence, alternative.as_ref(), env, fuel - 1)
            },
            Expression::Infix { left, operator, right } => {
                let lv = self.eval_expression(&**left, env, fuel - 1)?;
                let rv = self.eval_expression(&**right, env, fuel - 1)?;
                Self::eval_infix_expression(lv, operator, rv)
            },
            Expression::Function { parameters, body } => Ok(
                Object::Function(FunctionObj::new(parameters, body, env)),
            ),
            Expression::Call { function, arguments } => {
                let fv = self.eval_expression(&**function, env, fuel - 1)?;
                let args = self.eval_expressions(arguments, env, fuel - 1)?;
                self.apply_function(fv, args, fuel - 1)
            },
            Expression::Hash { key, value } => self.eval_hash_literal(key, value, env, fuel - 1),
        }
    }

    /// Resolves an identifier: the live object bound in the scope chain,
    /// else the built-in of that name, else a name-resolution error.
    fn eval_ident(&self, name: &str, env: usize) -> (r: Result<Object, MonkeyErr>)
        ensures
            res_matches(r, eval_ident_v(self@, env as int, name@)),
    {
        match Environment::get(&self.envs, env, name) {
            Some(obj_ref) => match self.gc.try_read(obj_ref) {
                Some(obj) => Ok(obj.duplicate()),
                None => Err(MonkeyErr::EvalErr { err: EvalError::InvalidAccess }),
            },
            None => {
                let b = BuiltInFnt::from_name(name);
                if matches!(b, BuiltInFnt::NotBuiltIn) {
                    Err(
                        MonkeyErr::EvalErr {
                            err: EvalError::NameResolution { name: String::from_str(name) },
                        },
                    )
                } else {
                    Ok(Object::BuiltIn(b))
                }
            },
        }
    }

    /// Applies a prefix operator to an evaluated operand.
    fn eval_prefix_expression(operator: &Token, right: Object) -> (r: Result<Object, MonkeyErr>)
        ensures
            res_matches(r, eval_prefix_v(operator@, right@)),
    {
        match operator {
            Token::BANG => {
                let falsy = match &right {
                    Object::Null => true,
                    Object::Boolean(b) => !*b,
                    _ => false,
                };
                Ok(Object::Boolean(falsy))
            },
            Token::MINUS => match &right {
                Object::Integer(n) => {
                    if *n == i64::MIN {
                        Err(
                            MonkeyErr::EvalErr {
                                err: EvalError::Arithmetic {
                                    operator: Token::MINUS,
                                    left: 0,
                                    right: *n,
                                },
                            },
                        )
                    } else {
                        Ok(Object::Integer(-*n))
                    }
                },
                _ => Err(
                    MonkeyErr::EvalErr {
                        err: EvalError::UnknownPrefix { operator: Token::MINUS, right },
                    },
                ),
            },
            _ => Err(
                MonkeyErr::EvalErr {
                    err: EvalError::UnknownPrefix { operator: operator.duplicate(), right },
                },
            ),
        }
    }

    /// Applies an infix operator to two evaluated operands.
    fn eval_infix_expression(left: Object, operator: &Token, right: Object) -> (r: Result<
        Object,
        MonkeyErr,
    >)
        ensures
            res_matches(r, eval_infix_v(left@, operator@, right@)),
    {
        if matches!(operator, Token::LBRACKET) {
            return Self::eval_index_expression(left, right);
        }
        match (&left, &right) {
            (Object::Integer(l), Object::Integer(r)) => Self::eval_integer_infix_expression(
                *l,
                operator,
                *r,
            ),
            (Object::String(_), Object::String(_)) => Self::eval_string_infix_expression(
                left,
                operator,
                right,
            ),
            _ => {
                if !crate::token::str_equal(left.type_str(), right.type_str()) {
                    Err(
                        MonkeyErr::EvalErr {
                            err: EvalError::TypeMismatch {
                                left,
                                operator: operator.duplicate(),
                                right,
                            },
                        },
                    )
                } else {
                    match operator {
                        Token::EQ => {
                            let eq = left.equals(&right);
                            Ok(Object::Boolean(eq))
                        },
                        Token::NOTEQ => {
                            let eq = left.equals(&right);
                            Ok(Object::Boolean(!eq))
                        },
                        _ => Err(
                            MonkeyErr::EvalErr {
                                err: EvalError::UnknownInfix {
                                    left,
                                    operator: operator.duplicate(),
                                    right,
                                },
                            },
                        ),
                    }
                }
            },
        }
    }

    /// Applies an infix operator to two integers, reporting overflow and
    /// division by zero as arithmetic errors.
    fn eval_integer_infix_expression(lv: i64, operator: &Token, rv: i64) -> (r: Result<
        Object,
        MonkeyErr,
    >)
        ensures
            res_matches(r, eval_integer_infix_v(lv as int, operator@, rv as int)),
    {
        match operator {
            Token::PLUS => {
                let s = lv as i128 + rv as i128;
                if i64::MIN as i128 <= s && s <= i64::MAX as i128 {
                    Ok(Object::Integer(s as i64))
                } else {
                    Err(
                        MonkeyErr::EvalErr {
                            err: EvalError::Arithmetic {
                                operator: Token::PLUS,
                                left: lv,
                                right: rv,
                            },
                        },
                    )
                }
            },
            Token::MINUS => {
                let s = lv as i128 - rv as i128;
                if i64::MIN as i128 <= s && s <= i64::MAX as i128 {
                    Ok(Object::Integer(s as i64))
                } else {
                    Err(
                        MonkeyErr::EvalErr {
                            err: EvalError::Arithmetic {
                                operator: Token::MINUS,
                                left: lv,
                                right: rv,
                            },
                        },
                    )
                }
            },
            Token::ASTERISK => {
                proof {
                    assert((lv as int) * (rv as int) <= 0x4000_0000_0000_0000_0000_0000_0000_0000int
                        && (lv as int) * (rv as int)
                        >= -0x4000_0000_0000_0000_0000_0000_0000_0000int) by (nonlinear_arith)
                        requires
                            -0x8000_0000_0000_0000int <= lv as int <= 0x7fff_ffff_ffff_ffffint,
                            -0x8000_0000_0000_0000int <= rv as int <= 0x7fff_ffff_ffff_ffffint,
                    ;
                }
                let s = lv as i128 * rv as i128;
                if i64::MIN as i128 <= s && s <= i64::MAX as i128 {
                    Ok(Object::Integer(s as i64))
                } else {
                    Err(
                        MonkeyErr::EvalErr {
                            err: EvalError::Arithmetic {
                                operator: Token::ASTERISK,
                                left: lv,
                                right: rv,
                            },
                        },
                    )
                }
            },
            Token::SLASH => {
                if rv == 0 {
                    return Err(
                        MonkeyErr::EvalErr {
                            err: EvalError::Arithmetic {
                                operator: Token::SLASH,
                                left: lv,
                                right: rv,
                            },
                        },
                    );
                }
                let la: u64 = if lv >= 0 {
                    lv as u64
                } else {
                    ((-(lv + 1)) as u64) + 1
                };
                let ra: u64 = if rv >= 0 {
                    rv as u64
                } else {
                    ((-(rv + 1)) as u64) + 1
                };
                let q = la / ra;
                let negative = (lv < 0) != (rv < 0);
                proof {
                    assert(la as int == if lv < 0 {
                        -(lv as int)
                    } else {
                        lv as int
                    });
                    assert(ra as int == if rv < 0 {
                        -(rv as int)
                    } else {
                        rv as int
                    });
                    assert(q as int == la as int / ra as int);
                }
                if negative {
                    if q == 0x8000_0000_0000_0000u64 {
                        Ok(Object::Integer(i64::MIN))
                    } else {
                        Ok(Object::Integer(-(q as i64)))
                    }
                } else {
                    if q <= i64::MAX as u64 {
                        Ok(Object::Integer(q as i64))
                    } else {
                        Err(
                            MonkeyErr::EvalErr {
                                err: EvalError::Arithmetic {
                                    operator: Token::SLASH,
                                    left: lv,
                                    right: rv,
                                },
                            },
                        )
                    }
                }
            },
            Token::LT => Ok(Object::Boolean(lv < rv)),
            Token::GT => Ok(Object::Boolean(lv > rv)),
            Token::EQ => Ok(Object::Boolean(lv == rv)),
            Token::NOTEQ => Ok(Object::Boolean(lv != rv)),
            _ => Err(
                MonkeyErr::EvalErr {
                    err: EvalError::UnknownInfix {
                        left: Object::Integer(lv),
                        operator: operator.duplicate(),
                        right: Object::Integer(rv),
                    },
                },
            ),
        }
    }

    /// Applies an infix operator to two strings: only concatenation is
    /// defined.
    fn eval_string_infix_expression(left: Object, operator: &Token, right: Object) -> (r: Result<
        Object,
        MonkeyErr,
    >)
        requires
            left is String,
            right is String,
        ensures
            res_matches(
                r,
                eval_string_infix_v(left@->String_0, operator@, right@->String_0),
            ),
    {
        if !matches!(operator, Token::PLUS) {
            return Err(
                MonkeyErr::EvalErr {
                    err: EvalError::UnknownInfix { left, operator: operator.duplicate(), right },
                },
            );
        }
        match (left, right) {
            (Object::String(l), Object::String(r)) => {
                let mut out = l;
                out.append(r.as_str());
                Ok(Object::String(out))
            },
            _ => Err(MonkeyErr::EvalErr { err: EvalError::InvalidAccess }),
        }
    }

    /// Evaluates an index expression: an array indexed by an integer, out of
    /// range yielding `Null`, or a hash indexed by a hashable key, a missing
    /// key yielding `Null`.
    fn eval_index_expression(left: Object, right: Object) -> (r: Result<Object, MonkeyErr>)
        ensures
            res_matches(r, eval_index_v(left@, right@)),
    {
        broadcast use crate::object::lemma_views_of_objs, crate::object::lemma_views_of_pairs;

        match (&left, &right) {
            (Object::Array(arr), Object::Integer(idx)) => {
                proof {
                    crate::object::lemma_views_of_objs(arr@);
                }
                if *idx >= 0 && (*idx as u64) < (arr.len() as u64) {
                    let i = *idx as usize;
                    Ok(arr[i].duplicate())
                } else {
                    Ok(Object::Null)
                }
            },
            (Object::Hash(h), _) => {
                match right.hash_key() {
                    Some(k) => {
                        proof {
                            crate::object::lemma_views_of_pairs(h.pairs@);
                        }
                        match crate::object::hash_find(&h.pairs, k) {
                            Some(j) => Ok(h.pairs[j].1.value()),
                            None => Ok(Object::Null),
                        }
                    },
                    None => Err(MonkeyErr::EvalErr { err: EvalError::KeyError { key: right } }),
                }
            },
            _ => Err(MonkeyErr::EvalErr { err: EvalError::IndexNotSupported { left } }),
        }
    }

    /// Evaluates an `if` expression given its already evaluated condition:
    /// the consequence on a truthy value, else the alternative, else `Null`.
    fn eval_if_expression(
        &mut self,
        condition: Object,
        consequence: &BlockStmt,
        alternative: Option<&BlockStmt>,
        env: usize,
        fuel: u64,
    ) -> (r: Result<Object, MonkeyErr>)
        requires
            old(self).wf(),
        ensures
            final(self).wf(),
            ({
                let (st, res) = if truthy_v(condition@) {
                    eval_block_v(
                        old(self)@,
                        env as int,
                        views_of_stmts(consequence@),
                        0,
                        ObjectV::Null,
                        fuel as nat,
                    )
                } else {
                    match alternative {
                        Some(alt) => eval_block_v(
                            old(self)@,
                            env as int,
                            views_of_stmts(alt@),
                            0,
                            ObjectV::Null,
                            fuel as nat,
                        ),
                        None => (old(self)@, Ok(ObjectV::Null)),
                    }
                };
                final(self)@ == st && res_matches(r, res)
            }),
        decreases fuel, 1int,
    {
        let truthy = match &condition {
            Object::Null => false,
            Object::Boolean(b) => *b,
            _ => true,
        };
        if truthy {
            self.eval_block_stmts(consequence, env, fuel)
        } else {
            match alternative {
                Some(stmts) => self.eval_block_stmts(stmts, env, fuel),
                None => Ok(Object::Null),
            }
        }
    }

    /// Evaluates a list of expressions left to right, stopping at the first
    /// error.
    #[verifier::rlimit(100)]
    fn eval_expressions(&mut self, arguments: &Vec<Expression>, env: usize, fuel: u64) -> (r:
        Result<Vec<Object>, MonkeyErr>)
        requires
            old(self).wf(),
        ensures
            final(self).wf(),
            ({
                let (st, res) = eval_exprs_v(
                    old(self)@,
                    env as int,
                    views_of_exprs(arguments@),
                    0,
                    fuel as nat,
                );
                final(self)@ == st && match (r, res) {
                    (Ok(objs), Ok(vals)) => views_of_objs(objs@) == vals,
                    (Err(e), Err(ev)) => e@ == (MonkeyErrV::EvalErr { err: ev }),
                    _ => false,
                }
            }),
        decreases fuel, 0int,
    {
        broadcast use crate::ast::lemma_views_of_exprs, crate::object::lemma_views_of_objs;

        let ghost st0 = self@;
        let ghost esv = views_of_exprs(arguments@);
        if fuel == 0 {
            return Err(MonkeyErr::EvalErr { err: EvalError::RecursionLimit });
        }
        let n = arguments.len();
        let mut out: Vec<Object> = Vec::new();
        let mut i: usize = 0;
        proof {
            assert(views_of_objs(out@) =~= Seq::<ObjectV>::empty());
        }
        while i < n
            invariant
                self.wf(),
                n == arguments@.len(),
                0 <= i <= n,
                esv == views_of_exprs(arguments@),
                st0 == old(self)@,
                esv.len() == n,
                fuel >= 1,
                ({
                    let orig = eval_exprs_v(st0, env as int, esv, 0, fuel as nat);
                    let cont = eval_exprs_v(self@, env as int, esv, i as int, fuel as nat);
                    match cont.1 {
                        Ok(vs) => orig == (cont.0, Ok::<Seq<ObjectV>, EvalErrorV>(views_of_objs(out@) + vs)),
                        Err(e) => orig == (cont.0, Err::<Seq<ObjectV>, EvalErrorV>(e)),
                    }
                }),
            decreases n - i,
        {
            proof {
                broadcast use crate::ast::lemma_views_of_exprs;

            }
            let ghost pre = self@;
            let r = self.eval_expression(&arguments[i], env, fuel - 1);
            proof {
                crate::semantics::lemma_exprs_step(pre, env as int, esv, i as int, fuel as nat);
            }
            match r {
                Err(e) => {
                    return Err(e);
                },
                Ok(o) => {
                    let ghost ov = o@;
                    let ghost out0 = out@;
                    let ghost prefix = views_of_objs(out@);
                    out.push(o);
                    proof {
                        crate::object::lemma_views_of_objs(out@);
                        crate::object::lemma_views_of_objs(out0);
                        assert(views_of_objs(out@) =~= prefix.push(ov));
                        let cont1 = eval_exprs_v(self@, env as int, esv, i + 1, fuel as nat);
                        match cont1.1 {
                            Ok(vs) => {
                                assert((prefix + (seq![ov] + vs)) =~= (prefix.push(ov) + vs));
                            },
                            Err(_) => {},
                        }
                    }
                },
            }
            i += 1;
        }
        proof {
            crate::semantics::lemma_exprs_done(self@, env as int, esv, i as int, fuel as nat);
            assert(views_of_objs(out@) + Seq::<ObjectV>::empty() =~= views_of_objs(out@));
        }
        Ok(out)
    }

    /// Applies an evaluated callee to evaluated arguments: a function runs
    /// its body in a fresh scope, a built-in dispatches to the registry, and
    /// anything else is a not-callable error.
    fn apply_function(&mut self, fnt: Object, args: Vec<Object>, fuel: u64) -> (r: Result<
        Object,
        MonkeyErr,
    >)
        requires
            old(self).wf(),
        ensures
            final(self).wf(),
            ({
                let (st, res) = apply_function_v(
                    old(self)@,
                    fnt@,
                    views_of_objs(args@),
                    fuel as nat,
                );
                final(self)@ == st && res_matches(r, res)
            }),
        decreases fuel, 0int,
    {
        if fuel == 0 {
            return Err(MonkeyErr::EvalErr { err: EvalError::RecursionLimit });
        }
        match fnt {
            Object::Function(f) => {
                if f.env >= self.envs.len() {
                    return Err(MonkeyErr::EvalErr { err: EvalError::InvalidAccess });
                }
                let new_env = match self.extended_fnt_env(&f, args) {
                    Ok(idx) => idx,
                    Err(e) => {
                        return Err(e);
                    },
                };
                let evaluated = self.eval_block_stmts(&f.body, new_env, fuel - 1)?;
                Ok(Self::unwrap_return_value(evaluated))
            },
            Object::BuiltIn(b) => {
                let out = b.call(args);
                match out {
                    Ok(o) => Ok(o),
                    Err(e) => Err(e),
                }
            },
            other => Err(MonkeyErr::EvalErr { err: EvalError::NotCallable { callee: other } }),
        }
    }

    /// Builds the scope of a function application: a fresh environment
    /// enclosed by the function's defining scope, its parameters bound to
    /// the arguments positionally.  An arity mismatch is reported before any
    /// parameter is bound and leaves the evaluator untouched.
    fn extended_fnt_env(&mut self, function: &FunctionObj, args: Vec<Object>) -> (r: Result<
        usize,
        MonkeyErr,
    >)
        requires
            old(self).wf(),
        ensures
            final(self).wf(),
            ({
                let res = extended_fnt_env_v(old(self)@, function@, views_of_objs(args@));
                match (r, res) {
                    (Ok(idx), Ok((st, new_env))) => final(self)@ == st && idx as int == new_env,
                    (Err(e), Err(ev)) => final(self)@ == old(self)@ && e@ == (MonkeyErrV::EvalErr {
                        err: ev,
                    }),
                    _ => false,
                }
            }),
    {
        broadcast use crate::object::lemma_views_of_objs;

        let ghost st0 = self@;
        let ghost namesv = views_of_strings(function.parameters@);
        let ghost argsv = views_of_objs(args@);
        if function.parameters.len() != args.len() {
            return Err(
                MonkeyErr::EvalErr {
                    err: EvalError::Arity {
                        expected: function.parameters.len(),
                        got: args.len(),
                    },
                },
            );
        }
        let n = args.len();
        let mut env_obj = Environment::new_enclosed_env(function.env);
        let mut i: usize = 0;
        while i < n
            invariant
                self.wf(),
                n == args@.len() == function.parameters@.len(),
                0 <= i <= n,
                namesv == views_of_strings(function.parameters@),
                argsv == views_of_objs(args@),
                namesv.len() == n && argsv.len() == n,
                env_obj@.outer == Some(function.env as int),
                self@.envs == st0.envs,
                self@.gc_count == st0.gc_count,
                alloc_bindings_v(st0, Seq::empty(), namesv, argsv, 0) == alloc_bindings_v(
                    StateV { slots: self@.slots, free: self@.free, ..st0 },
                    env_obj@.store,
                    namesv,
                    argsv,
                    i as int,
                ),
            decreases n - i,
        {
            proof {
                crate::object::lemma_views_of_objs(args@);
            }
            let ghost pre = self@;
            let val = args[i].duplicate();
            let obj_ref = self.gc.add(GCBox::new(val));
            proof {
                let (slots, free, r0) = crate::semantics::alloc_v(pre.slots, pre.free, argsv[
                    i as int]);
                assert(views_of_slots(self.gc.slots@) =~= slots);
                assert(obj_ref == r0);
            }
            env_obj.push(args_name(function, i), obj_ref);
            i += 1;
        }
        let ghost (st1, storev) = alloc_bindings_v(st0, Seq::empty(), namesv, argsv, 0);
        proof {
            assert(env_obj@.store == storev);
            assert(st1.slots == self@.slots && st1.free == self@.free);
        }
        let idx = self.envs.len();
        self.envs.push(env_obj);
        proof {
            assert(views_of_envs(self.envs@) =~= st1.envs.push(
                crate::object::EnvV { store: storev, outer: Some(function.env as int) },
            ));
        }
        Ok(idx)
    }

    /// Unwraps a trailing return signal once: what a call hands back to its
    /// caller.
    fn unwrap_return_value(evaluated: Object) -> (r: Object)
        ensures
            r@ == unwrap_return_v(evaluated@),
    {
        if let Object::ReturnValue(obj) = evaluated {
            *obj
        } else {
            evaluated
        }
    }

    /// Evaluates a hash literal: key/value pairs in order, each key digested
    /// before its value is evaluated, a later pair overwriting an earlier
    /// one under an equal key.
    #[verifier::rlimit(100)]
    fn eval_hash_literal(
        &mut self,
        key: &Vec<Expression>,
        value: &Vec<Expression>,
        env: usize,
        fuel: u64,
    ) -> (r: Result<Object, MonkeyErr>)
        requires
            old(self).wf(),
        ensures
            final(self).wf(),
            ({
                let (st, res) = eval_hash_v(
                    old(self)@,
                    env as int,
                    views_of_exprs(key@),
                    views_of_exprs(value@),
                    0,
                    Seq::empty(),
                    fuel as nat,
                );
                final(self)@ == st && res_matches(r, res)
            }),
        decreases fuel, 0int,
    {
        broadcast use crate::ast::lemma_views_of_exprs, crate::object::lemma_views_of_pairs;

        let ghost st0 = self@;
        let ghost kv = views_of_exprs(key@);
        let ghost vv = views_of_exprs(value@);
        if fuel == 0 {
            return Err(MonkeyErr::EvalErr { err: EvalError::RecursionLimit });
        }
        let n = if key.len() <= value.len() {
            key.len()
        } else {
            value.len()
        };
        let mut pairs: Vec<(HashKey, HashPair)> = Vec::new();
        let mut i: usize = 0;
        proof {
            assert(views_of_pairs(pairs@) =~= Seq::<(HashKey, (ObjectV, ObjectV))>::empty());
        }
        while i < n
            invariant
                self.wf(),
                n == if key@.len() <= value@.len() {
                    key@.len()
                } else {
                    value@.len()
                },
                0 <= i <= n,
                kv == views_of_exprs(key@),
                vv == views_of_exprs(value@),
                st0 == old(self)@,
                kv.len() == key@.len() && vv.len() == value@.len(),
                fuel >= 1,
                eval_hash_v(st0, env as int, kv, vv, 0, Seq::empty(), fuel as nat) == eval_hash_v(
                    self@,
                    env as int,
                    kv,
                    vv,
                    i as int,
                    views_of_pairs(pairs@),
                    fuel as nat,
                ),
            decreases n - i,
        {
            proof {
                broadcast use crate::ast::lemma_views_of_exprs;

            }
            let ghost pre = self@;
            let ghost accv = views_of_pairs(pairs@);
            let rk = self.eval_expression(&key[i], env, fuel - 1);
            proof {
                crate::semantics::lemma_hash_step(
                    pre,
                    env as int,
                    kv,
                    vv,
                    i as int,
                    accv,
                    fuel as nat,
                );
            }
            let k_obj = match rk {
                Ok(o) => o,
                Err(e) => {
                    return Err(e);
                },
            };
            let hk = match k_obj.hash_key() {
                Some(hk) => hk,
                None => {
                    return Err(MonkeyErr::EvalErr { err: EvalError::KeyError { key: k_obj } });
                },
            };
            let rv = self.eval_expression(&value[i], env, fuel - 1);
            let v_obj = match rv {
                Ok(o) => o,
                Err(e) => {
                    return Err(e);
                },
            };
            let ghost before = views_of_pairs(pairs@);
            let ghost kov = k_obj@;
            let ghost vov = v_obj@;
            hash_table_insert(&mut pairs, hk, k_obj, v_obj);
            proof {
                assert(views_of_pairs(pairs@) == hash_insert_v(before, hk, (kov, vov)));
            }
            i += 1;
        }
        proof {
            crate::semantics::lemma_hash_done(
                self@,
                env as int,
                kv,
                vv,
                i as int,
                views_of_pairs(pairs@),
                fuel as nat,
            );
        }
        Ok(Object::Hash(crate::object::Hash { pairs }))
    }
}

/// A copy of the parameter name at position `i` of the function.
fn args_name(function: &FunctionObj, i: usize) -> (r: String)
    requires
        i < function.parameters@.len(),
    ensures
        r@ == views_of_strings(function.parameters@)[i as int],
{
    function.parameters[i].clone()
}

/// Inserts a pair under a derived key into the table: the first entry with
/// an equal key is overwritten in place, else the entry is appended.
fn hash_table_insert(pairs: &mut Vec<(HashKey, HashPair)>, k: HashKey, key_obj: Object, val_obj: Object)
    ensures
        views_of_pairs(final(pairs)@) == hash_insert_v(
            views_of_pairs(old(pairs)@),
            k,
            (key_obj@, val_obj@),
        ),
{
    broadcast use crate::object::lemma_views_of_pairs;

    let ghost before = views_of_pairs(old(pairs)@);
    let n = pairs.len();
    let mut j: usize = 0;
    while j < n
        invariant
            n == pairs@.len(),
            0 <= j <= n,
            pairs@ == old(pairs)@,
            before == views_of_pairs(pairs@),
            forall|jj: int| 0 <= jj < j ==> before[jj].0 != k,
        decreases n - j,
    {
        proof {
            crate::object::lemma_views_of_pairs(pairs@);
        }
        if pairs[j].0 == k {
            let ghost pre = pairs@;
            pairs[j] = (k, HashPair::new(key_obj, val_obj));
            proof {
                crate::object::lemma_views_of_pairs(pairs@);
                crate::object::lemma_views_of_pairs(pre);
                lemma_hash_insert_update(before, k, (key_obj@, val_obj@), j as int);
                assert(views_of_pairs(pairs@) =~= before.update(
                    j as int,
                    (k, (key_obj@, val_obj@)),
                ));
            }
            return ;
        }
        j += 1;
    }
    let ghost pre = pairs@;
    pairs.push((k, HashPair::new(key_obj, val_obj)));
    proof {
        crate::object::lemma_views_of_pairs(pairs@);
        crate::object::lemma_views_of_pairs(pre);
        lemma_hash_insert_append(before, k, (key_obj@, val_obj@));
        assert(views_of_pairs(pairs@) =~= before.push((k, (key_obj@, val_obj@))));
    }
}

/// If the first entry whose key equals `k` sits at position `j`, insertion
/// overwrites exactly that position.
proof fn lemma_hash_insert_update(
    acc: Seq<(HashKey, (ObjectV, ObjectV))>,
    k: HashKey,
    pair: (ObjectV, ObjectV),
    j: int,
)
    requires
        0 <= j < acc.len(),
        acc[j].0 == k,
        forall|jj: int| 0 <= jj < j ==> acc[jj].0 != k,
    ensures
        hash_insert_v(acc, k, pair) =~= acc.update(j, (k, pair)),
    decreases j,
{
    if j == 0 {
        assert(hash_insert_v(acc, k, pair) == seq![(k, pair)] + acc.drop_first());
    } else {
        assert(acc.drop_first()[j - 1].0 == k);
        assert(forall|jj: int| 0 <= jj < j - 1 ==> acc.drop_first()[jj].0 != k);
        lemma_hash_insert_update(acc.drop_first(), k, pair, j - 1);
        assert(hash_insert_v(acc, k, pair) == seq![acc[0]] + hash_insert_v(
            acc.drop_first(),
            k,
            pair,
        ));
    }
}

/// If no entry's key equals `k`, insertion appends the new entry.
proof fn lemma_hash_insert_append(
    acc: Seq<(HashKey, (ObjectV, ObjectV))>,
    k: HashKey,
    pair: (ObjectV, ObjectV),
)
    requires
        forall|jj: int| 0 <= jj < acc.len() ==> acc[jj].0 != k,
    ensures
        hash_insert_v(acc, k, pair) =~= acc.push((k, pair)),
    decreases acc.len(),
{
    if acc.len() > 0 {
        assert(forall|jj: int| 0 <= jj < acc.drop_first().len() ==> acc.drop_first()[jj].0 != k);
        lemma_hash_insert_append(acc.drop_first(), k, pair);
        assert(hash_insert_v(acc, k, pair) == seq![acc[0]] + hash_insert_v(
            acc.drop_first(),
            k,
            pair,
        ));
    }
}

} // verus!
