//! The mathematical meaning of evaluation: a fuelled, big-step interpreter
//! over the views of programs, objects, environments and the heap.  The
//! executable evaluator is proved to return exactly what these functions
//! compute.

use crate::ast::{ExpressionV, StatementV};
use crate::builtin::{builtin_call_v, builtin_of_name, BuiltInFnt};
use crate::evalerror::EvalErrorV;
use crate::gc::{
    freed_list, mark_chain_v, sweep_slots_v, valid_slot, SlotV,
};
use crate::object::{
    first_binding, hash_find_v, hash_key_of, lookup_in_chain, obj_eq_v, type_str_of, EnvV,
    FunctionObjV, HashKey, ObjRef, ObjectV,
};
use crate::token::TokenV;
use vstd::prelude::*;

verus! {

/// The whole interpreter state: the environment arena, the collector's heap
/// slots and free list, and the count of statements since the last sweep.
pub ghost struct StateV {
    pub envs: Seq<EnvV>,
    pub slots: Seq<SlotV>,
    pub free: Seq<usize>,
    pub gc_count: int,
}

/// The number of statements evaluated within blocks after which the
/// evaluator runs a collection pass.
pub const SWEEP_THRESHOLD: u64 = 99;

/// Whether a condition value selects the consequence branch: everything but
/// `Null` and `false` is truthy.
pub open spec fn truthy_v(c: ObjectV) -> bool {
    !(c is Null || c == ObjectV::Boolean(false))
}

/// The heap after allocating `val` into a fresh box, as the collector does
/// it: the last free slot is reused in its current generation, else a new
/// slot is appended.  Returns the new slots, the new free list, and the
/// handle of the box.
pub open spec fn alloc_v(slots: Seq<SlotV>, free: Seq<usize>, val: ObjectV) -> (
    Seq<SlotV>,
    Seq<usize>,
    ObjRef,
) {
    if free.len() > 0 {
        let idx = free.last();
        let g = slots[idx as int].gen;
        (
            slots.update(idx as int, SlotV { inner: val, is_marked: false, live: true, gen: g }),
            free.drop_last(),
            ObjRef { idx, gen: g },
        )
    } else {
        (
            slots.push(SlotV { inner: val, is_marked: false, live: true, gen: 0 }),
            free,
            ObjRef { idx: slots.len() as usize, gen: 0 },
        )
    }
}

/// The state after allocating `val` and binding it to `name` in environment
/// `env` of the arena.
pub open spec fn bind_v(st: StateV, env: int, name: Seq<char>, val: ObjectV) -> StateV {
    let (slots, free, r) = alloc_v(st.slots, st.free, val);
    let e = st.envs[env];
    StateV {
        envs: st.envs.update(env, EnvV { store: e.store.push((name, r)), outer: e.outer }),
        slots,
        free,
        gc_count: st.gc_count,
    }
}

/// The state after the bookkeeping that follows one block statement: the
/// statement counter grows, and once it passes the threshold the collector
/// marks from the chain of `env` and sweeps, and the counter starts over.
pub open spec fn gc_step_v(st: StateV, env: int) -> StateV {
    if st.gc_count + 1 > SWEEP_THRESHOLD as int {
        let marked = mark_chain_v(st.slots, st.envs, env);
        StateV {
            envs: st.envs,
            slots: sweep_slots_v(marked),
            free: st.free + freed_list(marked, marked.len() as int),
            gc_count: 0,
        }
    } else {
        StateV { gc_count: st.gc_count + 1, ..st }
    }
}

/// What an identifier evaluates to: the object behind its binding in the
/// chain of `env`, checked for liveness; failing that, the built-in of that
/// name; failing that, a name-resolution error.
pub open spec fn eval_ident_v(st: StateV, env: int, name: Seq<char>) -> Result<
    ObjectV,
    EvalErrorV,
> {
    match lookup_in_chain(st.envs, env, name) {
        Some(r) => if valid_slot(st.slots, r) {
            Ok(st.slots[r.idx as int].inner)
        } else {
            Err(EvalErrorV::InvalidAccess)
        },
        None => {
            if builtin_of_name(name) != BuiltInFnt::NotBuiltIn {
                Ok(ObjectV::BuiltIn(builtin_of_name(name)))
            } else {
                Err(EvalErrorV::NameResolution { name })
            }
        },
    }
}

/// What a prefix operator returns.  `!` maps the falsy values, exactly
/// `Null` and `false`, to `true` and everything else to `false`; `-` negates
/// an integer, reporting the one overflowing case as an arithmetic error,
/// and is an unknown-operator error on anything else, as is any other token.
pub open spec fn eval_prefix_v(op: TokenV, right: ObjectV) -> Result<ObjectV, EvalErrorV> {
    match op {
        TokenV::BANG => Ok(ObjectV::Boolean(!truthy_v(right))),
        TokenV::MINUS => match right {
            ObjectV::Integer(n) => if n == i64::MIN {
                Err(EvalErrorV::Arithmetic { operator: op, left: 0, right: n })
            } else {
                Ok(ObjectV::Integer(-n))
            },
            _ => Err(EvalErrorV::UnknownPrefix { operator: op, right }),
        },
        _ => Err(EvalErrorV::UnknownPrefix { operator: op, right }),
    }
}

/// Truncating division as the host integers divide: the quotient is rounded
/// toward zero.
pub open spec fn trunc_div(l: int, r: int) -> int {
    let la = if l < 0 {
        -l
    } else {
        l
    };
    let ra = if r < 0 {
        -r
    } else {
        r
    };
    let q = la / ra;
    if (l < 0) == (r < 0) {
        q
    } else {
        -q
    }
}

/// What an integer infix operator returns.  `+ - * /` compute the exact
/// mathematical result and report an arithmetic error when it leaves the
/// signed 64-bit range or when dividing by zero; the comparisons return
/// booleans; any other token is an unknown-operator error.
pub open spec fn eval_integer_infix_v(l: int, op: TokenV, r: int) -> Result<ObjectV, EvalErrorV> {
    match op {
        TokenV::PLUS => if i64::MIN <= l + r <= i64::MAX {
            Ok(ObjectV::Integer(l + r))
        } else {
            Err(EvalErrorV::Arithmetic { operator: op, left: l, right: r })
        },
        TokenV::MINUS => if i64::MIN <= l - r <= i64::MAX {
            Ok(ObjectV::Integer(l - r))
        } else {
            Err(EvalErrorV::Arithmetic { operator: op, left: l, right: r })
        },
        TokenV::ASTERISK => if i64::MIN <= l * r <= i64::MAX {
            Ok(ObjectV::Integer(l * r))
        } else {
            Err(EvalErrorV::Arithmetic { operator: op, left: l, right: r })
        },
        TokenV::SLASH => if r == 0 || !(i64::MIN <= trunc_div(l, r) <= i64::MAX) {
            Err(EvalErrorV::Arithmetic { operator: op, left: l, right: r })
        } else {
            Ok(ObjectV::Integer(trunc_div(l, r)))
        },
        TokenV::LT => Ok(ObjectV::Boolean(l < r)),
        TokenV::GT => Ok(ObjectV::Boolean(l > r)),
        TokenV::EQ => Ok(ObjectV::Boolean(l == r)),
        TokenV::NOTEQ => Ok(ObjectV::Boolean(l != r)),
        _ => Err(
            EvalErrorV::UnknownInfix {
                left: ObjectV::Integer(l),
                operator: op,
                right: ObjectV::Integer(r),
            },
        ),
    }
}

/// What a string infix operator returns: `+` concatenates, everything else
/// is an unknown-operator error.
pub open spec fn eval_string_infix_v(l: Seq<char>, op: TokenV, r: Seq<char>) -> Result<
    ObjectV,
    EvalErrorV,
> {
    if op == TokenV::PLUS {
        Ok(ObjectV::String(l + r))
    } else {
        Err(
            EvalErrorV::UnknownInfix {
                left: ObjectV::String(l),
                operator: op,
                right: ObjectV::String(r),
            },
        )
    }
}

/// What an index expression returns.  An integer into an array yields the
/// element, or `Null` out of range; any value into a hash is digested to a
/// key and yields the stored value, `Null` when the key is absent, or a key
/// error when the index is not hashable; indexing anything else is an error.
pub open spec fn eval_index_v(left: ObjectV, right: ObjectV) -> Result<ObjectV, EvalErrorV> {
    match (left, right) {
        (ObjectV::Array(a), ObjectV::Integer(i)) => if 0 <= i < a.len() {
            Ok(a[i])
        } else {
            Ok(ObjectV::Null)
        },
        (ObjectV::Hash(pairs), x) => match hash_key_of(x) {
            Some(k) => match hash_find_v(pairs, k) {
                Some(pair) => Ok(pair.1),
                None => Ok(ObjectV::Null),
            },
            None => Err(EvalErrorV::KeyError { key: x }),
        },
        _ => Err(EvalErrorV::IndexNotSupported { left }),
    }
}

/// What an infix expression returns.  The index operator dispatches first;
/// two integers and two strings go to their own operator tables; operands of
/// differing type names are a type mismatch; a same-typed pair supports only
/// `==` and `!=`, through structural equality.
pub open spec fn eval_infix_v(left: ObjectV, op: TokenV, right: ObjectV) -> Result<
    ObjectV,
    EvalErrorV,
> {
    if op == TokenV::LBRACKET {
        eval_index_v(left, right)
    } else {
        match (left, right) {
            (ObjectV::Integer(l), ObjectV::Integer(r)) => eval_integer_infix_v(l, op, r),
            (ObjectV::String(l), ObjectV::String(r)) => eval_string_infix_v(l, op, r),
            _ => {
                if type_str_of(left) != type_str_of(right) {
                    Err(EvalErrorV::TypeMismatch { left, operator: op, right })
                } else {
                    match op {
                        TokenV::EQ => Ok(ObjectV::Boolean(obj_eq_v(left, right))),
                        TokenV::NOTEQ => Ok(ObjectV::Boolean(!obj_eq_v(left, right))),
                        _ => Err(EvalErrorV::UnknownInfix { left, operator: op, right }),
                    }
                }
            },
        }
    }
}

/// Inserts a pair under a derived key into a hash table: the first entry
/// with an equal key is overwritten in place, else the entry is appended —
/// the last write to a key wins.
pub open spec fn hash_insert_v(
    acc: Seq<(HashKey, (ObjectV, ObjectV))>,
    k: HashKey,
    pair: (ObjectV, ObjectV),
) -> Seq<(HashKey, (ObjectV, ObjectV))>
    decreases acc.len(),
{
    if acc.len() == 0 {
        seq![(k, pair)]
    } else if acc[0].0 == k {
        seq![(k, pair)] + acc.drop_first()
    } else {
        seq![acc[0]] + hash_insert_v(acc.drop_first(), k, pair)
    }
}

/// The state and the bindings after allocating each argument into the heap
/// and binding it to the matching parameter name, left to right, starting at
/// position `i`.
pub open spec fn alloc_bindings_v(
    st: StateV,
    store: Seq<(Seq<char>, ObjRef)>,
    names: Seq<Seq<char>>,
    args: Seq<ObjectV>,
    i: int,
) -> (StateV, Seq<(Seq<char>, ObjRef)>)
    decreases names.len() - i,
{
    if i < 0 || i >= names.len() || i >= args.len() {
        (st, store)
    } else {
        let (slots, free, r) = alloc_v(st.slots, st.free, args[i]);
        alloc_bindings_v(
            StateV { slots, free, ..st },
            store.push((names[i], r)),
            names,
            args,
            i + 1,
        )
    }
}

/// The state and the new scope's arena index for a function application:
/// nothing changes and an arity error is reported when the argument count
/// differs from the parameter count — no parameter is bound; otherwise a
/// fresh environment enclosed by the function's defining environment is
/// pushed onto the arena, with every parameter bound to its argument.
pub open spec fn extended_fnt_env_v(st: StateV, f: FunctionObjV, args: Seq<ObjectV>) -> Result<
    (StateV, int),
    EvalErrorV,
> {
    if f.parameters.len() != args.len() {
        Err(EvalErrorV::Arity { expected: f.parameters.len() as int, got: args.len() as int })
    } else {
        let (st1, store) = alloc_bindings_v(st, Seq::empty(), f.parameters, args, 0);
        let new_env = EnvV { store, outer: Some(f.env) };
        Ok((StateV { envs: st1.envs.push(new_env), ..st1 }, st1.envs.len() as int))
    }
}

/// A trailing return-value signal unwrapped once: what a function call
/// returns to its caller.
pub open spec fn unwrap_return_v(o: ObjectV) -> ObjectV {
    match o {
        ObjectV::ReturnValue(b) => *b,
        _ => o,
    }
}

/// What one expression evaluates to in `st`, in scope `env`, together with
/// the successor state.  `fuel` bounds the depth of evaluation; an
/// exhausted budget reports a recursion-limit error.
pub open spec fn eval_expr_v(st: StateV, env: int, e: ExpressionV, fuel: nat) -> (
    StateV,
    Result<ObjectV, EvalErrorV>,
)
    decreases fuel, 0int, 0int,
{
    if fuel == 0 {
        (st, Err(EvalErrorV::RecursionLimit))
    } else {
        match e {
            ExpressionV::Ident(s) => (st, eval_ident_v(st, env, s)),
            ExpressionV::Integer(n) => (st, Ok(ObjectV::Integer(n))),
            ExpressionV::Boolean(b) => (st, Ok(ObjectV::Boolean(b))),
            ExpressionV::String(s) => (st, Ok(ObjectV::String(s))),
            ExpressionV::Array(es) => {
                let (st1, r) = eval_exprs_v(st, env, es, 0, (fuel - 1) as nat);
                match r {
                    Ok(vals) => (st1, Ok(ObjectV::Array(vals))),
                    Err(e) => (st1, Err(e)),
                }
            },
            ExpressionV::Prefix { operator, right } => {
                let (st1, r) = eval_expr_v(st, env, *right, (fuel - 1) as nat);
                match r {
                    Ok(v) => (st1, eval_prefix_v(operator, v)),
                    Err(e) => (st1, Err(e)),
                }
            },
            ExpressionV::IfExpr { condition, consequence, alternative } => {
                let (st1, r) = eval_expr_v(st, env, *condition, (fuel - 1) as nat);
                match r {
                    Ok(c) => if truthy_v(c) {
                        eval_block_v(st1, env, consequence, 0, ObjectV::Null, (fuel - 1) as nat)
                    } else {
                        match alternative {
                            Some(alt) => eval_block_v(
                                st1,
                                env,
                                alt,
                                0,
                                ObjectV::Null,
                                (fuel - 1) as nat,
                            ),
                            None => (st1, Ok(ObjectV::Null)),
                        }
                    },
                    Err(e) => (st1, Err(e)),
                }
            },
            ExpressionV::Infix { left, operator, right } => {
                let (st1, rl) = eval_expr_v(st, env, *left, (fuel - 1) as nat);
                match rl {
                    Ok(lv) => {
                        let (st2, rr) = eval_expr_v(st1, env, *right, (fuel - 1) as nat);
                        match rr {
                            Ok(rv) => (st2, eval_infix_v(lv, operator, rv)),
                            Err(e) => (st2, Err(e)),
                        }
                    },
                    Err(e) => (st1, Err(e)),
                }
            },
            ExpressionV::Function { parameters, body } => (
                st,
                Ok(ObjectV::Function(FunctionObjV { parameters, body, env })),
            ),
            ExpressionV::Call { function, arguments } => {
                let (st1, rf) = eval_expr_v(st, env, *function, (fuel - 1) as nat);
                match rf {
                    Ok(fv) => {
                        let (st2, ra) = eval_exprs_v(st1, env, arguments, 0, (fuel - 1) as nat);
                        match ra {
                            Ok(args) => apply_function_v(st2, fv, args, (fuel - 1) as nat),
                            Err(e) => (st2, Err(e)),
                        }
                    },
                    Err(e) => (st1, Err(e)),
                }
            },
            ExpressionV::Hash { key, value } => eval_hash_v(
                st,
                env,
                key,
                value,
                0,
                Seq::empty(),
                (fuel - 1) as nat,
            ),
            ExpressionV::Complex { .. } => (st, Ok(ObjectV::Null)),
        }
    }
}

/// What a list of expressions evaluates to, left to right, from position
/// `i`: the values in order, or the first error.
pub open spec fn eval_exprs_v(
    st: StateV,
    env: int,
    es: Seq<ExpressionV>,
    i: int,
    fuel: nat,
) -> (StateV, Result<Seq<ObjectV>, EvalErrorV>)
    decreases fuel, es.len() - i, 1int,
{
    if fuel == 0 {
        (st, Err(EvalErrorV::RecursionLimit))
    } else if i < 0 || i >= es.len() {
        (st, Ok(Seq::empty()))
    } else {
        let (st1, r) = eval_expr_v(st, env, es[i], (fuel - 1) as nat);
        match r {
            Ok(v) => {
                let (st2, rest) = eval_exprs_v(st1, env, es, i + 1, fuel);
                match rest {
                    Ok(vs) => (st2, Ok(seq![v] + vs)),
                    Err(e) => (st2, Err(e)),
                }
            },
            Err(e) => (st1, Err(e)),
        }
    }
}

/// What a hash literal evaluates to: key and value expressions in order,
/// pair by pair from position `i`, each key digested before its value is
/// evaluated, a later pair overwriting an earlier one under an equal key.
pub open spec fn eval_hash_v(
    st: StateV,
    env: int,
    keys: Seq<ExpressionV>,
    values: Seq<ExpressionV>,
    i: int,
    acc: Seq<(HashKey, (ObjectV, ObjectV))>,
    fuel: nat,
) -> (StateV, Result<ObjectV, EvalErrorV>)
    decreases fuel, keys.len() - i, 1int,
{
    let n = if keys.len() <= values.len() {
        keys.len() as int
    } else {
        values.len() as int
    };
    if fuel == 0 {
        (st, Err(EvalErrorV::RecursionLimit))
    } else if i < 0 || i >= n {
        (st, Ok(ObjectV::Hash(acc)))
    } else {
        let (st1, rk) = eval_expr_v(st, env, keys[i], (fuel - 1) as nat);
        match rk {
            Ok(kv) => match hash_key_of(kv) {
                None => (st1, Err(EvalErrorV::KeyError { key: kv })),
                Some(hk) => {
                    let (st2, rv) = eval_expr_v(st1, env, values[i], (fuel - 1) as nat);
                    match rv {
                        Ok(vv) => eval_hash_v(
                            st2,
                            env,
                            keys,
                            values,
                            i + 1,
                            hash_insert_v(acc, hk, (kv, vv)),
                            fuel,
                        ),
                        Err(e) => (st2, Err(e)),
                    }
                },
            },
            Err(e) => (st1, Err(e)),
        }
    }
}

/// What applying a callee to arguments returns.  A function value is checked
/// for arity and for the liveness of its defining scope, runs its body in a
/// fresh enclosed scope with the parameters bound positionally, and has a
/// trailing return-value signal unwrapped; a built-in dispatches to the
/// registry; anything else is a not-callable error.
pub open spec fn apply_function_v(st: StateV, f: ObjectV, args: Seq<ObjectV>, fuel: nat) -> (
    StateV,
    Result<ObjectV, EvalErrorV>,
)
    decreases fuel, 0int, 0int,
{
    if fuel == 0 {
        (st, Err(EvalErrorV::RecursionLimit))
    } else {
        match f {
            ObjectV::Function(fo) => {
                if !(0 <= fo.env < st.envs.len()) {
                    (st, Err(EvalErrorV::InvalidAccess))
                } else {
                    match extended_fnt_env_v(st, fo, args) {
                        Err(e) => (st, Err(e)),
                        Ok((st1, new_env)) => {
                            let (st2, r) = eval_block_v(
                                st1,
                                new_env,
                                fo.body,
                                0,
                                ObjectV::Null,
                                (fuel - 1) as nat,
                            );
                            match r {
                                Ok(o) => (st2, Ok(unwrap_return_v(o))),
                                Err(e) => (st2, Err(e)),
                            }
                        },
                    }
                }
            },
            ObjectV::BuiltIn(b) => (st, builtin_call_v(b, args)),
            _ => (st, Err(EvalErrorV::NotCallable { callee: f })),
        }
    }
}

/// What one statement evaluates to.  An expression statement is its
/// expression; a `return` wraps its value in the return signal; a `let`
/// evaluates its value, links it into the collector, binds it in the current
/// scope, and yields the printless declaration marker.
pub open spec fn eval_statement_v(st: StateV, env: int, stmt: StatementV, fuel: nat) -> (
    StateV,
    Result<ObjectV, EvalErrorV>,
)
    decreases fuel, 0int, 1int,
{
    if fuel == 0 {
        (st, Err(EvalErrorV::RecursionLimit))
    } else {
        match stmt {
            StatementV::ExpressionStmt { expression } => eval_expr_v(
                st,
                env,
                expression,
                (fuel - 1) as nat,
            ),
            StatementV::ReturnStmt { value } => {
                let (st1, r) = eval_expr_v(st, env, value, (fuel - 1) as nat);
                match r {
                    Ok(v) => (st1, Ok(ObjectV::ReturnValue(Box::new(v)))),
                    Err(e) => (st1, Err(e)),
                }
            },
            StatementV::LetStmt { name, value } => {
                let (st1, r) = eval_expr_v(st, env, value, (fuel - 1) as nat);
                match r {
                    Ok(v) => if 0 <= env < st1.envs.len() {
                        (bind_v(st1, env, name, v), Ok(ObjectV::DeclareVariable))
                    } else {
                        (st1, Err(EvalErrorV::InvalidAccess))
                    },
                    Err(e) => (st1, Err(e)),
                }
            },
        }
    }
}

/// What a block evaluates to, statement by statement from position `i`,
/// carrying the value of the last statement: a return signal stops the block
/// and is handed up unchanged; after every other statement the collector's
/// counter advances and may trigger a collection pass over the chain of
/// `env`.
pub open spec fn eval_block_v(
    st: StateV,
    env: int,
    stmts: Seq<StatementV>,
    i: int,
    prev: ObjectV,
    fuel: nat,
) -> (StateV, Result<ObjectV, EvalErrorV>)
    decreases fuel, stmts.len() - i, 2int,
{
    if fuel == 0 {
        (st, Err(EvalErrorV::RecursionLimit))
    } else if i < 0 || i >= stmts.len() {
        (st, Ok(prev))
    } else {
        let (st1, r) = eval_statement_v(st, env, stmts[i], (fuel - 1) as nat);
        match r {
            Ok(o) => if o is ReturnValue {
                (st1, Ok(o))
            } else {
                eval_block_v(gc_step_v(st1, env), env, stmts, i + 1, o, fuel)
            },
            Err(e) => (st1, Err(e)),
        }
    }
}

/// What a whole program evaluates to, statement by statement from position
/// `i`: a return signal is unwrapped and ends evaluation, otherwise the last
/// statement's value is the program's value.  The top level runs no
/// collection passes of its own.
pub open spec fn eval_program_v(
    st: StateV,
    env: int,
    stmts: Seq<StatementV>,
    i: int,
    prev: ObjectV,
    fuel: nat,
) -> (StateV, Result<ObjectV, EvalErrorV>)
    decreases fuel, stmts.len() - i, 2int,
{
    if fuel == 0 {
        (st, Err(EvalErrorV::RecursionLimit))
    } else if i < 0 || i >= stmts.len() {
        (st, Ok(prev))
    } else {
        let (st1, r) = eval_statement_v(st, env, stmts[i], (fuel - 1) as nat);
        match r {
            Ok(o) => match o {
                ObjectV::ReturnValue(b) => (st1, Ok(*b)),
                _ => eval_program_v(st1, env, stmts, i + 1, o, fuel),
            },
            Err(e) => (st1, Err(e)),
        }
    }
}

/// Law of arity: applying a function to a number of arguments different from
/// its parameter count always reports an arity error naming both counts, and
/// binds no parameter — the state is left exactly as it was.
pub proof fn lemma_arity_mismatch(st: StateV, f: FunctionObjV, args: Seq<ObjectV>, fuel: nat)
    requires
        f.parameters.len() != args.len(),
        fuel > 0,
        0 <= f.env < st.envs.len(),
    ensures
        extended_fnt_env_v(st, f, args) == Err::<(StateV, int), EvalErrorV>(
            EvalErrorV::Arity { expected: f.parameters.len() as int, got: args.len() as int },
        ),
        apply_function_v(st, ObjectV::Function(f), args, fuel) == (
            st,
            Err::<ObjectV, EvalErrorV>(
                EvalErrorV::Arity {
                    expected: f.parameters.len() as int,
                    got: args.len() as int,
                },
            ),
        ),
{
}

/// Binding the arguments of a call touches the heap alone: the environment
/// arena is left as it was.
pub proof fn lemma_alloc_bindings_envs(
    st: StateV,
    store: Seq<(Seq<char>, ObjRef)>,
    names: Seq<Seq<char>>,
    args: Seq<ObjectV>,
    i: int,
)
    ensures
        alloc_bindings_v(st, store, names, args, i).0.envs == st.envs,
        alloc_bindings_v(st, store, names, args, i).0.gc_count == st.gc_count,
    decreases names.len() - i,
{
    if !(i < 0 || i >= names.len() || i >= args.len()) {
        let (slots, free, r) = alloc_v(st.slots, st.free, args[i]);
        lemma_alloc_bindings_envs(
            StateV { slots, free, ..st },
            store.push((names[i], r)),
            names,
            args,
            i + 1,
        );
    }
}

/// A name resolves the same whether or not a fresh environment has been
/// appended to the arena, as long as resolution starts below the new entry.
pub proof fn lemma_lookup_frame(envs: Seq<EnvV>, e: EnvV, at: int, name: Seq<char>)
    requires
        0 <= at < envs.len(),
    ensures
        lookup_in_chain(envs.push(e), at, name) == lookup_in_chain(envs, at, name),
    decreases at,
{
    assert(envs.push(e)[at] == envs[at]);
    match envs[at].outer {
        Some(o) => {
            if 0 <= o < at {
                lemma_lookup_frame(envs, e, o, name);
            }
        },
        None => {},
    }
}

/// Law of closure capture: in the scope that a function application builds,
/// a name that is not among the bound parameters resolves against the
/// environment captured when the function value was created — not against
/// whatever scope the caller happens to be in.
pub proof fn lemma_closure_resolves_in_captured_scope(
    st: StateV,
    f: FunctionObjV,
    args: Seq<ObjectV>,
    name: Seq<char>,
)
    requires
        0 <= f.env < st.envs.len(),
        extended_fnt_env_v(st, f, args) is Ok,
    ensures
        ({
            let (st1, new_env) = extended_fnt_env_v(st, f, args)->Ok_0;
            &&& st1.envs[new_env].outer == Some(f.env)
            &&& (first_binding(st1.envs[new_env].store, name) is None
                ==> lookup_in_chain(st1.envs, new_env, name) == lookup_in_chain(
                st.envs,
                f.env,
                name,
            ))
        }),
{
    let (stb, store) = alloc_bindings_v(st, Seq::empty(), f.parameters, args, 0);
    lemma_alloc_bindings_envs(st, Seq::empty(), f.parameters, args, 0);
    let new_env_v = EnvV { store, outer: Some(f.env) };
    let (st1, new_env) = extended_fnt_env_v(st, f, args)->Ok_0;
    assert(st1.envs == st.envs.push(new_env_v));
    assert(st1.envs[new_env] == new_env_v);
    if first_binding(st1.envs[new_env].store, name) is None {
        lemma_lookup_frame(st.envs, new_env_v, f.env, name);
    }
}

/// Unfolds one step of program evaluation at a position inside the program.
pub proof fn lemma_program_step(
    st: StateV,
    env: int,
    stmts: Seq<StatementV>,
    i: int,
    prev: ObjectV,
    fuel: nat,
)
    requires
        fuel > 0,
        0 <= i < stmts.len(),
    ensures
        eval_program_v(st, env, stmts, i, prev, fuel) == ({
            let (st1, r) = eval_statement_v(st, env, stmts[i], (fuel - 1) as nat);
            match r {
                Ok(o) => match o {
                    ObjectV::ReturnValue(b) => (st1, Ok::<ObjectV, EvalErrorV>(*b)),
                    _ => eval_program_v(st1, env, stmts, i + 1, o, fuel),
                },
                Err(e) => (st1, Err::<ObjectV, EvalErrorV>(e)),
            }
        }),
{
}

/// Program evaluation past the last statement yields the carried value.
pub proof fn lemma_program_done(
    st: StateV,
    env: int,
    stmts: Seq<StatementV>,
    i: int,
    prev: ObjectV,
    fuel: nat,
)
    requires
        fuel > 0,
        i >= stmts.len(),
    ensures
        eval_program_v(st, env, stmts, i, prev, fuel) == (st, Ok::<ObjectV, EvalErrorV>(prev)),
{
}

/// Unfolds one step of block evaluation at a position inside the block.
pub proof fn lemma_block_step(
    st: StateV,
    env: int,
    stmts: Seq<StatementV>,
    i: int,
    prev: ObjectV,
    fuel: nat,
)
    requires
        fuel > 0,
        0 <= i < stmts.len(),
    ensures
        eval_block_v(st, env, stmts, i, prev, fuel) == ({
            let (st1, r) = eval_statement_v(st, env, stmts[i], (fuel - 1) as nat);
            match r {
                Ok(o) => if o is ReturnValue {
                    (st1, Ok::<ObjectV, EvalErrorV>(o))
                } else {
                    eval_block_v(gc_step_v(st1, env), env, stmts, i + 1, o, fuel)
                },
                Err(e) => (st1, Err::<ObjectV, EvalErrorV>(e)),
            }
        }),
{
}

/// Block evaluation past the last statement yields the carried value.
pub proof fn lemma_block_done(
    st: StateV,
    env: int,
    stmts: Seq<StatementV>,
    i: int,
    prev: ObjectV,
    fuel: nat,
)
    requires
        fuel > 0,
        i >= stmts.len(),
    ensures
        eval_block_v(st, env, stmts, i, prev, fuel) == (st, Ok::<ObjectV, EvalErrorV>(prev)),
{
}

/// Unfolds one step of expression-list evaluation at a position inside the
/// list.
pub proof fn lemma_exprs_step(st: StateV, env: int, es: Seq<ExpressionV>, i: int, fuel: nat)
    requires
        fuel > 0,
        0 <= i < es.len(),
    ensures
        eval_exprs_v(st, env, es, i, fuel) == ({
            let (st1, r) = eval_expr_v(st, env, es[i], (fuel - 1) as nat);
            match r {
                Ok(v) => {
                    let (st2, rest) = eval_exprs_v(st1, env, es, i + 1, fuel);
                    match rest {
                        Ok(vs) => (st2, Ok::<Seq<ObjectV>, EvalErrorV>(seq![v] + vs)),
                        Err(e) => (st2, Err::<Seq<ObjectV>, EvalErrorV>(e)),
                    }
                },
                Err(e) => (st1, Err::<Seq<ObjectV>, EvalErrorV>(e)),
            }
        }),
{
}

/// Expression-list evaluation past the last element yields no values.
pub proof fn lemma_exprs_done(st: StateV, env: int, es: Seq<ExpressionV>, i: int, fuel: nat)
    requires
        fuel > 0,
        i >= es.len(),
    ensures
        eval_exprs_v(st, env, es, i, fuel) == (
            st,
            Ok::<Seq<ObjectV>, EvalErrorV>(Seq::empty()),
        ),
{
}

/// Unfolds one step of hash-literal evaluation at a position inside the pair
/// list.
pub proof fn lemma_hash_step(
    st: StateV,
    env: int,
    keys: Seq<ExpressionV>,
    values: Seq<ExpressionV>,
    i: int,
    acc: Seq<(HashKey, (ObjectV, ObjectV))>,
    fuel: nat,
)
    requires
        fuel > 0,
        0 <= i < keys.len(),
        0 <= i < values.len(),
    ensures
        eval_hash_v(st, env, keys, values, i, acc, fuel) == ({
            let (st1, rk) = eval_expr_v(st, env, keys[i], (fuel - 1) as nat);
            match rk {
                Ok(kv) => match hash_key_of(kv) {
                    None => (st1, Err::<ObjectV, EvalErrorV>(EvalErrorV::KeyError { key: kv })),
                    Some(hk) => {
                        let (st2, rv) = eval_expr_v(st1, env, values[i], (fuel - 1) as nat);
                        match rv {
                            Ok(vv) => eval_hash_v(
                                st2,
                                env,
                                keys,
                                values,
                                i + 1,
                                hash_insert_v(acc, hk, (kv, vv)),
                                fuel,
                            ),
                            Err(e) => (st2, Err::<ObjectV, EvalErrorV>(e)),
                        }
                    },
                },
                Err(e) => (st1, Err::<ObjectV, EvalErrorV>(e)),
            }
        }),
{
}

/// Hash-literal evaluation past the last pair yields the table built so far.
pub proof fn lemma_hash_done(
    st: StateV,
    env: int,
    keys: Seq<ExpressionV>,
    values: Seq<ExpressionV>,
    i: int,
    acc: Seq<(HashKey, (ObjectV, ObjectV))>,
    fuel: nat,
)
    requires
        fuel > 0,
        i >= keys.len() || i >= values.len(),
    ensures
        eval_hash_v(st, env, keys, values, i, acc, fuel) == (
            st,
            Ok::<ObjectV, EvalErrorV>(ObjectV::Hash(acc)),
        ),
{
}

} // verus!
