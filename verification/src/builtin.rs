//! The registry of host-provided built-in functions and their behaviour on
//! runtime objects.

use crate::error::MonkeyErr;
use crate::evalerror::{EvalError, EvalErrorV};
use crate::object::{views_of_objs, Object, ObjectV};
use vstd::prelude::*;

verus! {

broadcast use vstd::std_specs::vec::group_vec_axioms, vstd::seq::group_seq_axioms;

/// The tag of a built-in function, or `NotBuiltIn` for a name that is none.
#[derive(Debug, Clone, Copy, PartialEq, Eq, Structural)]
pub enum BuiltInFnt {
    NotBuiltIn,
    Len,
    First,
    Last,
    Rest,
    Push,
}

/// The name a built-in is called by; `NotBuiltIn` has the empty name.
pub open spec fn builtin_label(b: BuiltInFnt) -> Seq<char> {
    match b {
        BuiltInFnt::Len => "len"@,
        BuiltInFnt::First => "first"@,
        BuiltInFnt::Last => "last"@,
        BuiltInFnt::Rest => "rest"@,
        BuiltInFnt::Push => "push"@,
        BuiltInFnt::NotBuiltIn => ""@,
    }
}

/// The built-in that `s` names, or `NotBuiltIn`.
pub open spec fn builtin_of_name(s: Seq<char>) -> BuiltInFnt {
    if s == "len"@ {
        BuiltInFnt::Len
    } else if s == "first"@ {
        BuiltInFnt::First
    } else if s == "last"@ {
        BuiltInFnt::Last
    } else if s == "rest"@ {
        BuiltInFnt::Rest
    } else if s == "push"@ {
        BuiltInFnt::Push
    } else {
        BuiltInFnt::NotBuiltIn
    }
}

/// The value of `n` as the host's 64-bit signed integer: two's-complement
/// wrap-around of the low 64 bits.
pub open spec fn as_i64_wrap(n: int) -> int {
    if n % 0x1_0000_0000_0000_0000 < 0x8000_0000_0000_0000 {
        n % 0x1_0000_0000_0000_0000
    } else {
        n % 0x1_0000_0000_0000_0000 - 0x1_0000_0000_0000_0000
    }
}

/// What calling built-in `b` on `args` returns.
///
/// Every built-in but `push` takes one argument, `push` two; any other count
/// is an arity error that names both counts.  `len` returns the character
/// count of a string or the length of an array; `first`, `last` and `rest`
/// the first element, last element, or all-but-first of an array, `Null` when
/// it is empty; `push` a new array with one element appended, leaving its
/// argument unchanged.  Any argument of another type is a `WrongArgument`
/// error naming the built-in.  The `NotBuiltIn` tag returns `Null`.
pub open spec fn builtin_call_v(b: BuiltInFnt, args: Seq<ObjectV>) -> Result<ObjectV, EvalErrorV> {
    match b {
        BuiltInFnt::Len => {
            if args.len() != 1 {
                Err(EvalErrorV::Arity { expected: 1, got: args.len() as int })
            } else {
                match args[0] {
                    ObjectV::String(s) => Ok(ObjectV::Integer(as_i64_wrap(s.len() as int))),
                    ObjectV::Array(a) => Ok(ObjectV::Integer(as_i64_wrap(a.len() as int))),
                    x => Err(EvalErrorV::WrongArgument { builtin: BuiltInFnt::Len, got: x }),
                }
            }
        },
        BuiltInFnt::First => {
            if args.len() != 1 {
                Err(EvalErrorV::Arity { expected: 1, got: args.len() as int })
            } else {
                match args[0] {
                    ObjectV::Array(a) => if a.len() > 0 {
                        Ok(a[0])
                    } else {
                        Ok(ObjectV::Null)
                    },
                    x => Err(EvalErrorV::WrongArgument { builtin: BuiltInFnt::First, got: x }),
                }
            }
        },
        BuiltInFnt::Last => {
            if args.len() != 1 {
                Err(EvalErrorV::Arity { expected: 1, got: args.len() as int })
            } else {
                match args[0] {
                    ObjectV::Array(a) => if a.len() > 0 {
                        Ok(a.last())
                    } else {
                        Ok(ObjectV::Null)
                    },
                    x => Err(EvalErrorV::WrongArgument { builtin: BuiltInFnt::Last, got: x }),
                }
            }
        },
        BuiltInFnt::Rest => {
            if args.len() != 1 {
                Err(EvalErrorV::Arity { expected: 1, got: args.len() as int })
            } else {
                match args[0] {
                    ObjectV::Array(a) => if a.len() > 0 {
                        Ok(ObjectV::Array(a.drop_first()))
                    } else {
                        Ok(ObjectV::Null)
                    },
                    x => Err(EvalErrorV::WrongArgument { builtin: BuiltInFnt::Rest, got: x }),
                }
            }
        },
        BuiltInFnt::Push => {
            if args.len() != 2 {
                Err(EvalErrorV::Arity { expected: 2, got: args.len() as int })
            } else {
                match args[0] {
                    ObjectV::Array(a) => Ok(ObjectV::Array(a.push(args[1]))),
                    x => Err(EvalErrorV::WrongArgument { builtin: BuiltInFnt::Push, got: x }),
                }
            }
        },
        BuiltInFnt::NotBuiltIn => Ok(ObjectV::Null),
    }
}

/// The length `n` as the host's signed 64-bit integer, wrapping as the
/// host's narrowing conversion does.
fn host_length(n: usize) -> (r: i64)
    ensures
        r as int == as_i64_wrap(n as int),
{
    let nu = n as u64;
    if nu <= 0x7fff_ffff_ffff_ffffu64 {
        nu as i64
    } else {
        let m = nu - 0x8000_0000_0000_0000u64;
        i64::MIN + (m as i64)
    }
}

impl BuiltInFnt {
    /// The name this built-in is called by.
    pub fn name(&self) -> (r: &'static str)
        ensures
            r@ == builtin_label(*self),
    {
        match self {
            BuiltInFnt::Len => "len",
            BuiltInFnt::First => "first",
            BuiltInFnt::Last => "last",
            BuiltInFnt::Rest => "rest",
            BuiltInFnt::Push => "push",
            BuiltInFnt::NotBuiltIn => "",
        }
    }

    /// The built-in that `s` names, or `NotBuiltIn`.
    pub fn from_name(s: &str) -> (r: BuiltInFnt)
        ensures
            r == builtin_of_name(s@),
    {
        if crate::token::str_equal(s, "len") {
            BuiltInFnt::Len
        } else if crate::token::str_equal(s, "first") {
            BuiltInFnt::First
        } else if crate::token::str_equal(s, "last") {
            BuiltInFnt::Last
        } else if crate::token::str_equal(s, "rest") {
            BuiltInFnt::Rest
        } else if crate::token::str_equal(s, "push") {
            BuiltInFnt::Push
        } else {
            BuiltInFnt::NotBuiltIn
        }
    }

    /// Calls this built-in on `args` and returns exactly what
    /// [`builtin_call_v`] assigns to it.
    pub fn call(&self, args: Vec<Object>) -> (r: Result<Object, MonkeyErr>)
        ensures
            match (r, builtin_call_v(*self, views_of_objs(args@))) {
                (Ok(o), Ok(v)) => o@ == v,
                (Err(e), Err(ev)) => e@ == (crate::error::MonkeyErrV::EvalErr { err: ev }),
                _ => false,
            },
    {
        broadcast use crate::object::lemma_views_of_objs;

        let ghost av = views_of_objs(args@);
        proof {
            crate::object::lemma_views_of_objs(args@);
        }
        match self {
            BuiltInFnt::Len => {
                if args.len() != 1 {
                    return Err(
                        MonkeyErr::EvalErr {
                            err: EvalError::Arity { expected: 1, got: args.len() },
                        },
                    );
                }
                match &args[0] {
                    Object::String(s) => {
                        let n = s.as_str().unicode_len();
                        proof {
                            assert(av.len() == 1);
                            assert(av[0] == ObjectV::String(s@));
                            assert(builtin_call_v(*self, av) == Ok::<ObjectV, EvalErrorV>(
                                ObjectV::Integer(as_i64_wrap(s@.len() as int)),
                            ));
                        }
                        Ok(Object::Integer(host_length(n)))
                    },
                    Object::Array(a) => {
                        proof {
                            crate::object::lemma_views_of_objs(a@);
                        }
                        let n = a.len();
                        Ok(Object::Integer(host_length(n)))
                    },
                    _ => Err(
                        MonkeyErr::EvalErr {
                            err: EvalError::WrongArgument {
                                builtin: BuiltInFnt::Len,
                                got: args[0].duplicate(),
                            },
                        },
                    ),
                }
            },
            BuiltInFnt::First => {
                if args.len() != 1 {
                    return Err(
                        MonkeyErr::EvalErr {
                            err: EvalError::Arity { expected: 1, got: args.len() },
                        },
                    );
                }
                match &args[0] {
                    Object::Array(a) => {
                        proof {
                            crate::object::lemma_views_of_objs(a@);
                        }
                        if a.len() > 0 {
                            Ok(a[0].duplicate())
                        } else {
                            Ok(Object::Null)
                        }
                    },
                    _ => Err(
                        MonkeyErr::EvalErr {
                            err: EvalError::WrongArgument {
                                builtin: BuiltInFnt::First,
                                got: args[0].duplicate(),
                            },
                        },
                    ),
                }
            },
            BuiltInFnt::Last => {
                if args.len() != 1 {
                    return Err(
                        MonkeyErr::EvalErr {
                            err: EvalError::Arity { expected: 1, got: args.len() },
                        },
                    );
                }
                match &args[0] {
                    Object::Array(a) => {
                        proof {
                            crate::object::lemma_views_of_objs(a@);
                        }
                        if a.len() > 0 {
                            Ok(a[a.len() - 1].duplicate())
                        } else {
                            Ok(Object::Null)
                        }
                    },
                    _ => Err(
                        MonkeyErr::EvalErr {
                            err: EvalError::WrongArgument {
                                builtin: BuiltInFnt::Last,
                                got: args[0].duplicate(),
                            },
                        },
                    ),
                }
            },
            BuiltInFnt::Rest => {
                if args.len() != 1 {
                    return Err(
                        MonkeyErr::EvalErr {
                            err: EvalError::Arity { expected: 1, got: args.len() },
                        },
                    );
                }
                match &args[0] {
                    Object::Array(a) => {
                        proof {
                            crate::object::lemma_views_of_objs(a@);
                        }
                        if a.len() > 0 {
                            let n = a.len();
                            let mut out: Vec<Object> = Vec::new();
                            let mut i: usize = 1;
                            while i < n
                                invariant
                                    n == a@.len(),
                                    1 <= i <= n,
                                    out@.len() == i - 1,
                                    forall|j: int| 0 <= j < i - 1 ==> out@[j]@ == a@[j + 1]@,
                                decreases n - i,
                            {
                                out.push(a[i].duplicate());
                                i += 1;
                            }
                            proof {
                                crate::object::lemma_views_of_objs(out@);
                                crate::object::lemma_views_of_objs(a@);
                                assert(views_of_objs(out@) =~= views_of_objs(a@).drop_first());
                            }
                            Ok(Object::Array(out))
                        } else {
                            Ok(Object::Null)
                        }
                    },
                    _ => Err(
                        MonkeyErr::EvalErr {
                            err: EvalError::WrongArgument {
                                builtin: BuiltInFnt::Rest,
                                got: args[0].duplicate(),
                            },
                        },
                    ),
                }
            },
            BuiltInFnt::Push => {
                if args.len() != 2 {
                    return Err(
                        MonkeyErr::EvalErr {
                            err: EvalError::Arity { expected: 2, got: args.len() },
                        },
                    );
                }
                match &args[0] {
                    Object::Array(a) => {
                        let mut out = crate::object::duplicate_objs(a);
                        out.push(args[1].duplicate());
                        proof {
                            crate::object::lemma_views_of_objs(out@);
                            crate::object::lemma_views_of_objs(a@);
                            assert(views_of_objs(out@) =~= views_of_objs(a@).push(av[1]));
                        }
                        Ok(Object::Array(out))
                    },
                    _ => Err(
                        MonkeyErr::EvalErr {
                            err: EvalError::WrongArgument {
                                builtin: BuiltInFnt::Push,
                                got: args[0].duplicate(),
                            },
                        },
                    ),
                }
            },
            BuiltInFnt::NotBuiltIn => Ok(Object::Null),
        }
    }
}

} // verus!
