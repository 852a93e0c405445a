use monkey::ast::{Expression, Program, Statement};
use monkey::error::MonkeyErr;
use monkey::evalerror::EvalError;
use monkey::evaluator::Evaluator;
use monkey::object::{Environment, Object};
use monkey::token::Token;

fn run(stmts: Vec<Statement>) -> Result<Object, MonkeyErr> {
    let mut ev = Evaluator::new();
    let env = ev.add_env(Environment::new());
    let program = Program::new(stmts);
    ev.eval(&program, env)
}

fn expr(e: Expression) -> Statement {
    Statement::ExpressionStmt { expression: e }
}

fn ilit(n: i64) -> Expression {
    Expression::Integer(n)
}

fn infix(l: Expression, op: Token, r: Expression) -> Expression {
    Expression::Infix {
        left: Box::new(l),
        operator: op,
        right: Box::new(r),
    }
}

#[test]
fn five_plus_five_times_two() {
    // 5 + 5 * 2
    let e = infix(ilit(5), Token::PLUS, infix(ilit(5), Token::ASTERISK, ilit(2)));
    let out = run(vec![expr(e)]).unwrap();
    assert!(matches!(out, Object::Integer(15)));
}

#[test]
fn let_bindings_carry_values() {
    // let a = 5; let b = a; b;
    let stmts = vec![
        Statement::LetStmt {
            name: "a".to_string(),
            value: ilit(5),
        },
        Statement::LetStmt {
            name: "b".to_string(),
            value: Expression::Ident("a".to_string()),
        },
        expr(Expression::Ident("b".to_string())),
    ];
    let out = run(stmts).unwrap();
    assert!(matches!(out, Object::Integer(5)));
}

#[test]
fn if_else_takes_alternative() {
    // if (1 > 2) { 10 } else { 20 }
    let e = Expression::IfExpr {
        condition: Box::new(infix(ilit(1), Token::GT, ilit(2))),
        consequence: vec![expr(ilit(10))],
        alternative: Some(vec![expr(ilit(20))]),
    };
    let out = run(vec![expr(e)]).unwrap();
    assert!(matches!(out, Object::Integer(20)));
}

#[test]
fn immediate_function_call() {
    // fn(x) { x + 2; }(5)
    let f = Expression::Function {
        parameters: vec!["x".to_string()],
        body: vec![expr(infix(
            Expression::Ident("x".to_string()),
            Token::PLUS,
            ilit(2),
        ))],
    };
    let call = Expression::Call {
        function: Box::new(f),
        arguments: vec![ilit(5)],
    };
    let out = run(vec![expr(call)]).unwrap();
    assert!(matches!(out, Object::Integer(7)));
}

#[test]
fn closure_captures_definition_scope() {
    // let newAdder = fn(x) { fn(y) { x + y; }; };
    // let addTwo = newAdder(2);
    // addTwo(3);
    let inner = Expression::Function {
        parameters: vec!["y".to_string()],
        body: vec![expr(infix(
            Expression::Ident("x".to_string()),
            Token::PLUS,
            Expression::Ident("y".to_string()),
        ))],
    };
    let outer = Expression::Function {
        parameters: vec!["x".to_string()],
        body: vec![expr(inner)],
    };
    let stmts = vec![
        Statement::LetStmt {
            name: "newAdder".to_string(),
            value: outer,
        },
        Statement::LetStmt {
            name: "addTwo".to_string(),
            value: Expression::Call {
                function: Box::new(Expression::Ident("newAdder".to_string())),
                arguments: vec![ilit(2)],
            },
        },
        expr(Expression::Call {
            function: Box::new(Expression::Ident("addTwo".to_string())),
            arguments: vec![ilit(3)],
        }),
    ];
    let out = run(stmts).unwrap();
    assert!(matches!(out, Object::Integer(5)));
}

#[test]
fn len_builtin() {
    // len("four"); len(1); len("one", "two")
    let good = Expression::Call {
        function: Box::new(Expression::Ident("len".to_string())),
        arguments: vec![Expression::String("four".to_string())],
    };
    let out = run(vec![expr(good)]).unwrap();
    assert!(matches!(out, Object::Integer(4)));

    let bad_type = Expression::Call {
        function: Box::new(Expression::Ident("len".to_string())),
        arguments: vec![ilit(1)],
    };
    let err = run(vec![expr(bad_type)]).unwrap_err();
    assert!(matches!(
        err,
        MonkeyErr::EvalErr {
            err: EvalError::WrongArgument { .. }
        }
    ));

    let bad_arity = Expression::Call {
        function: Box::new(Expression::Ident("len".to_string())),
        arguments: vec![
            Expression::String("one".to_string()),
            Expression::String("two".to_string()),
        ],
    };
    let err = run(vec![expr(bad_arity)]).unwrap_err();
    match err {
        MonkeyErr::EvalErr {
            err: EvalError::Arity { expected, got },
        } => {
            assert_eq!(expected, 1);
            assert_eq!(got, 2);
        }
        other => panic!("expected an arity error, got {:?}", other),
    }
}

#[test]
fn arity_mismatch_on_user_function() {
    // fn(x) { x; }(1, 2)
    let f = Expression::Function {
        parameters: vec!["x".to_string()],
        body: vec![expr(Expression::Ident("x".to_string()))],
    };
    let call = Expression::Call {
        function: Box::new(f),
        arguments: vec![ilit(1), ilit(2)],
    };
    let err = run(vec![expr(call)]).unwrap_err();
    match err {
        MonkeyErr::EvalErr {
            err: EvalError::Arity { expected, got },
        } => {
            assert_eq!(expected, 1);
            assert_eq!(got, 2);
        }
        other => panic!("expected an arity error, got {:?}", other),
    }
}

#[test]
fn out_of_range_index_yields_null() {
    // [1,2,3][5] and {"a": 1}["b"]
    let arr = Expression::Array(vec![ilit(1), ilit(2), ilit(3)]);
    let idx = infix(arr, Token::LBRACKET, ilit(5));
    let out = run(vec![expr(idx)]).unwrap();
    assert!(matches!(out, Object::Null));

    let hash = Expression::Hash {
        key: vec![Expression::String("a".to_string())],
        value: vec![ilit(1)],
    };
    let lookup = infix(hash, Token::LBRACKET, Expression::String("b".to_string()));
    let out = run(vec![expr(lookup)]).unwrap();
    assert!(matches!(out, Object::Null));
}

#[test]
fn hash_key_is_deterministic_and_collides_on_anagrams() {
    let a1 = Object::String("ab".to_string()).hash_key().unwrap();
    let a2 = Object::String("ab".to_string()).hash_key().unwrap();
    assert_eq!(a1, a2);
    // The additive checksum cannot tell anagrams apart.
    let b = Object::String("ba".to_string()).hash_key().unwrap();
    assert_eq!(a1, b);
    // Unhashable values digest to nothing.
    assert!(Object::Null.hash_key().is_none());
    assert!(Object::Array(vec![]).hash_key().is_none());
}

#[test]
fn equality_of_plain_values() {
    assert!(Object::Integer(3).equals(&Object::Integer(3)));
    assert!(!Object::Integer(3).equals(&Object::Integer(4)));
    assert!(Object::Boolean(true).equals(&Object::Boolean(true)));
    assert!(Object::String("x".to_string()).equals(&Object::String("x".to_string())));
    assert!(!Object::String("x".to_string()).equals(&Object::Integer(1)));
    assert!(Object::Null.equals(&Object::Null));
}

#[test]
fn division_by_zero_is_reported() {
    let e = infix(ilit(1), Token::SLASH, ilit(0));
    let err = run(vec![expr(e)]).unwrap_err();
    assert!(matches!(
        err,
        MonkeyErr::EvalErr {
            err: EvalError::Arithmetic { .. }
        }
    ));
}

#[test]
fn unknown_identifier_is_reported() {
    let err = run(vec![expr(Expression::Ident("nope".to_string()))]).unwrap_err();
    assert!(matches!(
        err,
        MonkeyErr::EvalErr {
            err: EvalError::NameResolution { .. }
        }
    ));
}

#[test]
fn bang_follows_the_falsy_set() {
    let e = Expression::Prefix {
        operator: Token::BANG,
        right: Box::new(Expression::Boolean(false)),
    };
    let out = run(vec![expr(e)]).unwrap();
    assert!(matches!(out, Object::Boolean(true)));

    let e = Expression::Prefix {
        operator: Token::BANG,
        right: Box::new(ilit(5)),
    };
    let out = run(vec![expr(e)]).unwrap();
    assert!(matches!(out, Object::Boolean(false)));
}

#[test]
fn string_concatenation() {
    let e = infix(
        Expression::String("foo".to_string()),
        Token::PLUS,
        Expression::String("bar".to_string()),
    );
    let out = run(vec![expr(e)]).unwrap();
    match out {
        Object::String(s) => assert_eq!(s, "foobar"),
        other => panic!("expected a string, got {:?}", other),
    }
}

#[test]
fn type_mismatch_is_reported() {
    let e = infix(ilit(1), Token::PLUS, Expression::Boolean(true));
    let err = run(vec![expr(e)]).unwrap_err();
    assert!(matches!(
        err,
        MonkeyErr::EvalErr {
            err: EvalError::TypeMismatch { .. }
        }
    ));
}
