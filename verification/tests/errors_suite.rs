use monkey::eval;
use monkey::eval_program;
use monkey::Environment;
use monkey::EvalError;
use monkey::Expression;
use monkey::Kind;
use monkey::Object;
use monkey::Statement;
use monkey::Token;

/// Runs one expression statement built directly as AST.
fn eval_expr_stmt(expression: Expression) -> Result<Object, EvalError> {
    let mut env = Environment::new();
    eval(Statement::ExpressionStmt { expression }, &mut env)
}

fn infix(left: Expression, operator: Token, right: Expression) -> Expression {
    Expression::Infix { left: Box::new(left), operator, right: Box::new(right) }
}

#[test]
fn unbound_identifier_is_reported() {
    let r = eval_expr_stmt(Expression::Ident(String::from("foo")));
    assert_eq!(r, Err(EvalError::IdentNotFound { name: String::from("foo") }));
}

#[test]
fn boolean_and_integer_never_mix() {
    let r = eval_expr_stmt(infix(
        Expression::Boolean(true),
        Token::GT,
        Expression::Integer(2),
    ));
    assert_eq!(
        r,
        Err(EvalError::TypeMismatch {
            left: Kind::Boolean,
            operator: Token::GT,
            right: Kind::Integer,
        })
    );
    let r = eval_expr_stmt(infix(
        Expression::Integer(2),
        Token::PLUS,
        Expression::Boolean(false),
    ));
    assert_eq!(
        r,
        Err(EvalError::TypeMismatch {
            left: Kind::Integer,
            operator: Token::PLUS,
            right: Kind::Boolean,
        })
    );
}

#[test]
fn adding_booleans_is_unknown_infix() {
    let r = eval_expr_stmt(infix(
        Expression::Boolean(true),
        Token::PLUS,
        Expression::Boolean(false),
    ));
    assert_eq!(
        r,
        Err(EvalError::UnknownInfix {
            left: Kind::Boolean,
            operator: Token::PLUS,
            right: Kind::Boolean,
        })
    );
}

#[test]
fn complex_division_is_unknown_infix() {
    let r = eval_expr_stmt(infix(
        Expression::Complex { re: 0, im: 4 },
        Token::SLASH,
        Expression::Complex { re: 0, im: 2 },
    ));
    assert_eq!(
        r,
        Err(EvalError::UnknownInfix {
            left: Kind::Complex,
            operator: Token::SLASH,
            right: Kind::Complex,
        })
    );
}

#[test]
fn negating_a_boolean_arithmetically_is_unknown_prefix() {
    let r = eval_expr_stmt(Expression::Prefix {
        operator: Token::MINUS,
        right: Box::new(Expression::Boolean(true)),
    });
    assert_eq!(
        r,
        Err(EvalError::UnknownPrefix { operator: Token::MINUS, right: Kind::Boolean })
    );
}

#[test]
fn calling_a_non_function_is_reported() {
    let r = eval_expr_stmt(Expression::Call {
        function: Box::new(Expression::Integer(5)),
        arguments: vec![Expression::Integer(3)],
    });
    assert_eq!(r, Err(EvalError::NotFunction { got: Object::Integer { value: 5 } }));
}

#[test]
fn division_by_zero_is_reported() {
    let r = eval_expr_stmt(infix(Expression::Integer(5), Token::SLASH, Expression::Integer(0)));
    assert_eq!(r, Err(EvalError::DivideByZero));
}

#[test]
fn integer_overflow_is_reported() {
    let r = eval_expr_stmt(infix(
        Expression::Integer(i64::MAX),
        Token::PLUS,
        Expression::Integer(1),
    ));
    assert_eq!(r, Err(EvalError::Overflow));
}

#[test]
fn power_computes_and_rejects_negative_exponents() {
    let r = eval_expr_stmt(infix(Expression::Integer(2), Token::POWER, Expression::Integer(10)));
    assert_eq!(r, Ok(Object::Integer { value: 1024 }));
    let r = eval_expr_stmt(infix(Expression::Integer(3), Token::POWER, Expression::Integer(0)));
    assert_eq!(r, Ok(Object::Integer { value: 1 }));
    let r = eval_expr_stmt(infix(Expression::Integer(2), Token::POWER, Expression::Integer(-1)));
    assert_eq!(r, Err(EvalError::PowErr));
    let r = eval_expr_stmt(infix(Expression::Integer(2), Token::POWER, Expression::Integer(64)));
    assert_eq!(r, Err(EvalError::Overflow));
    let r = eval_expr_stmt(infix(
        Expression::Integer(-2),
        Token::POWER,
        Expression::Integer(63),
    ));
    assert_eq!(r, Ok(Object::Integer { value: i64::MIN }));
}

#[test]
fn arity_mismatch_is_reported() {
    let mut env = Environment::new();
    let program = vec![
        Statement::LetStmt {
            name: String::from("f"),
            value: Expression::Function {
                parameter: vec![String::from("x")],
                body: vec![Statement::ExpressionStmt {
                    expression: Expression::Ident(String::from("x")),
                }],
            },
        },
        Statement::ExpressionStmt {
            expression: Expression::Call {
                function: Box::new(Expression::Ident(String::from("f"))),
                arguments: vec![Expression::Integer(1), Expression::Integer(2)],
            },
        },
    ];
    let r = eval_program(program, &mut env);
    assert_eq!(r, Err(EvalError::ArityMismatch { expected: 1, got: 2 }));
}

#[test]
fn builtins_are_callable_by_name() {
    let r = eval_expr_stmt(Expression::Call {
        function: Box::new(Expression::Ident(String::from("len"))),
        arguments: vec![Expression::Integer(5)],
    });
    assert_eq!(
        r,
        Err(EvalError::WrongArgKind { builtin: monkey::BuiltInFnt::Len, got: Kind::Integer })
    );
}
