use monkey::eval;
use monkey::eval_program;
use monkey::is_letter;
use monkey::parse_program;
use monkey::Environment;
use monkey::EvalError;
use monkey::Expression;
use monkey::Object;
use monkey::Statement;
use monkey::Token;

/// Character-level scanner for the test inputs: source text to a token
/// stream with an `EOF` end marker.
fn lex(input: &str) -> Vec<Token> {
    let chars: Vec<char> = input.chars().collect();
    let mut toks: Vec<Token> = Vec::new();
    let mut i = 0;
    while i < chars.len() {
        let c = chars[i];
        if c.is_whitespace() {
            i += 1;
        } else if c == '=' {
            if i + 1 < chars.len() && chars[i + 1] == '=' {
                toks.push(Token::EQ);
                i += 2;
            } else {
                toks.push(Token::ASSIGN);
                i += 1;
            }
        } else if c == '!' {
            if i + 1 < chars.len() && chars[i + 1] == '=' {
                toks.push(Token::NOTEQ);
                i += 2;
            } else {
                toks.push(Token::BANG);
                i += 1;
            }
        } else if c.is_ascii_digit() || (c == '-' && i + 1 < chars.len() && chars[i + 1].is_ascii_digit()) {
            let neg = c == '-';
            let mut j = if neg { i + 1 } else { i };
            let mut v: i64 = 0;
            while j < chars.len() && chars[j].is_ascii_digit() {
                v = v * 10 + (chars[j] as i64 - '0' as i64);
                j += 1;
            }
            if neg {
                v = -v;
            }
            if j < chars.len() && chars[j] == 'i' {
                toks.push(Token::IMG(v));
                j += 1;
            } else {
                toks.push(Token::INT(v));
            }
            i = j;
        } else if is_letter(c) {
            let mut j = i;
            let mut word = String::new();
            while j < chars.len() && is_letter(chars[j]) {
                word.push(chars[j]);
                j += 1;
            }
            match Token::is_str_keywords(&word) {
                Some(t) => toks.push(t),
                None => toks.push(Token::IDENT(word)),
            }
            i = j;
        } else {
            let t = match c {
                '+' => Token::PLUS,
                '-' => Token::MINUS,
                '*' => Token::ASTERISK,
                '/' => Token::SLASH,
                '^' => Token::POWER,
                '<' => Token::LT,
                '>' => Token::GT,
                ',' => Token::COMMA,
                ';' => Token::SEMICOLON,
                '(' => Token::LPAREN,
                ')' => Token::RPAREN,
                '{' => Token::LBRACE,
                '}' => Token::RBRACE,
                _ => Token::ILLIGAL,
            };
            toks.push(t);
            i += 1;
        }
    }
    toks.push(Token::EOF);
    toks
}

/// Evaluates each statement of `input` in one shared environment and
/// collects the statement results.
fn eval_each(input: &str) -> Vec<Object> {
    let toks = lex(input);
    let prog = parse_program(&toks).expect("Parse Error Occured!");
    let mut env = Environment::new();
    prog.into_iter().map(|s| eval(s, &mut env).unwrap()).collect()
}

/// Runs `input` as a whole program and returns its result.
fn run_program(input: &str) -> Result<Object, EvalError> {
    let toks = lex(input);
    let prog = parse_program(&toks).expect("Parse Error Occured!");
    let mut env = Environment::new();
    eval_program(prog, &mut env)
}

#[test]
fn eval_integers() {
    let input = eval_each(
        r#"
            5; 10;
            -5; -10;
            5 + 5 + 5 + 5 - 10;
            2 * 2 * 2 * 2 * 2;
            -50 + 100 - 50;
            5 * 2 + 10;
            5 + 2 * 10;
            20 + 2 * -10;
            50 / 2 * 2 + 10;
            2 * (5 + 10);
            3 * 3 * 3 + 10;
            3 * (3 * 3) + 10;
            (5 + 10 * 2 + 15 / 3) * 2 + -10;
            "#,
    );
    assert_eq!(
        input,
        vec![
            Object::Integer { value: 5 },
            Object::Integer { value: 10 },
            Object::Integer { value: -5 },
            Object::Integer { value: -10 },
            Object::Integer { value: 10 },
            Object::Integer { value: 32 },
            Object::Integer { value: 0 },
            Object::Integer { value: 20 },
            Object::Integer { value: 25 },
            Object::Integer { value: 0 },
            Object::Integer { value: 60 },
            Object::Integer { value: 30 },
            Object::Integer { value: 37 },
            Object::Integer { value: 37 },
            Object::Integer { value: 50 },
        ]
    );
}

#[test]
fn eval_complex() {
    let input = eval_each(
        r#"
            5i; 10i;
            -5i; -10i;
            1 + 4i; 1 - 4i;
            - 1 + 4i; - 1 - 4i;
            (-1) + 4i; (-1) - 4i;
            (-1) + 4i + (-1) - 4i;
            (-1) + 4i - (-1) - 4i;
            ((-1) + 4i) - ((-1) - 4i);
            (-1) + 4i * (-1) - 4i;
            ((-1) + 4i) * ((-1) - 4i);
            "#,
    );
    assert_eq!(
        input,
        vec![
            Object::Complex { re: 0, im: 5 },
            Object::Complex { re: 0, im: 10 },
            Object::Complex { re: 0, im: -5 },
            Object::Complex { re: 0, im: -10 },
            Object::Complex { re: 1, im: 4 },
            Object::Complex { re: 1, im: -4 },
            Object::Complex { re: -1, im: -4 },
            Object::Complex { re: -1, im: 4 },
            Object::Complex { re: -1, im: 4 },
            Object::Complex { re: -1, im: -4 },
            Object::Complex { re: -2, im: 0 },
            Object::Complex { re: 0, im: 0 },
            Object::Complex { re: 0, im: 8 },
            Object::Complex { re: -1, im: -8 },
            Object::Complex { re: 17, im: 0 },
        ]
    );
}

#[test]
fn eval_boolean() {
    let input = eval_each(
        r#"
            false;
            true;
            1 < 2;
            1 > 2;
            1 < 1;
            1 > 1;
            1 == 1;
            1 != 1;
            1 == 2;
            1 != 2;
            true == true;
            true == false;
            false == true;
            true != false;
            false != true;
            false != false;
            "#,
    );
    assert_eq!(
        input,
        vec![
            Object::Boolean { value: false },
            Object::Boolean { value: true },
            Object::Boolean { value: true },
            Object::Boolean { value: false },
            Object::Boolean { value: false },
            Object::Boolean { value: false },
            Object::Boolean { value: true },
            Object::Boolean { value: false },
            Object::Boolean { value: false },
            Object::Boolean { value: true },
            Object::Boolean { value: true },
            Object::Boolean { value: false },
            Object::Boolean { value: false },
            Object::Boolean { value: true },
            Object::Boolean { value: true },
            Object::Boolean { value: false },
        ]
    );
}

#[test]
fn eval_mixed() {
    let input = eval_each("7; true; 15; false; false; 324;");
    assert_eq!(
        input,
        vec![
            Object::Integer { value: 7 },
            Object::Boolean { value: true },
            Object::Integer { value: 15 },
            Object::Boolean { value: false },
            Object::Boolean { value: false },
            Object::Integer { value: 324 },
        ]
    );
}

#[test]
fn eval_bang_operator() {
    let input = eval_each("!true; !false !5; !!true; !!false; !!5;");
    assert_eq!(
        input,
        vec![
            Object::Boolean { value: false },
            Object::Boolean { value: true },
            Object::Boolean { value: false },
            Object::Boolean { value: true },
            Object::Boolean { value: false },
            Object::Boolean { value: true },
        ]
    );
}

#[test]
fn eval_if_else_expr() {
    let input = eval_each(
        r#"
            if (true) { 10 };
            if (false) { 10 };
            if (1) { 10 };
            if (1 < 2) { 10 };
            if (1 > 2) { 10 };
            if (1 > 2) { 10 } else { 20 };
            if (1 < 2) { 10 } else { 20 };
            "#,
    );
    assert_eq!(
        input,
        vec![
            Object::Integer { value: 10 },
            Object::Null,
            Object::Integer { value: 10 },
            Object::Integer { value: 10 },
            Object::Null,
            Object::Integer { value: 20 },
            Object::Integer { value: 10 },
        ]
    );
}

#[test]
fn eval_return_expr() {
    let input = run_program(
        r#"
            9; return 2 * 5; 8;
            "#,
    )
    .unwrap();
    assert_eq!(input, Object::Integer { value: 10 });
}

#[test]
fn eval_nested_block_expr() {
    let input = run_program(
        r#"
            if (10 > 1) {
                if (12 > 2) {
                    return 10;
                }

                return 1;
            }
            "#,
    )
    .unwrap();
    assert_eq!(input, Object::Integer { value: 10 });
}

#[test]
fn eval_let_expr() {
    let input = eval_each(
        r#"
            let a = 5; a;
            let a = 5 * 5; a;
            let a = 5; let b = a; b;
            let a = 5; let b = a; let c = a + b + 5; c;
            "#,
    );
    assert_eq!(
        input,
        vec![
            Object::DeclareVariable,
            Object::Integer { value: 5 },
            Object::DeclareVariable,
            Object::Integer { value: 25 },
            Object::DeclareVariable,
            Object::DeclareVariable,
            Object::Integer { value: 5 },
            Object::DeclareVariable,
            Object::DeclareVariable,
            Object::DeclareVariable,
            Object::Integer { value: 15 },
        ]
    );
}

#[test]
fn eval_function_object() {
    let input = eval_each(
        r#"
            fn(x) { x + 2; };
            "#,
    );
    assert_eq!(
        input,
        vec![Object::Function {
            parameter: vec!["x".to_string()],
            body: vec![Statement::ExpressionStmt {
                expression: Expression::Infix {
                    left: Box::new(Expression::Ident("x".to_string())),
                    operator: Token::PLUS,
                    right: Box::new(Expression::Integer(2)),
                },
            }],
            env: 0,
        }]
    );
}

#[test]
fn eval_function_application() {
    let input = eval_each(
        r#"
            let identity = fn(x) { x; }; identity(5);
            let identity = fn(x) { return x; }; identity(5);
            let double = fn(x) { x * 2; }; double(6);
            let add = fn(x, y) { x + y; }; add(6, 5);
            let add = fn(x, y) { x + y; }; add(6 + 5, add(6, 5));
            fn(x) { x; }(5);
            "#,
    );
    assert_eq!(
        input,
        vec![
            Object::DeclareVariable,
            Object::Integer { value: 5 },
            Object::DeclareVariable,
            Object::Integer { value: 5 },
            Object::DeclareVariable,
            Object::Integer { value: 12 },
            Object::DeclareVariable,
            Object::Integer { value: 11 },
            Object::DeclareVariable,
            Object::Integer { value: 22 },
            Object::Integer { value: 5 },
        ]
    );
}

#[test]
fn test_function_object() {
    let input = "fn(x) { x + 2; };";

    let mut evaluated = eval_each(input);
    let first = evaluated.remove(0);
    if let Object::Function { parameter, body, .. } = first {
        if parameter.len() != 1 {
            panic!("Function has wrong parameters. Parameters = {}", parameter.len());
        }
        if "x" == parameter[0] {
            let expected_body = vec![Statement::ExpressionStmt {
                expression: Expression::Infix {
                    left: Box::new(Expression::Ident(String::from("x"))),
                    operator: Token::PLUS,
                    right: Box::new(Expression::Integer(2)),
                },
            }];
            assert_eq!(body, expected_body);
        } else {
            panic!("parameter is not 'x'. got = {}", parameter[0]);
        }
    } else {
        panic!("Object is not Function. got = {:?}", first);
    }
}

#[test]
fn outer_binding_survives_call_shadowing() {
    let input = eval_each(
        r#"
            let a = 5;
            let f = fn(x) { let a = 10; a; };
            f(1);
            a;
            "#,
    );
    assert_eq!(
        input,
        vec![
            Object::DeclareVariable,
            Object::DeclareVariable,
            Object::Integer { value: 10 },
            Object::Integer { value: 5 },
        ]
    );
}

#[test]
fn integer_equals_zero_imaginary_complex() {
    let input = eval_each("1 + 1i - 1i == 1; 1 + 1i - 1i;");
    assert_eq!(
        input,
        vec![Object::Boolean { value: true }, Object::Complex { re: 1, im: 0 }]
    );
}

#[test]
fn closure_captures_definition_environment() {
    let input = run_program(
        r#"
            let x = 3;
            let addx = fn(y) { x + y; };
            addx(4);
            "#,
    )
    .unwrap();
    assert_eq!(input, Object::Integer { value: 7 });
}

#[test]
fn rebinding_shadows_in_same_scope() {
    let input = run_program("let a = 1; let a = 2; a;").unwrap();
    assert_eq!(input, Object::Integer { value: 2 });
}

#[test]
fn empty_program_is_null() {
    let input = run_program("").unwrap();
    assert_eq!(input, Object::Null);
}

#[test]
fn closure_sees_bindings_made_after_capture() {
    let input = eval_each(
        r#"
            let f = fn() { q; };
            let q = 1;
            f();
            "#,
    );
    assert_eq!(
        input,
        vec![
            Object::DeclareVariable,
            Object::DeclareVariable,
            Object::Integer { value: 1 },
        ]
    );
}

#[test]
fn let_bound_function_can_recurse() {
    let input = run_program(
        r#"
            let fact = fn(n) { if (n < 2) { 1 } else { n * fact(n - 1) }; };
            fact(5);
            "#,
    )
    .unwrap();
    assert_eq!(input, Object::Integer { value: 120 });
}

#[test]
fn nested_return_never_escapes_the_top_level() {
    let input = run_program("return if (true) { return 2; };").unwrap();
    assert_eq!(input, Object::Integer { value: 2 });
    let input = run_program("9; return if (true) { return 2 * 5; }; 8;").unwrap();
    assert_eq!(input, Object::Integer { value: 10 });
}

#[test]
fn depth_budget_exhaustion_is_reported() {
    let mut env = Environment::new();
    let stmt = Statement::ExpressionStmt { expression: Expression::Integer(1) };
    let r = monkey::eval_fueled(&stmt, &mut env, 0);
    assert_eq!(r, Err(EvalError::DepthLimit));
}
