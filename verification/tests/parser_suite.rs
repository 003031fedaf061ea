use monkey::parse_program;
use monkey::Expression;
use monkey::ParseError;
use monkey::Precedence;
use monkey::Statement;
use monkey::Token;

#[test]
fn take_precedence_matches_the_table() {
    assert_eq!(Precedence::take_precedence(&Token::EQ), Precedence::EQUALS);
    assert_eq!(Precedence::take_precedence(&Token::NOTEQ), Precedence::EQUALS);
    assert_eq!(Precedence::take_precedence(&Token::LT), Precedence::LESSGREATER);
    assert_eq!(Precedence::take_precedence(&Token::GT), Precedence::LESSGREATER);
    assert_eq!(Precedence::take_precedence(&Token::PLUS), Precedence::SUM);
    assert_eq!(Precedence::take_precedence(&Token::MINUS), Precedence::SUM);
    assert_eq!(Precedence::take_precedence(&Token::ASTERISK), Precedence::PRODUCT);
    assert_eq!(Precedence::take_precedence(&Token::SLASH), Precedence::PRODUCT);
    assert_eq!(Precedence::take_precedence(&Token::LPAREN), Precedence::CALL);
    assert_eq!(Precedence::take_precedence(&Token::SEMICOLON), Precedence::LOWEST);
    assert_eq!(Precedence::take_precedence(&Token::EOF), Precedence::LOWEST);
}

#[test]
fn product_binds_tighter_than_sum() {
    // 5 + 2 * 10
    let toks = vec![
        Token::INT(5),
        Token::PLUS,
        Token::INT(2),
        Token::ASTERISK,
        Token::INT(10),
        Token::SEMICOLON,
        Token::EOF,
    ];
    let prog = parse_program(&toks).unwrap();
    assert_eq!(
        prog,
        vec![Statement::ExpressionStmt {
            expression: Expression::Infix {
                left: Box::new(Expression::Integer(5)),
                operator: Token::PLUS,
                right: Box::new(Expression::Infix {
                    left: Box::new(Expression::Integer(2)),
                    operator: Token::ASTERISK,
                    right: Box::new(Expression::Integer(10)),
                }),
            },
        }]
    );
}

#[test]
fn let_statement_builds_a_binding() {
    // let x = 1;
    let toks = vec![
        Token::LET,
        Token::IDENT(String::from("x")),
        Token::ASSIGN,
        Token::INT(1),
        Token::SEMICOLON,
        Token::EOF,
    ];
    let prog = parse_program(&toks).unwrap();
    assert_eq!(
        prog,
        vec![Statement::LetStmt { name: String::from("x"), value: Expression::Integer(1) }]
    );
}

#[test]
fn call_arguments_parse_in_order() {
    // add(1, 2)
    let toks = vec![
        Token::IDENT(String::from("add")),
        Token::LPAREN,
        Token::INT(1),
        Token::COMMA,
        Token::INT(2),
        Token::RPAREN,
        Token::EOF,
    ];
    let prog = parse_program(&toks).unwrap();
    assert_eq!(
        prog,
        vec![Statement::ExpressionStmt {
            expression: Expression::Call {
                function: Box::new(Expression::Ident(String::from("add"))),
                arguments: vec![Expression::Integer(1), Expression::Integer(2)],
            },
        }]
    );
}

#[test]
fn missing_closing_paren_is_reported() {
    // (5
    let toks = vec![Token::LPAREN, Token::INT(5), Token::EOF];
    let r = parse_program(&toks);
    assert_eq!(
        r,
        Err(ParseError::UnexpectedToken { expected: Token::RPAREN, got: Token::EOF, pos: 2 })
    );
}

#[test]
fn let_without_name_is_reported() {
    // let 5 = 3;
    let toks = vec![
        Token::LET,
        Token::INT(5),
        Token::ASSIGN,
        Token::INT(3),
        Token::SEMICOLON,
        Token::EOF,
    ];
    let r = parse_program(&toks);
    assert_eq!(
        r,
        Err(ParseError::UnexpectedToken {
            expected: Token::IDENT(String::new()),
            got: Token::INT(5),
            pos: 1,
        })
    );
}

#[test]
fn lead_operator_has_no_prefix_rule() {
    // + ;
    let toks = vec![Token::PLUS, Token::SEMICOLON, Token::EOF];
    let r = parse_program(&toks);
    assert_eq!(r, Err(ParseError::NoPrefixRule { got: Token::PLUS, pos: 0 }));
}

#[test]
fn unterminated_block_is_reported() {
    // if (true) { 10
    let toks = vec![
        Token::IF,
        Token::LPAREN,
        Token::TRUE,
        Token::RPAREN,
        Token::LBRACE,
        Token::INT(10),
        Token::EOF,
    ];
    let r = parse_program(&toks);
    assert_eq!(
        r,
        Err(ParseError::UnexpectedToken { expected: Token::RBRACE, got: Token::EOF, pos: 6 })
    );
}

#[test]
fn if_without_else_has_empty_alternative() {
    // if (true) { 10 }
    let toks = vec![
        Token::IF,
        Token::LPAREN,
        Token::TRUE,
        Token::RPAREN,
        Token::LBRACE,
        Token::INT(10),
        Token::RBRACE,
        Token::EOF,
    ];
    let prog = parse_program(&toks).unwrap();
    assert_eq!(
        prog,
        vec![Statement::ExpressionStmt {
            expression: Expression::IfExpr {
                condition: Box::new(Expression::Boolean(true)),
                consequence: vec![Statement::ExpressionStmt {
                    expression: Expression::Integer(10),
                }],
                alternative: vec![],
            },
        }]
    );
}
