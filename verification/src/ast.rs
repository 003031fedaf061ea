//! The abstract syntax tree: statements, expressions, the operator
//! precedence table, and the ghost mirrors the contracts are stated over.
use vstd::prelude::*;

use crate::token::Token;
use crate::token::TokenV;
use crate::token::token_clone;
use crate::token::token_eq;

verus! {

broadcast use vstd::std_specs::vec::group_vec_axioms, vstd::seq::group_seq_axioms;

/// A statement of the language: a `let` binding, a `return`, or a bare
/// expression.
#[derive(Debug, PartialEq)]
pub enum Statement {
    LetStmt { name: String, value: Expression },
    ReturnStmt { value: Expression },
    ExpressionStmt { expression: Expression },
}

/// An expression of the language. Blocks (`consequence`, `alternative`,
/// `body`) are statement sequences; an absent `else` block is the empty
/// sequence.
#[derive(Debug, PartialEq)]
pub enum Expression {
    Ident(String),
    Integer(i64),
    Complex { re: i64, im: i64 },
    Boolean(bool),
    Prefix { operator: Token, right: Box<Expression> },
    Infix { left: Box<Expression>, operator: Token, right: Box<Expression> },
    IfExpr { condition: Box<Expression>, consequence: Vec<Statement>, alternative: Vec<Statement> },
    Function { parameter: Vec<String>, body: Vec<Statement> },
    Call { function: Box<Expression>, arguments: Vec<Expression> },
}

/// The mathematical mirror of [`Statement`].
#[verifier::ext_equal]
pub enum StmtV {
    LetStmt { name: Seq<char>, value: ExprV },
    ReturnStmt { value: ExprV },
    ExpressionStmt { expression: ExprV },
}

/// The mathematical mirror of [`Expression`].
#[verifier::ext_equal]
pub enum ExprV {
    Ident(Seq<char>),
    Integer(i64),
    Complex { re: i64, im: i64 },
    Boolean(bool),
    Prefix { operator: TokenV, right: Box<ExprV> },
    Infix { left: Box<ExprV>, operator: TokenV, right: Box<ExprV> },
    IfExpr { condition: Box<ExprV>, consequence: Seq<StmtV>, alternative: Seq<StmtV> },
    Function { parameter: Seq<Seq<char>>, body: Seq<StmtV> },
    Call { function: Box<ExprV>, arguments: Seq<ExprV> },
}

/// The view of a sequence of identifier names.
pub open spec fn strings_view(v: Seq<String>) -> Seq<Seq<char>> {
    Seq::new(v.len(), |i: int| v[i]@)
}

/// The view of a single statement.
pub open spec fn stmt_view(s: Statement) -> StmtV
    decreases s,
{
    match s {
        Statement::LetStmt { name, value } => StmtV::LetStmt {
            name: name@,
            value: expr_view(value),
        },
        Statement::ReturnStmt { value } => StmtV::ReturnStmt { value: expr_view(value) },
        Statement::ExpressionStmt { expression } => StmtV::ExpressionStmt {
            expression: expr_view(expression),
        },
    }
}

/// The view of a single expression.
pub open spec fn expr_view(e: Expression) -> ExprV
    decreases e,
{
    match e {
        Expression::Ident(s) => ExprV::Ident(s@),
        Expression::Integer(n) => ExprV::Integer(n),
        Expression::Complex { re, im } => ExprV::Complex { re, im },
        Expression::Boolean(b) => ExprV::Boolean(b),
        Expression::Prefix { operator, right } => ExprV::Prefix {
            operator: operator@,
            right: Box::new(expr_view(*right)),
        },
        Expression::Infix { left, operator, right } => ExprV::Infix {
            left: Box::new(expr_view(*left)),
            operator: operator@,
            right: Box::new(expr_view(*right)),
        },
        Expression::IfExpr { condition, consequence, alternative } => ExprV::IfExpr {
            condition: Box::new(expr_view(*condition)),
            consequence: stmts_view(consequence@),
            alternative: stmts_view(alternative@),
        },
        Expression::Function { parameter, body } => ExprV::Function {
            parameter: strings_view(parameter@),
            body: stmts_view(body@),
        },
        Expression::Call { function, arguments } => ExprV::Call {
            function: Box::new(expr_view(*function)),
            arguments: exprs_view(arguments@),
        },
    }
}

/// The view of a statement sequence, element by element.
pub open spec fn stmts_view(v: Seq<Statement>) -> Seq<StmtV>
    decreases v,
{
    if v.len() == 0 {
        Seq::empty()
    } else {
        stmts_view(v.drop_last()).push(stmt_view(v.last()))
    }
}

/// The view of an expression sequence, element by element.
pub open spec fn exprs_view(v: Seq<Expression>) -> Seq<ExprV>
    decreases v,
{
    if v.len() == 0 {
        Seq::empty()
    } else {
        exprs_view(v.drop_last()).push(expr_view(v.last()))
    }
}

impl View for Statement {
    type V = StmtV;

    open spec fn view(&self) -> StmtV {
        stmt_view(*self)
    }
}

impl View for Expression {
    type V = ExprV;

    open spec fn view(&self) -> ExprV {
        expr_view(*self)
    }
}

/// `stmts_view` maps the sequence pointwise.
pub proof fn lemma_stmts_view_index(v: Seq<Statement>, i: int)
    requires
        0 <= i < v.len(),
    ensures
        stmts_view(v).len() == v.len(),
        stmts_view(v)[i] == stmt_view(v[i]),
    decreases v,
{
    lemma_stmts_view_len(v);
    if i < v.len() - 1 {
        lemma_stmts_view_index(v.drop_last(), i);
    }
}

/// `stmts_view` preserves length.
pub proof fn lemma_stmts_view_len(v: Seq<Statement>)
    ensures
        stmts_view(v).len() == v.len(),
    decreases v,
{
    if v.len() > 0 {
        lemma_stmts_view_len(v.drop_last());
    }
}

/// `exprs_view` maps the sequence pointwise.
pub proof fn lemma_exprs_view_index(v: Seq<Expression>, i: int)
    requires
        0 <= i < v.len(),
    ensures
        exprs_view(v).len() == v.len(),
        exprs_view(v)[i] == expr_view(v[i]),
    decreases v,
{
    lemma_exprs_view_len(v);
    if i < v.len() - 1 {
        lemma_exprs_view_index(v.drop_last(), i);
    }
}

/// `exprs_view` preserves length.
pub proof fn lemma_exprs_view_len(v: Seq<Expression>)
    ensures
        exprs_view(v).len() == v.len(),
    decreases v,
{
    if v.len() > 0 {
        lemma_exprs_view_len(v.drop_last());
    }
}

/// Copies a statement, preserving its mathematical value.
pub fn stmt_clone(s: &Statement) -> (r: Statement)
    ensures
        r@ == s@,
    decreases *s,
{
    match s {
        Statement::LetStmt { name, value } => Statement::LetStmt {
            name: name.clone(),
            value: expr_clone(value),
        },
        Statement::ReturnStmt { value } => Statement::ReturnStmt { value: expr_clone(value) },
        Statement::ExpressionStmt { expression } => Statement::ExpressionStmt {
            expression: expr_clone(expression),
        },
    }
}

/// Copies an expression, preserving its mathematical value.
pub fn expr_clone(e: &Expression) -> (r: Expression)
    ensures
        r@ == e@,
    decreases *e,
{
    match e {
        Expression::Ident(s) => Expression::Ident(s.clone()),
        Expression::Integer(n) => Expression::Integer(*n),
        Expression::Complex { re, im } => Expression::Complex { re: *re, im: *im },
        Expression::Boolean(b) => Expression::Boolean(*b),
        Expression::Prefix { operator, right } => Expression::Prefix {
            operator: token_clone(operator),
            right: Box::new(expr_clone(right)),
        },
        Expression::Infix { left, operator, right } => Expression::Infix {
            left: Box::new(expr_clone(left)),
            operator: token_clone(operator),
            right: Box::new(expr_clone(right)),
        },
        Expression::IfExpr { condition, consequence, alternative } => Expression::IfExpr {
            condition: Box::new(expr_clone(condition)),
            consequence: stmts_clone(consequence),
            alternative: stmts_clone(alternative),
        },
        Expression::Function { parameter, body } => Expression::Function {
            parameter: strings_clone(parameter),
            body: stmts_clone(body),
        },
        Expression::Call { function, arguments } => Expression::Call {
            function: Box::new(expr_clone(function)),
            arguments: exprs_clone(arguments),
        },
    }
}

/// Copies a statement sequence, preserving its mathematical value.
pub fn stmts_clone(v: &Vec<Statement>) -> (r: Vec<Statement>)
    ensures
        stmts_view(r@) == stmts_view(v@),
    decreases v@,
{
    let mut out: Vec<Statement> = Vec::new();
    let mut i: usize = 0;
    #[verifier::loop_isolation(false)]
    while i < v.len()
        invariant
            i <= v.len(),
            out@.len() == i as int,
            forall|j: int| 0 <= j < i ==> out@[j]@ == v@[j]@,
        decreases v.len() - i,
    {
        proof {
            assert(decreases_to!(v@ => v@[i as int]));
        }
        let c = stmt_clone(&v[i]);
        out.push(c);
        i = i + 1;
    }
    proof {
        lemma_stmts_view_len(out@);
        lemma_stmts_view_len(v@);
        assert forall|j: int| 0 <= j < v@.len() implies stmts_view(out@)[j] == stmts_view(v@)[j] by {
            lemma_stmts_view_index(out@, j);
            lemma_stmts_view_index(v@, j);
        }
        assert(stmts_view(out@) =~= stmts_view(v@));
    }
    out
}

/// Copies an expression sequence, preserving its mathematical value.
pub fn exprs_clone(v: &Vec<Expression>) -> (r: Vec<Expression>)
    ensures
        exprs_view(r@) == exprs_view(v@),
    decreases v@,
{
    let mut out: Vec<Expression> = Vec::new();
    let mut i: usize = 0;
    #[verifier::loop_isolation(false)]
    while i < v.len()
        invariant
            i <= v.len(),
            out@.len() == i as int,
            forall|j: int| 0 <= j < i ==> out@[j]@ == v@[j]@,
        decreases v.len() - i,
    {
        proof {
            assert(decreases_to!(v@ => v@[i as int]));
        }
        let c = expr_clone(&v[i]);
        out.push(c);
        i = i + 1;
    }
    proof {
        lemma_exprs_view_len(out@);
        lemma_exprs_view_len(v@);
        assert forall|j: int| 0 <= j < v@.len() implies exprs_view(out@)[j] == exprs_view(v@)[j] by {
            lemma_exprs_view_index(out@, j);
            lemma_exprs_view_index(v@, j);
        }
        assert(exprs_view(out@) =~= exprs_view(v@));
    }
    out
}

/// Copies a sequence of names, preserving its mathematical value.
pub fn strings_clone(v: &Vec<String>) -> (r: Vec<String>)
    ensures
        strings_view(r@) == strings_view(v@),
{
    let mut out: Vec<String> = Vec::new();
    let mut i: usize = 0;
    #[verifier::loop_isolation(false)]
    while i < v.len()
        invariant
            i <= v.len(),
            out@.len() == i as int,
            forall|j: int| 0 <= j < i ==> out@[j]@ == v@[j]@,
        decreases v.len() - i,
    {
        let c = v[i].clone();
        out.push(c);
        i = i + 1;
    }
    proof {
        assert(strings_view(out@) =~= strings_view(v@));
    }
    out
}

/// Structural equality of statements.
pub fn stmt_eq(a: &Statement, b: &Statement) -> (r: bool)
    ensures
        r == (a@ == b@),
    decreases *a,
{
    match (a, b) {
        (
            Statement::LetStmt { name: na, value: va },
            Statement::LetStmt { name: nb, value: vb },
        ) => *na == *nb && expr_eq(va, vb),
        (Statement::ReturnStmt { value: va }, Statement::ReturnStmt { value: vb }) => expr_eq(
            va,
            vb,
        ),
        (
            Statement::ExpressionStmt { expression: ea },
            Statement::ExpressionStmt { expression: eb },
        ) => expr_eq(ea, eb),
        _ => false,
    }
}

/// Structural equality of expressions.
pub fn expr_eq(a: &Expression, b: &Expression) -> (r: bool)
    ensures
        r == (a@ == b@),
    decreases *a,
{
    match (a, b) {
        (Expression::Ident(sa), Expression::Ident(sb)) => *sa == *sb,
        (Expression::Integer(na), Expression::Integer(nb)) => na == nb,
        (
            Expression::Complex { re: ra, im: ia },
            Expression::Complex { re: rb, im: ib },
        ) => ra == rb && ia == ib,
        (Expression::Boolean(ba), Expression::Boolean(bb)) => ba == bb,
        (
            Expression::Prefix { operator: oa, right: ra },
            Expression::Prefix { operator: ob, right: rb },
        ) => token_eq(oa, ob) && expr_eq(ra, rb),
        (
            Expression::Infix { left: la, operator: oa, right: ra },
            Expression::Infix { left: lb, operator: ob, right: rb },
        ) => expr_eq(la, lb) && token_eq(oa, ob) && expr_eq(ra, rb),
        (
            Expression::IfExpr { condition: ca, consequence: qa, alternative: ta },
            Expression::IfExpr { condition: cb, consequence: qb, alternative: tb },
        ) => expr_eq(ca, cb) && stmts_eq(qa, qb) && stmts_eq(ta, tb),
        (
            Expression::Function { parameter: pa, body: ba },
            Expression::Function { parameter: pb, body: bb },
        ) => strings_eq(pa, pb) && stmts_eq(ba, bb),
        (
            Expression::Call { function: fa, arguments: aa },
            Expression::Call { function: fb, arguments: ab },
        ) => expr_eq(fa, fb) && exprs_eq(aa, ab),
        _ => false,
    }
}

/// Structural equality of statement sequences.
pub fn stmts_eq(a: &Vec<Statement>, b: &Vec<Statement>) -> (r: bool)
    ensures
        r == (stmts_view(a@) == stmts_view(b@)),
    decreases a@,
{
    proof {
        lemma_stmts_view_len(a@);
        lemma_stmts_view_len(b@);
    }
    if a.len() != b.len() {
        return false;
    }
    let mut i: usize = 0;
    #[verifier::loop_isolation(false)]
    while i < a.len()
        invariant
            i <= a.len(),
            forall|j: int| 0 <= j < i ==> stmt_view(a@[j]) == stmt_view(b@[j]),
        decreases a.len() - i,
    {
        proof {
            assert(decreases_to!(a@ => a@[i as int]));
        }
        if !stmt_eq(&a[i], &b[i]) {
            proof {
                lemma_stmts_view_index(a@, i as int);
                lemma_stmts_view_index(b@, i as int);
            }
            return false;
        }
        i = i + 1;
    }
    proof {
        assert forall|j: int| 0 <= j < a@.len() implies stmts_view(a@)[j] == stmts_view(b@)[j] by {
            lemma_stmts_view_index(a@, j);
            lemma_stmts_view_index(b@, j);
        }
        assert(stmts_view(a@) =~= stmts_view(b@));
    }
    true
}

/// Structural equality of expression sequences.
pub fn exprs_eq(a: &Vec<Expression>, b: &Vec<Expression>) -> (r: bool)
    ensures
        r == (exprs_view(a@) == exprs_view(b@)),
    decreases a@,
{
    proof {
        lemma_exprs_view_len(a@);
        lemma_exprs_view_len(b@);
    }
    if a.len() != b.len() {
        return false;
    }
    let mut i: usize = 0;
    #[verifier::loop_isolation(false)]
    while i < a.len()
        invariant
            i <= a.len(),
            forall|j: int| 0 <= j < i ==> expr_view(a@[j]) == expr_view(b@[j]),
        decreases a.len() - i,
    {
        proof {
            assert(decreases_to!(a@ => a@[i as int]));
        }
        if !expr_eq(&a[i], &b[i]) {
            proof {
                lemma_exprs_view_index(a@, i as int);
                lemma_exprs_view_index(b@, i as int);
            }
            return false;
        }
        i = i + 1;
    }
    proof {
        assert forall|j: int| 0 <= j < a@.len() implies exprs_view(a@)[j] == exprs_view(b@)[j] by {
            lemma_exprs_view_index(a@, j);
            lemma_exprs_view_index(b@, j);
        }
        assert(exprs_view(a@) =~= exprs_view(b@));
    }
    true
}

/// Structural equality of name sequences.
pub fn strings_eq(a: &Vec<String>, b: &Vec<String>) -> (r: bool)
    ensures
        r == (strings_view(a@) == strings_view(b@)),
{
    proof {
        assert(strings_view(a@).len() == a@.len());
        assert(strings_view(b@).len() == b@.len());
    }
    if a.len() != b.len() {
        return false;
    }
    let mut i: usize = 0;
    #[verifier::loop_isolation(false)]
    while i < a.len()
        invariant
            i <= a.len(),
            forall|j: int| 0 <= j < i ==> a@[j]@ == b@[j]@,
        decreases a.len() - i,
    {
        if !(a[i] == b[i]) {
            proof {
                assert(strings_view(a@)[i as int] == a@[i as int]@);
                assert(strings_view(b@)[i as int] == b@[i as int]@);
            }
            return false;
        }
        i = i + 1;
    }
    proof {
        assert(strings_view(a@) =~= strings_view(b@));
    }
    true
}

/// The operator precedence levels, from loosest to tightest binding.
#[derive(Debug, Clone, Copy, PartialEq, Eq, Structural)]
pub enum Precedence {
    LOWEST,
    EQUALS,
    LESSGREATER,
    SUM,
    PRODUCT,
    PREFIX,
    CALL,
}

/// The numeric rank of a precedence level, used to compare binding
/// strength.
pub open spec fn precedence_rank_spec(p: Precedence) -> u8 {
    match p {
        Precedence::LOWEST => 0,
        Precedence::EQUALS => 1,
        Precedence::LESSGREATER => 2,
        Precedence::SUM => 3,
        Precedence::PRODUCT => 4,
        Precedence::PREFIX => 5,
        Precedence::CALL => 6,
    }
}

/// Computes the numeric rank of a precedence level.
pub fn precedence_rank(p: Precedence) -> (r: u8)
    ensures
        r == precedence_rank_spec(p),
{
    match p {
        Precedence::LOWEST => 0,
        Precedence::EQUALS => 1,
        Precedence::LESSGREATER => 2,
        Precedence::SUM => 3,
        Precedence::PRODUCT => 4,
        Precedence::PREFIX => 5,
        Precedence::CALL => 6,
    }
}

/// The infix binding strength of a token: comparison operators bind at
/// `EQUALS`/`LESSGREATER`, additive at `SUM`, multiplicative at
/// `PRODUCT`, and a call's `(` at `CALL`; every other token is `LOWEST`.
pub open spec fn take_precedence_spec(tok: TokenV) -> Precedence {
    match tok {
        TokenV::EQ => Precedence::EQUALS,
        TokenV::NOTEQ => Precedence::EQUALS,
        TokenV::LT => Precedence::LESSGREATER,
        TokenV::GT => Precedence::LESSGREATER,
        TokenV::PLUS => Precedence::SUM,
        TokenV::MINUS => Precedence::SUM,
        TokenV::ASTERISK => Precedence::PRODUCT,
        TokenV::SLASH => Precedence::PRODUCT,
        TokenV::LPAREN => Precedence::CALL,
        _ => Precedence::LOWEST,
    }
}

impl Precedence {
    /// Looks up the infix binding strength of `tok`.
    pub fn take_precedence(tok: &Token) -> (r: Self)
        ensures
            r == take_precedence_spec(tok@),
    {
        match tok {
            Token::EQ => Precedence::EQUALS,
            Token::NOTEQ => Precedence::EQUALS,
            Token::LT => Precedence::LESSGREATER,
            Token::GT => Precedence::LESSGREATER,
            Token::PLUS => Precedence::SUM,
            Token::MINUS => Precedence::SUM,
            Token::ASTERISK => Precedence::PRODUCT,
            Token::SLASH => Precedence::PRODUCT,
            Token::LPAREN => Precedence::CALL,
            _ => Precedence::LOWEST,
        }
    }
}

} // verus!
