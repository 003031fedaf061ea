//! The precedence-climbing (Pratt) parser: builds an AST from a token
//! stream. Statement parsing dispatches on the lead token (`let`,
//! `return`, else an expression statement, each with an optional
//! trailing `;`); expression parsing applies the prefix rule of the
//! lead token and then folds infix operators while the next token binds
//! tighter than the current context. The grammar and the contracts are
//! stated by a definitional parser over the ghost mirrors.
//!
//! Expression nesting is bounded by a depth budget far beyond any input
//! a host stack could survive; exhausting it is reported as an error.
use vstd::prelude::*;

use crate::ast::ExprV;
use crate::ast::Expression;
use crate::ast::Precedence;
use crate::ast::Statement;
use crate::ast::StmtV;
use crate::ast::exprs_view;
use crate::ast::lemma_exprs_view_index;
use crate::ast::lemma_exprs_view_len;
use crate::ast::lemma_stmts_view_index;
use crate::ast::lemma_stmts_view_len;
use crate::ast::precedence_rank;
use crate::ast::precedence_rank_spec;
use crate::ast::stmts_view;
use crate::ast::strings_view;
use crate::ast::take_precedence_spec;
use crate::token::Token;
use crate::token::TokenV;
use crate::token::token_clone;

verus! {

broadcast use vstd::std_specs::vec::group_vec_axioms, vstd::seq::group_seq_axioms;

/// The parser's depth budget; far beyond any real input's nesting.
pub const PARSE_BUDGET: u64 = 0xffff_ffff_ffff_ffff;

/// Why a parse failed: a specific token was required and something else
/// stood there; no prefix rule knows the lead token; or the nesting
/// budget ran out.
#[derive(Debug, PartialEq)]
pub enum ParseError {
    UnexpectedToken { expected: Token, got: Token, pos: usize },
    NoPrefixRule { got: Token, pos: usize },
    DepthLimit,
}

/// The mathematical mirror of [`ParseError`].
#[verifier::ext_equal]
pub enum PErrV {
    UnexpectedToken { expected: TokenV, got: TokenV, pos: int },
    NoPrefixRule { got: TokenV, pos: int },
    DepthLimit,
}

impl View for ParseError {
    type V = PErrV;

    open spec fn view(&self) -> PErrV {
        match self {
            ParseError::UnexpectedToken { expected, got, pos } => PErrV::UnexpectedToken {
                expected: expected@,
                got: got@,
                pos: *pos as int,
            },
            ParseError::NoPrefixRule { got, pos } => PErrV::NoPrefixRule {
                got: got@,
                pos: *pos as int,
            },
            ParseError::DepthLimit => PErrV::DepthLimit,
        }
    }
}

/// The view of a token stream.
pub open spec fn tokens_view(s: Seq<Token>) -> Seq<TokenV> {
    Seq::new(s.len(), |i: int| s[i]@)
}

/// The token at a position; past the end the stream reads as `EOF`.
pub open spec fn tok_at_spec(toks: Seq<TokenV>, pos: int) -> TokenV {
    if 0 <= pos < toks.len() {
        toks[pos]
    } else {
        TokenV::EOF
    }
}

/// Whether `b` binds tighter than `a`.
pub open spec fn binds_tighter(a: Precedence, b: Precedence) -> bool {
    precedence_rank_spec(a) < precedence_rank_spec(b)
}

/// A statement: `let IDENT = expr (;)?`, `return expr (;)?`, or
/// `expr (;)?`.
pub open spec fn parse_statement_spec(toks: Seq<TokenV>, pos: int, fuel: nat) -> Result<
    (int, StmtV),
    PErrV,
>
    decreases fuel,
{
    if fuel == 0 {
        Err(PErrV::DepthLimit)
    } else {
        match tok_at_spec(toks, pos) {
            TokenV::LET => match tok_at_spec(toks, pos + 1) {
                TokenV::IDENT(name) => if tok_at_spec(toks, pos + 2) is ASSIGN {
                    match parse_expression_spec(toks, pos + 3, Precedence::LOWEST, (fuel - 1) as nat) {
                        Err(e) => Err(e),
                        Ok((p1, value)) => {
                            let p2 = if tok_at_spec(toks, p1) is SEMICOLON {
                                p1 + 1
                            } else {
                                p1
                            };
                            Ok((p2, StmtV::LetStmt { name, value }))
                        },
                    }
                } else {
                    Err(PErrV::UnexpectedToken {
                        expected: TokenV::ASSIGN,
                        got: tok_at_spec(toks, pos + 2),
                        pos: pos + 2,
                    })
                },
                other => Err(PErrV::UnexpectedToken {
                    expected: TokenV::IDENT(Seq::empty()),
                    got: other,
                    pos: pos + 1,
                }),
            },
            TokenV::RETURN => match parse_expression_spec(
                toks,
                pos + 1,
                Precedence::LOWEST,
                (fuel - 1) as nat,
            ) {
                Err(e) => Err(e),
                Ok((p1, value)) => {
                    let p2 = if tok_at_spec(toks, p1) is SEMICOLON {
                        p1 + 1
                    } else {
                        p1
                    };
                    Ok((p2, StmtV::ReturnStmt { value }))
                },
            },
            _ => match parse_expression_spec(toks, pos, Precedence::LOWEST, (fuel - 1) as nat) {
                Err(e) => Err(e),
                Ok((p1, expression)) => {
                    let p2 = if tok_at_spec(toks, p1) is SEMICOLON {
                        p1 + 1
                    } else {
                        p1
                    };
                    Ok((p2, StmtV::ExpressionStmt { expression }))
                },
            },
        }
    }
}

/// An expression at a given minimum binding strength: the lead token's
/// prefix rule, then infix rules while the next token binds tighter.
pub open spec fn parse_expression_spec(
    toks: Seq<TokenV>,
    pos: int,
    min_prec: Precedence,
    fuel: nat,
) -> Result<(int, ExprV), PErrV>
    decreases fuel,
{
    if fuel == 0 {
        Err(PErrV::DepthLimit)
    } else {
        match parse_prefix_spec(toks, pos, (fuel - 1) as nat) {
            Err(e) => Err(e),
            Ok((p1, left)) => parse_infix_chain_spec(toks, p1, min_prec, left, (fuel - 1) as nat),
        }
    }
}

/// The prefix rule of the lead token: literals, identifiers, `!` and
/// `-` (whose operand is the whole remaining expression), grouping,
/// `if` and `fn`.
pub open spec fn parse_prefix_spec(toks: Seq<TokenV>, pos: int, fuel: nat) -> Result<
    (int, ExprV),
    PErrV,
>
    decreases fuel,
{
    if fuel == 0 {
        Err(PErrV::DepthLimit)
    } else {
        match tok_at_spec(toks, pos) {
            TokenV::IDENT(s) => Ok((pos + 1, ExprV::Ident(s))),
            TokenV::INT(n) => Ok((pos + 1, ExprV::Integer(n))),
            TokenV::IMG(n) => Ok((pos + 1, ExprV::Complex { re: 0, im: n })),
            TokenV::TRUE => Ok((pos + 1, ExprV::Boolean(true))),
            TokenV::FALSE => Ok((pos + 1, ExprV::Boolean(false))),
            TokenV::BANG => match parse_expression_spec(
                toks,
                pos + 1,
                Precedence::LOWEST,
                (fuel - 1) as nat,
            ) {
                Err(e) => Err(e),
                Ok((p1, right)) => Ok(
                    (p1, ExprV::Prefix { operator: TokenV::BANG, right: Box::new(right) }),
                ),
            },
            TokenV::MINUS => match parse_expression_spec(
                toks,
                pos + 1,
                Precedence::LOWEST,
                (fuel - 1) as nat,
            ) {
                Err(e) => Err(e),
                Ok((p1, right)) => Ok(
                    (p1, ExprV::Prefix { operator: TokenV::MINUS, right: Box::new(right) }),
                ),
            },
            TokenV::LPAREN => match parse_expression_spec(
                toks,
                pos + 1,
                Precedence::LOWEST,
                (fuel - 1) as nat,
            ) {
                Err(e) => Err(e),
                Ok((p1, inner)) => if tok_at_spec(toks, p1) is RPAREN {
                    Ok((p1 + 1, inner))
                } else {
                    Err(PErrV::UnexpectedToken {
                        expected: TokenV::RPAREN,
                        got: tok_at_spec(toks, p1),
                        pos: p1,
                    })
                },
            },
            TokenV::IF => parse_if_spec(toks, pos + 1, (fuel - 1) as nat),
            TokenV::FUNCTION => parse_function_spec(toks, pos + 1, (fuel - 1) as nat),
            other => Err(PErrV::NoPrefixRule { got: other, pos: pos }),
        }
    }
}

/// The tail of an `if` expression, after the `if` keyword:
/// `( cond ) { block } (else { block })?`.
pub open spec fn parse_if_spec(toks: Seq<TokenV>, pos: int, fuel: nat) -> Result<
    (int, ExprV),
    PErrV,
>
    decreases fuel,
{
    if fuel == 0 {
        Err(PErrV::DepthLimit)
    } else if !(tok_at_spec(toks, pos) is LPAREN) {
        Err(PErrV::UnexpectedToken {
            expected: TokenV::LPAREN,
            got: tok_at_spec(toks, pos),
            pos: pos,
        })
    } else {
        match parse_expression_spec(toks, pos + 1, Precedence::LOWEST, (fuel - 1) as nat) {
            Err(e) => Err(e),
            Ok((p1, cond)) => if !(tok_at_spec(toks, p1) is RPAREN) {
                Err(PErrV::UnexpectedToken {
                    expected: TokenV::RPAREN,
                    got: tok_at_spec(toks, p1),
                    pos: p1,
                })
            } else if !(tok_at_spec(toks, p1 + 1) is LBRACE) {
                Err(PErrV::UnexpectedToken {
                    expected: TokenV::LBRACE,
                    got: tok_at_spec(toks, p1 + 1),
                    pos: p1 + 1,
                })
            } else {
                match parse_block_spec(toks, p1 + 2, (fuel - 1) as nat) {
                    Err(e) => Err(e),
                    Ok((p2, consq)) => if !(tok_at_spec(toks, p2) is RBRACE) {
                        Err(PErrV::UnexpectedToken {
                            expected: TokenV::RBRACE,
                            got: tok_at_spec(toks, p2),
                            pos: p2,
                        })
                    } else if tok_at_spec(toks, p2 + 1) is ELSE {
                        if !(tok_at_spec(toks, p2 + 2) is LBRACE) {
                            Err(PErrV::UnexpectedToken {
                                expected: TokenV::LBRACE,
                                got: tok_at_spec(toks, p2 + 2),
                                pos: p2 + 2,
                            })
                        } else {
                            match parse_block_spec(toks, p2 + 3, (fuel - 1) as nat) {
                                Err(e) => Err(e),
                                Ok((p3, alter)) => if tok_at_spec(toks, p3) is RBRACE {
                                    Ok(
                                        (
                                            p3 + 1,
                                            ExprV::IfExpr {
                                                condition: Box::new(cond),
                                                consequence: consq,
                                                alternative: alter,
                                            },
                                        ),
                                    )
                                } else {
                                    Err(PErrV::UnexpectedToken {
                                        expected: TokenV::RBRACE,
                                        got: tok_at_spec(toks, p3),
                                        pos: p3,
                                    })
                                },
                            }
                        }
                    } else {
                        Ok(
                            (
                                p2 + 1,
                                ExprV::IfExpr {
                                    condition: Box::new(cond),
                                    consequence: consq,
                                    alternative: Seq::empty(),
                                },
                            ),
                        )
                    },
                }
            },
        }
    }
}

/// The tail of a function literal, after the `fn` keyword:
/// `( params ) { block }`.
pub open spec fn parse_function_spec(toks: Seq<TokenV>, pos: int, fuel: nat) -> Result<
    (int, ExprV),
    PErrV,
>
    decreases fuel,
{
    if fuel == 0 {
        Err(PErrV::DepthLimit)
    } else if !(tok_at_spec(toks, pos) is LPAREN) {
        Err(PErrV::UnexpectedToken {
            expected: TokenV::LPAREN,
            got: tok_at_spec(toks, pos),
            pos: pos,
        })
    } else {
        match parse_params_spec(toks, pos + 1, (fuel - 1) as nat) {
            Err(e) => Err(e),
            Ok((p1, parameter)) => if !(tok_at_spec(toks, p1) is LBRACE) {
                Err(PErrV::UnexpectedToken {
                    expected: TokenV::LBRACE,
                    got: tok_at_spec(toks, p1),
                    pos: p1,
                })
            } else {
                match parse_block_spec(toks, p1 + 1, (fuel - 1) as nat) {
                    Err(e) => Err(e),
                    Ok((p2, body)) => if tok_at_spec(toks, p2) is RBRACE {
                        Ok((p2 + 1, ExprV::Function { parameter, body }))
                    } else {
                        Err(PErrV::UnexpectedToken {
                            expected: TokenV::RBRACE,
                            got: tok_at_spec(toks, p2),
                            pos: p2,
                        })
                    },
                }
            },
        }
    }
}

/// A parameter list up to and including its closing `)`.
pub open spec fn parse_params_spec(toks: Seq<TokenV>, pos: int, fuel: nat) -> Result<
    (int, Seq<Seq<char>>),
    PErrV,
>
    decreases fuel,
{
    if fuel == 0 {
        Err(PErrV::DepthLimit)
    } else {
        match tok_at_spec(toks, pos) {
            TokenV::RPAREN => Ok((pos + 1, Seq::empty())),
            TokenV::IDENT(s) => match parse_params_rest_spec(toks, pos + 1, (fuel - 1) as nat) {
                Err(e) => Err(e),
                Ok((p1, rest)) => Ok((p1, rest.insert(0, s))),
            },
            other => Err(PErrV::UnexpectedToken {
                expected: TokenV::IDENT(Seq::empty()),
                got: other,
                pos: pos,
            }),
        }
    }
}

/// The continuation of a parameter list: `, IDENT` pairs up to and
/// including the closing `)`.
pub open spec fn parse_params_rest_spec(toks: Seq<TokenV>, pos: int, fuel: nat) -> Result<
    (int, Seq<Seq<char>>),
    PErrV,
>
    decreases fuel,
{
    if fuel == 0 {
        Err(PErrV::DepthLimit)
    } else {
        match tok_at_spec(toks, pos) {
            TokenV::RPAREN => Ok((pos + 1, Seq::empty())),
            TokenV::COMMA => match tok_at_spec(toks, pos + 1) {
                TokenV::IDENT(s) => match parse_params_rest_spec(
                    toks,
                    pos + 2,
                    (fuel - 1) as nat,
                ) {
                    Err(e) => Err(e),
                    Ok((p1, rest)) => Ok((p1, rest.insert(0, s))),
                },
                other => Err(PErrV::UnexpectedToken {
                    expected: TokenV::IDENT(Seq::empty()),
                    got: other,
                    pos: pos + 1,
                }),
            },
            other => Err(PErrV::UnexpectedToken {
                expected: TokenV::RPAREN,
                got: other,
                pos: pos,
            }),
        }
    }
}

/// An argument list up to and including its closing `)`.
pub open spec fn parse_args_spec(toks: Seq<TokenV>, pos: int, fuel: nat) -> Result<
    (int, Seq<ExprV>),
    PErrV,
>
    decreases fuel,
{
    if fuel == 0 {
        Err(PErrV::DepthLimit)
    } else {
        match tok_at_spec(toks, pos) {
            TokenV::RPAREN => Ok((pos + 1, Seq::empty())),
            _ => match parse_expression_spec(toks, pos, Precedence::LOWEST, (fuel - 1) as nat) {
                Err(e) => Err(e),
                Ok((p1, e0)) => match parse_args_rest_spec(toks, p1, (fuel - 1) as nat) {
                    Err(e) => Err(e),
                    Ok((p2, rest)) => Ok((p2, rest.insert(0, e0))),
                },
            },
        }
    }
}

/// The continuation of an argument list: `, expr` pairs up to and
/// including the closing `)`.
pub open spec fn parse_args_rest_spec(toks: Seq<TokenV>, pos: int, fuel: nat) -> Result<
    (int, Seq<ExprV>),
    PErrV,
>
    decreases fuel,
{
    if fuel == 0 {
        Err(PErrV::DepthLimit)
    } else {
        match tok_at_spec(toks, pos) {
            TokenV::RPAREN => Ok((pos + 1, Seq::empty())),
            TokenV::COMMA => match parse_expression_spec(
                toks,
                pos + 1,
                Precedence::LOWEST,
                (fuel - 1) as nat,
            ) {
                Err(e) => Err(e),
                Ok((p1, e0)) => match parse_args_rest_spec(toks, p1, (fuel - 1) as nat) {
                    Err(e) => Err(e),
                    Ok((p2, rest)) => Ok((p2, rest.insert(0, e0))),
                },
            },
            other => Err(PErrV::UnexpectedToken {
                expected: TokenV::RPAREN,
                got: other,
                pos: pos,
            }),
        }
    }
}

/// Folds infix operators onto `left` while the next token binds
/// tighter than `min_prec`; a `;` always ends the expression, and `(`
/// folds a call.
pub open spec fn parse_infix_chain_spec(
    toks: Seq<TokenV>,
    pos: int,
    min_prec: Precedence,
    left: ExprV,
    fuel: nat,
) -> Result<(int, ExprV), PErrV>
    decreases fuel,
{
    if fuel == 0 {
        Err(PErrV::DepthLimit)
    } else {
        let t = tok_at_spec(toks, pos);
        if t is SEMICOLON {
            Ok((pos, left))
        } else if binds_tighter(min_prec, take_precedence_spec(t)) {
            if t is LPAREN {
                match parse_args_spec(toks, pos + 1, (fuel - 1) as nat) {
                    Err(e) => Err(e),
                    Ok((p1, arguments)) => parse_infix_chain_spec(
                        toks,
                        p1,
                        min_prec,
                        ExprV::Call { function: Box::new(left), arguments },
                        (fuel - 1) as nat,
                    ),
                }
            } else {
                match parse_expression_spec(
                    toks,
                    pos + 1,
                    take_precedence_spec(t),
                    (fuel - 1) as nat,
                ) {
                    Err(e) => Err(e),
                    Ok((p1, right)) => parse_infix_chain_spec(
                        toks,
                        p1,
                        min_prec,
                        ExprV::Infix { left: Box::new(left), operator: t, right: Box::new(right) },
                        (fuel - 1) as nat,
                    ),
                }
            }
        } else {
            Ok((pos, left))
        }
    }
}

/// A statement block up to (not including) its closing `}`; reaching
/// the end of the stream instead is an error.
pub open spec fn parse_block_spec(toks: Seq<TokenV>, pos: int, fuel: nat) -> Result<
    (int, Seq<StmtV>),
    PErrV,
>
    decreases fuel,
{
    if fuel == 0 {
        Err(PErrV::DepthLimit)
    } else {
        match tok_at_spec(toks, pos) {
            TokenV::RBRACE => Ok((pos, Seq::empty())),
            TokenV::EOF => Err(PErrV::UnexpectedToken {
                expected: TokenV::RBRACE,
                got: TokenV::EOF,
                pos: pos,
            }),
            _ => match parse_statement_spec(toks, pos, (fuel - 1) as nat) {
                Err(e) => Err(e),
                Ok((p1, stmt)) => match parse_block_spec(toks, p1, (fuel - 1) as nat) {
                    Err(e) => Err(e),
                    Ok((p2, rest)) => Ok((p2, rest.insert(0, stmt))),
                },
            },
        }
    }
}

/// A whole program: statements until the end of the stream.
pub open spec fn parse_program_from_spec(toks: Seq<TokenV>, pos: int, fuel: nat) -> Result<
    Seq<StmtV>,
    PErrV,
>
    decreases fuel,
{
    if fuel == 0 {
        Err(PErrV::DepthLimit)
    } else {
        match tok_at_spec(toks, pos) {
            TokenV::EOF => Ok(Seq::empty()),
            _ => match parse_statement_spec(toks, pos, (fuel - 1) as nat) {
                Err(e) => Err(e),
                Ok((p1, stmt)) => match parse_program_from_spec(toks, p1, (fuel - 1) as nat) {
                    Err(e) => Err(e),
                    Ok(rest) => Ok(rest.insert(0, stmt)),
                },
            },
        }
    }
}

/// What `parse_program` returns: the full statement sequence of the
/// token stream, or its first parse error.
pub open spec fn parse_program_spec(toks: Seq<TokenV>) -> Result<Seq<StmtV>, PErrV> {
    parse_program_from_spec(toks, 0, PARSE_BUDGET as nat)
}

/// `stmts_view` commutes with prepending a statement.
proof fn lemma_stmts_view_insert0(s: Seq<Statement>, x: Statement)
    ensures
        stmts_view(s.insert(0, x)) == stmts_view(s).insert(0, x@),
{
    lemma_stmts_view_len(s);
    lemma_stmts_view_len(s.insert(0, x));
    assert forall|j: int| 0 <= j < s.len() + 1 implies stmts_view(s.insert(0, x))[j] == stmts_view(
        s,
    ).insert(0, x@)[j] by {
        lemma_stmts_view_index(s.insert(0, x), j);
        if j > 0 {
            lemma_stmts_view_index(s, j - 1);
        }
    }
    assert(stmts_view(s.insert(0, x)) =~= stmts_view(s).insert(0, x@));
}

/// `exprs_view` commutes with prepending an expression.
proof fn lemma_exprs_view_insert0(s: Seq<Expression>, x: Expression)
    ensures
        exprs_view(s.insert(0, x)) == exprs_view(s).insert(0, x@),
{
    lemma_exprs_view_len(s);
    lemma_exprs_view_len(s.insert(0, x));
    assert forall|j: int| 0 <= j < s.len() + 1 implies exprs_view(s.insert(0, x))[j] == exprs_view(
        s,
    ).insert(0, x@)[j] by {
        lemma_exprs_view_index(s.insert(0, x), j);
        if j > 0 {
            lemma_exprs_view_index(s, j - 1);
        }
    }
    assert(exprs_view(s.insert(0, x)) =~= exprs_view(s).insert(0, x@));
}

/// `strings_view` commutes with prepending a name.
proof fn lemma_strings_view_insert0(s: Seq<String>, x: String)
    ensures
        strings_view(s.insert(0, x)) == strings_view(s).insert(0, x@),
{
    assert(strings_view(s.insert(0, x)) =~= strings_view(s).insert(0, x@));
}

/// Reads the token at `pos`; past the end the stream reads as `EOF`.
fn tok_at(toks: &Vec<Token>, pos: usize) -> (t: Token)
    ensures
        t@ == tok_at_spec(tokens_view(toks@), pos as int),
        !(t@ is EOF) ==> pos < toks@.len(),
        toks@.len() <= usize::MAX,
{
    proof {
        assert(toks.len() == toks@.len());
    }
    if pos < toks.len() {
        token_clone(&toks[pos])
    } else {
        Token::EOF
    }
}

/// Parses one statement starting at `pos`.
fn parse_statement(toks: &Vec<Token>, pos: usize, fuel: u64) -> (r: Result<
    (usize, Statement),
    ParseError,
>)
    requires
        pos <= toks@.len(),
    ensures
        ({
            let s = parse_statement_spec(tokens_view(toks@), pos as int, fuel as nat);
            match r {
                Ok((p, stmt)) => s == Ok::<(int, StmtV), PErrV>((p as int, stmt@)) && p
                    <= toks@.len(),
                Err(e) => s == Err::<(int, StmtV), PErrV>(e@),
            }
        }),
    decreases fuel,
{
    if fuel == 0 {
        return Err(ParseError::DepthLimit);
    }
    let lead = tok_at(toks, pos);
    match lead {
        Token::LET => {
            let name_tok = tok_at(toks, pos + 1);
            match name_tok {
                Token::IDENT(name) => {
                    let assign_tok = tok_at(toks, pos + 2);
                    if let Token::ASSIGN = assign_tok {
                        match parse_expression(toks, pos + 3, Precedence::LOWEST, fuel - 1) {
                            Err(e) => Err(e),
                            Ok((p1, value)) => {
                                let semi = tok_at(toks, p1);
                                let p2 = if let Token::SEMICOLON = semi {
                                    p1 + 1
                                } else {
                                    p1
                                };
                                Ok((p2, Statement::LetStmt { name, value }))
                            },
                        }
                    } else {
                        Err(ParseError::UnexpectedToken {
                            expected: Token::ASSIGN,
                            got: assign_tok,
                            pos: pos + 2,
                        })
                    }
                },
                other => Err(ParseError::UnexpectedToken {
                    expected: Token::IDENT(String::new()),
                    got: other,
                    pos: pos + 1,
                }),
            }
        },
        Token::RETURN => match parse_expression(toks, pos + 1, Precedence::LOWEST, fuel - 1) {
            Err(e) => Err(e),
            Ok((p1, value)) => {
                let semi = tok_at(toks, p1);
                let p2 = if let Token::SEMICOLON = semi {
                    p1 + 1
                } else {
                    p1
                };
                Ok((p2, Statement::ReturnStmt { value }))
            },
        },
        _ => match parse_expression(toks, pos, Precedence::LOWEST, fuel - 1) {
            Err(e) => Err(e),
            Ok((p1, expression)) => {
                let semi = tok_at(toks, p1);
                let p2 = if let Token::SEMICOLON = semi {
                    p1 + 1
                } else {
                    p1
                };
                Ok((p2, Statement::ExpressionStmt { expression }))
            },
        },
    }
}

/// Parses one expression starting at `pos` at a minimum binding
/// strength.
fn parse_expression(toks: &Vec<Token>, pos: usize, min_prec: Precedence, fuel: u64) -> (r: Result<
    (usize, Expression),
    ParseError,
>)
    requires
        pos <= toks@.len(),
    ensures
        ({
            let s = parse_expression_spec(tokens_view(toks@), pos as int, min_prec, fuel as nat);
            match r {
                Ok((p, e)) => s == Ok::<(int, ExprV), PErrV>((p as int, e@)) && p <= toks@.len(),
                Err(e) => s == Err::<(int, ExprV), PErrV>(e@),
            }
        }),
    decreases fuel,
{
    if fuel == 0 {
        return Err(ParseError::DepthLimit);
    }
    match parse_prefix(toks, pos, fuel - 1) {
        Err(e) => Err(e),
        Ok((p1, left)) => parse_infix_chain(toks, p1, min_prec, left, fuel - 1),
    }
}

/// Applies the prefix rule of the token at `pos`.
fn parse_prefix(toks: &Vec<Token>, pos: usize, fuel: u64) -> (r: Result<
    (usize, Expression),
    ParseError,
>)
    requires
        pos <= toks@.len(),
    ensures
        ({
            let s = parse_prefix_spec(tokens_view(toks@), pos as int, fuel as nat);
            match r {
                Ok((p, e)) => s == Ok::<(int, ExprV), PErrV>((p as int, e@)) && p <= toks@.len(),
                Err(e) => s == Err::<(int, ExprV), PErrV>(e@),
            }
        }),
    decreases fuel,
{
    if fuel == 0 {
        return Err(ParseError::DepthLimit);
    }
    let lead = tok_at(toks, pos);
    match lead {
        Token::IDENT(s) => Ok((pos + 1, Expression::Ident(s))),
        Token::INT(n) => Ok((pos + 1, Expression::Integer(n))),
        Token::IMG(n) => Ok((pos + 1, Expression::Complex { re: 0, im: n })),
        Token::TRUE => Ok((pos + 1, Expression::Boolean(true))),
        Token::FALSE => Ok((pos + 1, Expression::Boolean(false))),
        Token::BANG => match parse_expression(toks, pos + 1, Precedence::LOWEST, fuel - 1) {
            Err(e) => Err(e),
            Ok((p1, right)) => Ok(
                (p1, Expression::Prefix { operator: Token::BANG, right: Box::new(right) }),
            ),
        },
        Token::MINUS => match parse_expression(toks, pos + 1, Precedence::LOWEST, fuel - 1) {
            Err(e) => Err(e),
            Ok((p1, right)) => Ok(
                (p1, Expression::Prefix { operator: Token::MINUS, right: Box::new(right) }),
            ),
        },
        Token::LPAREN => match parse_expression(toks, pos + 1, Precedence::LOWEST, fuel - 1) {
            Err(e) => Err(e),
            Ok((p1, inner)) => {
                let close = tok_at(toks, p1);
                if let Token::RPAREN = close {
                    Ok((p1 + 1, inner))
                } else {
                    Err(ParseError::UnexpectedToken {
                        expected: Token::RPAREN,
                        got: close,
                        pos: p1,
                    })
                }
            },
        },
        Token::IF => parse_if(toks, pos + 1, fuel - 1),
        Token::FUNCTION => parse_function(toks, pos + 1, fuel - 1),
        other => Err(ParseError::NoPrefixRule { got: other, pos }),
    }
}

/// Parses the tail of an `if` expression, after the `if` keyword.
fn parse_if(toks: &Vec<Token>, pos: usize, fuel: u64) -> (r: Result<
    (usize, Expression),
    ParseError,
>)
    requires
        pos <= toks@.len(),
    ensures
        ({
            let s = parse_if_spec(tokens_view(toks@), pos as int, fuel as nat);
            match r {
                Ok((p, e)) => s == Ok::<(int, ExprV), PErrV>((p as int, e@)) && p <= toks@.len(),
                Err(e) => s == Err::<(int, ExprV), PErrV>(e@),
            }
        }),
    decreases fuel,
{
    if fuel == 0 {
        return Err(ParseError::DepthLimit);
    }
    let open = tok_at(toks, pos);
    if !(matches!(open, Token::LPAREN)) {
        return Err(ParseError::UnexpectedToken { expected: Token::LPAREN, got: open, pos });
    }
    match parse_expression(toks, pos + 1, Precedence::LOWEST, fuel - 1) {
        Err(e) => Err(e),
        Ok((p1, cond)) => {
            let close = tok_at(toks, p1);
            if !(matches!(close, Token::RPAREN)) {
                return Err(ParseError::UnexpectedToken {
                    expected: Token::RPAREN,
                    got: close,
                    pos: p1,
                });
            }
            let brace = tok_at(toks, p1 + 1);
            if !(matches!(brace, Token::LBRACE)) {
                return Err(ParseError::UnexpectedToken {
                    expected: Token::LBRACE,
                    got: brace,
                    pos: p1 + 1,
                });
            }
            match parse_block(toks, p1 + 2, fuel - 1) {
                Err(e) => Err(e),
                Ok((p2, consq)) => {
                    let rbrace = tok_at(toks, p2);
                    if !(matches!(rbrace, Token::RBRACE)) {
                        return Err(ParseError::UnexpectedToken {
                            expected: Token::RBRACE,
                            got: rbrace,
                            pos: p2,
                        });
                    }
                    let els = tok_at(toks, p2 + 1);
                    if matches!(els, Token::ELSE) {
                        let brace2 = tok_at(toks, p2 + 2);
                        if !(matches!(brace2, Token::LBRACE)) {
                            return Err(ParseError::UnexpectedToken {
                                expected: Token::LBRACE,
                                got: brace2,
                                pos: p2 + 2,
                            });
                        }
                        match parse_block(toks, p2 + 3, fuel - 1) {
                            Err(e) => Err(e),
                            Ok((p3, alter)) => {
                                let rbrace2 = tok_at(toks, p3);
                                if matches!(rbrace2, Token::RBRACE) {
                                    Ok(
                                        (
                                            p3 + 1,
                                            Expression::IfExpr {
                                                condition: Box::new(cond),
                                                consequence: consq,
                                                alternative: alter,
                                            },
                                        ),
                                    )
                                } else {
                                    Err(ParseError::UnexpectedToken {
                                        expected: Token::RBRACE,
                                        got: rbrace2,
                                        pos: p3,
                                    })
                                }
                            },
                        }
                    } else {
                        let alter: Vec<Statement> = Vec::new();
                        proof {
                            assert(alter@ =~= Seq::<Statement>::empty());
                            assert(stmts_view(alter@) =~= Seq::<StmtV>::empty());
                        }
                        Ok(
                            (
                                p2 + 1,
                                Expression::IfExpr {
                                    condition: Box::new(cond),
                                    consequence: consq,
                                    alternative: alter,
                                },
                            ),
                        )
                    }
                },
            }
        },
    }
}

/// Parses the tail of a function literal, after the `fn` keyword.
fn parse_function(toks: &Vec<Token>, pos: usize, fuel: u64) -> (r: Result<
    (usize, Expression),
    ParseError,
>)
    requires
        pos <= toks@.len(),
    ensures
        ({
            let s = parse_function_spec(tokens_view(toks@), pos as int, fuel as nat);
            match r {
                Ok((p, e)) => s == Ok::<(int, ExprV), PErrV>((p as int, e@)) && p <= toks@.len(),
                Err(e) => s == Err::<(int, ExprV), PErrV>(e@),
            }
        }),
    decreases fuel,
{
    if fuel == 0 {
        return Err(ParseError::DepthLimit);
    }
    let open = tok_at(toks, pos);
    if !(matches!(open, Token::LPAREN)) {
        return Err(ParseError::UnexpectedToken { expected: Token::LPAREN, got: open, pos });
    }
    match parse_params(toks, pos + 1, fuel - 1) {
        Err(e) => Err(e),
        Ok((p1, parameter)) => {
            let brace = tok_at(toks, p1);
            if !(matches!(brace, Token::LBRACE)) {
                return Err(ParseError::UnexpectedToken {
                    expected: Token::LBRACE,
                    got: brace,
                    pos: p1,
                });
            }
            match parse_block(toks, p1 + 1, fuel - 1) {
                Err(e) => Err(e),
                Ok((p2, body)) => {
                    let rbrace = tok_at(toks, p2);
                    if matches!(rbrace, Token::RBRACE) {
                        Ok((p2 + 1, Expression::Function { parameter, body }))
                    } else {
                        Err(ParseError::UnexpectedToken {
                            expected: Token::RBRACE,
                            got: rbrace,
                            pos: p2,
                        })
                    }
                },
            }
        },
    }
}

/// Parses a parameter list up to and including its closing `)`.
fn parse_params(toks: &Vec<Token>, pos: usize, fuel: u64) -> (r: Result<
    (usize, Vec<String>),
    ParseError,
>)
    requires
        pos <= toks@.len(),
    ensures
        ({
            let s = parse_params_spec(tokens_view(toks@), pos as int, fuel as nat);
            match r {
                Ok((p, v)) => s == Ok::<(int, Seq<Seq<char>>), PErrV>(
                    (p as int, strings_view(v@)),
                ) && p <= toks@.len(),
                Err(e) => s == Err::<(int, Seq<Seq<char>>), PErrV>(e@),
            }
        }),
    decreases fuel,
{
    if fuel == 0 {
        return Err(ParseError::DepthLimit);
    }
    let lead = tok_at(toks, pos);
    match lead {
        Token::RPAREN => {
            let out: Vec<String> = Vec::new();
            proof {
                assert(out@ =~= Seq::<String>::empty());
                assert(strings_view(out@) =~= Seq::<Seq<char>>::empty());
            }
            Ok((pos + 1, out))
        },
        Token::IDENT(s) => match parse_params_rest(toks, pos + 1, fuel - 1) {
            Err(e) => Err(e),
            Ok((p1, mut rest)) => {
                let ghost before = rest@;
                rest.insert(0, s);
                proof {
                    lemma_strings_view_insert0(before, rest@[0]);
                }
                Ok((p1, rest))
            },
        },
        other => Err(ParseError::UnexpectedToken {
            expected: Token::IDENT(String::new()),
            got: other,
            pos,
        }),
    }
}

/// Parses the continuation of a parameter list.
fn parse_params_rest(toks: &Vec<Token>, pos: usize, fuel: u64) -> (r: Result<
    (usize, Vec<String>),
    ParseError,
>)
    requires
        pos <= toks@.len(),
    ensures
        ({
            let s = parse_params_rest_spec(tokens_view(toks@), pos as int, fuel as nat);
            match r {
                Ok((p, v)) => s == Ok::<(int, Seq<Seq<char>>), PErrV>(
                    (p as int, strings_view(v@)),
                ) && p <= toks@.len(),
                Err(e) => s == Err::<(int, Seq<Seq<char>>), PErrV>(e@),
            }
        }),
    decreases fuel,
{
    if fuel == 0 {
        return Err(ParseError::DepthLimit);
    }
    let lead = tok_at(toks, pos);
    match lead {
        Token::RPAREN => {
            let out: Vec<String> = Vec::new();
            proof {
                assert(out@ =~= Seq::<String>::empty());
                assert(strings_view(out@) =~= Seq::<Seq<char>>::empty());
            }
            Ok((pos + 1, out))
        },
        Token::COMMA => {
            let name_tok = tok_at(toks, pos + 1);
            match name_tok {
                Token::IDENT(s) => match parse_params_rest(toks, pos + 2, fuel - 1) {
                    Err(e) => Err(e),
                    Ok((p1, mut rest)) => {
                        let ghost before = rest@;
                        rest.insert(0, s);
                        proof {
                            lemma_strings_view_insert0(before, rest@[0]);
                        }
                        Ok((p1, rest))
                    },
                },
                other => Err(ParseError::UnexpectedToken {
                    expected: Token::IDENT(String::new()),
                    got: other,
                    pos: pos + 1,
                }),
            }
        },
        other => Err(ParseError::UnexpectedToken { expected: Token::RPAREN, got: other, pos }),
    }
}

/// Parses an argument list up to and including its closing `)`.
fn parse_args(toks: &Vec<Token>, pos: usize, fuel: u64) -> (r: Result<
    (usize, Vec<Expression>),
    ParseError,
>)
    requires
        pos <= toks@.len(),
    ensures
        ({
            let s = parse_args_spec(tokens_view(toks@), pos as int, fuel as nat);
            match r {
                Ok((p, v)) => s == Ok::<(int, Seq<ExprV>), PErrV>((p as int, exprs_view(v@))) && p
                    <= toks@.len(),
                Err(e) => s == Err::<(int, Seq<ExprV>), PErrV>(e@),
            }
        }),
    decreases fuel,
{
    if fuel == 0 {
        return Err(ParseError::DepthLimit);
    }
    let lead = tok_at(toks, pos);
    if matches!(lead, Token::RPAREN) {
        let out: Vec<Expression> = Vec::new();
        proof {
            assert(out@ =~= Seq::<Expression>::empty());
            assert(exprs_view(out@) =~= Seq::<ExprV>::empty());
        }
        return Ok((pos + 1, out));
    }
    match parse_expression(toks, pos, Precedence::LOWEST, fuel - 1) {
        Err(e) => Err(e),
        Ok((p1, e0)) => match parse_args_rest(toks, p1, fuel - 1) {
            Err(e) => Err(e),
            Ok((p2, mut rest)) => {
                let ghost before = rest@;
                let ghost e0v = e0@;
                rest.insert(0, e0);
                proof {
                    lemma_exprs_view_insert0(before, rest@[0]);
                }
                Ok((p2, rest))
            },
        },
    }
}

/// Parses the continuation of an argument list.
fn parse_args_rest(toks: &Vec<Token>, pos: usize, fuel: u64) -> (r: Result<
    (usize, Vec<Expression>),
    ParseError,
>)
    requires
        pos <= toks@.len(),
    ensures
        ({
            let s = parse_args_rest_spec(tokens_view(toks@), pos as int, fuel as nat);
            match r {
                Ok((p, v)) => s == Ok::<(int, Seq<ExprV>), PErrV>((p as int, exprs_view(v@))) && p
                    <= toks@.len(),
                Err(e) => s == Err::<(int, Seq<ExprV>), PErrV>(e@),
            }
        }),
    decreases fuel,
{
    if fuel == 0 {
        return Err(ParseError::DepthLimit);
    }
    let lead = tok_at(toks, pos);
    match lead {
        Token::RPAREN => {
            let out: Vec<Expression> = Vec::new();
            proof {
                assert(out@ =~= Seq::<Expression>::empty());
                assert(exprs_view(out@) =~= Seq::<ExprV>::empty());
            }
            Ok((pos + 1, out))
        },
        Token::COMMA => match parse_expression(toks, pos + 1, Precedence::LOWEST, fuel - 1) {
            Err(e) => Err(e),
            Ok((p1, e0)) => match parse_args_rest(toks, p1, fuel - 1) {
                Err(e) => Err(e),
                Ok((p2, mut rest)) => {
                    let ghost before = rest@;
                    rest.insert(0, e0);
                    proof {
                        lemma_exprs_view_insert0(before, rest@[0]);
                    }
                    Ok((p2, rest))
                },
            },
        },
        other => Err(ParseError::UnexpectedToken { expected: Token::RPAREN, got: other, pos }),
    }
}

/// Folds infix operators onto `left` while the next token binds
/// tighter than `min_prec`.
fn parse_infix_chain(
    toks: &Vec<Token>,
    pos: usize,
    min_prec: Precedence,
    left: Expression,
    fuel: u64,
) -> (r: Result<(usize, Expression), ParseError>)
    requires
        pos <= toks@.len(),
    ensures
        ({
            let s = parse_infix_chain_spec(
                tokens_view(toks@),
                pos as int,
                min_prec,
                left@,
                fuel as nat,
            );
            match r {
                Ok((p, e)) => s == Ok::<(int, ExprV), PErrV>((p as int, e@)) && p <= toks@.len(),
                Err(e) => s == Err::<(int, ExprV), PErrV>(e@),
            }
        }),
    decreases fuel,
{
    if fuel == 0 {
        return Err(ParseError::DepthLimit);
    }
    let t = tok_at(toks, pos);
    if matches!(t, Token::SEMICOLON) {
        proof {
            assert(pos <= toks@.len());
        }
        return Ok((pos, left));
    }
    let t_prec = Precedence::take_precedence(&t);
    if precedence_rank(min_prec) < precedence_rank(t_prec) {
        if matches!(t, Token::LPAREN) {
            match parse_args(toks, pos + 1, fuel - 1) {
                Err(e) => Err(e),
                Ok((p1, arguments)) => {
                    let call = Expression::Call { function: Box::new(left), arguments };
                    parse_infix_chain(toks, p1, min_prec, call, fuel - 1)
                },
            }
        } else {
            match parse_expression(toks, pos + 1, t_prec, fuel - 1) {
                Err(e) => Err(e),
                Ok((p1, right)) => {
                    let infix = Expression::Infix {
                        left: Box::new(left),
                        operator: t,
                        right: Box::new(right),
                    };
                    parse_infix_chain(toks, p1, min_prec, infix, fuel - 1)
                },
            }
        }
    } else {
        proof {
            assert(pos <= toks@.len());
        }
        Ok((pos, left))
    }
}

/// Parses a statement block up to (not including) its closing `}`.
fn parse_block(toks: &Vec<Token>, pos: usize, fuel: u64) -> (r: Result<
    (usize, Vec<Statement>),
    ParseError,
>)
    requires
        pos <= toks@.len(),
    ensures
        ({
            let s = parse_block_spec(tokens_view(toks@), pos as int, fuel as nat);
            match r {
                Ok((p, v)) => s == Ok::<(int, Seq<StmtV>), PErrV>((p as int, stmts_view(v@))) && p
                    <= toks@.len(),
                Err(e) => s == Err::<(int, Seq<StmtV>), PErrV>(e@),
            }
        }),
    decreases fuel,
{
    if fuel == 0 {
        return Err(ParseError::DepthLimit);
    }
    let lead = tok_at(toks, pos);
    match lead {
        Token::RBRACE => {
            let out: Vec<Statement> = Vec::new();
            proof {
                assert(out@ =~= Seq::<Statement>::empty());
                assert(stmts_view(out@) =~= Seq::<StmtV>::empty());
                assert(pos <= toks@.len());
            }
            Ok((pos, out))
        },
        Token::EOF => Err(ParseError::UnexpectedToken {
            expected: Token::RBRACE,
            got: Token::EOF,
            pos,
        }),
        _ => match parse_statement(toks, pos, fuel - 1) {
            Err(e) => Err(e),
            Ok((p1, stmt)) => match parse_block(toks, p1, fuel - 1) {
                Err(e) => Err(e),
                Ok((p2, mut rest)) => {
                    let ghost before = rest@;
                    rest.insert(0, stmt);
                    proof {
                        lemma_stmts_view_insert0(before, rest@[0]);
                    }
                    Ok((p2, rest))
                },
            },
        },
    }
}

/// Parses a whole program from `pos` to the end of the stream.
fn parse_program_from(toks: &Vec<Token>, pos: usize, fuel: u64) -> (r: Result<
    Vec<Statement>,
    ParseError,
>)
    requires
        pos <= toks@.len(),
    ensures
        ({
            let s = parse_program_from_spec(tokens_view(toks@), pos as int, fuel as nat);
            match r {
                Ok(v) => s == Ok::<Seq<StmtV>, PErrV>(stmts_view(v@)),
                Err(e) => s == Err::<Seq<StmtV>, PErrV>(e@),
            }
        }),
    decreases fuel,
{
    if fuel == 0 {
        return Err(ParseError::DepthLimit);
    }
    let lead = tok_at(toks, pos);
    if matches!(lead, Token::EOF) {
        let out: Vec<Statement> = Vec::new();
        proof {
            assert(out@ =~= Seq::<Statement>::empty());
            assert(stmts_view(out@) =~= Seq::<StmtV>::empty());
        }
        return Ok(out);
    }
    match parse_statement(toks, pos, fuel - 1) {
        Err(e) => Err(e),
        Ok((p1, stmt)) => match parse_program_from(toks, p1, fuel - 1) {
            Err(e) => Err(e),
            Ok(mut rest) => {
                let ghost before = rest@;
                rest.insert(0, stmt);
                proof {
                    lemma_stmts_view_insert0(before, rest@[0]);
                }
                Ok(rest)
            },
        },
    }
}

/// Parses a full token stream into a program: the ordered statement
/// sequence of the source, or the first parse error. No partially
/// built program is ever returned.
pub fn parse_program(tokens: &Vec<Token>) -> (r: Result<Vec<Statement>, ParseError>)
    ensures
        ({
            let s = parse_program_spec(tokens_view(tokens@));
            match r {
                Ok(v) => s == Ok::<Seq<StmtV>, PErrV>(stmts_view(v@)),
                Err(e) => s == Err::<Seq<StmtV>, PErrV>(e@),
            }
        }),
{
    parse_program_from(tokens, 0, PARSE_BUDGET)
}

} // verus!
