//! A tree-walking interpreter for a small dynamically typed expression
//! language with integers, Gaussian-integer complex numbers, booleans,
//! strings, arrays, first-class functions with lexical closures, and a
//! fixed set of builtin functions.
//!
//! The crate is organised along the pipeline: the token alphabet
//! ([`token`]), the precedence-climbing parser ([`parser`]) building
//! the AST ([`ast`]), and the tree-walking evaluator ([`evaluator`])
//! over the runtime object and environment model ([`object`],
//! [`builtin`]).
//!
//! Every executable function is specified against a mathematical
//! model: ghost mirrors of the AST, object and environment types, and
//! definitional interpreters over those mirrors.
mod ast;
mod builtin;
mod evaluator;
mod object;
mod parser;
mod token;

pub use ast::ExprV;
pub use ast::Expression;
pub use ast::Precedence;
pub use ast::Statement;
pub use ast::StmtV;
pub use builtin::BuiltInFnt;
pub use evaluator::EVAL_BUDGET;
pub use evaluator::apply_function;
pub use evaluator::eval;
pub use evaluator::eval_bang_operator_expr;
pub use evaluator::eval_complex_infix_expr;
pub use evaluator::eval_expr;
pub use evaluator::eval_expressions;
pub use evaluator::eval_fueled;
pub use evaluator::eval_identifier;
pub use evaluator::eval_if_expr;
pub use evaluator::eval_infix_expr;
pub use evaluator::eval_integer_infix_expr;
pub use evaluator::eval_minus_operator_expr;
pub use evaluator::eval_num_infix_expr;
pub use evaluator::eval_prefix_expr;
pub use evaluator::eval_program;
pub use evaluator::eval_stmts;
pub use evaluator::extended_function_env;
pub use evaluator::is_truthy;
pub use object::Environment;
pub use object::EnvV;
pub use object::Frame;
pub use object::FrameV;
pub use object::EvalError;
pub use object::Kind;
pub use object::ObjV;
pub use object::Object;
pub use parser::ParseError;
pub use parser::parse_program;
pub use token::Token;
pub use token::TokenV;
pub use token::is_letter;
