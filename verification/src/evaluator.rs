//! The tree-walking evaluator: executes a program or a single statement
//! against an environment. All runtime semantics — truthiness, numeric
//! dispatch, closures, builtins, error propagation — are defined here,
//! first as a definitional interpreter over the ghost mirrors and then
//! as executable functions proved to follow it.
//!
//! Recursion through user-defined functions is not structurally bounded,
//! so every evaluation carries a depth budget; exhausting it yields the
//! `DepthLimit` error. The budget is far beyond any depth a host stack
//! could survive, so it never fires in practice.
use vstd::prelude::*;

use crate::ast::ExprV;
use crate::ast::Expression;
use crate::ast::Statement;
use crate::ast::StmtV;
use crate::ast::exprs_view;
use crate::ast::lemma_exprs_view_index;
use crate::ast::lemma_exprs_view_len;
use crate::ast::lemma_stmts_view_index;
use crate::ast::lemma_stmts_view_len;
use crate::ast::stmts_clone;
use crate::ast::stmts_view;
use crate::ast::strings_clone;
use crate::ast::strings_view;
use crate::builtin::BuiltInFnt;
use crate::builtin::builtin_call_spec;
use crate::builtin::builtin_of_name_spec;
use crate::object::EnvV;
use crate::object::Environment;
use crate::object::Frame;
use crate::object::FrameV;
use crate::object::frame_view;
use crate::object::lemma_frames_view_len;
use crate::object::lemma_chain_prefix_agrees;
use crate::object::lemma_store_view_index;
use crate::object::lemma_store_view_len;
use crate::object::lookup_chain_spec;
use crate::object::lookup_store_spec;
use crate::object::store_view;
use crate::object::ErrV;
use crate::object::EvalError;
use crate::object::Kind;
use crate::object::ObjV;
use crate::object::Object;
use crate::object::env_set_spec;
use crate::object::kind_of;
use crate::object::lemma_objs_view_index;
use crate::object::lemma_objs_view_len;
use crate::object::lookup_spec;
use crate::object::obj_clone;
use crate::object::obj_eq;
use crate::object::obj_view;
use crate::object::objs_view;
use crate::object::res_view;
use crate::object::to_complex_spec;
use crate::token::Token;
use crate::token::TokenV;
use crate::token::token_clone;

verus! {

broadcast use vstd::std_specs::vec::group_vec_axioms, vstd::seq::group_seq_axioms;

/// The evaluation depth budget handed to each top-level statement. Far
/// deeper than any host call stack; reaching it yields `DepthLimit`.
pub const EVAL_BUDGET: u64 = 0xffff_ffff_ffff_ffff;

/// Truthiness: `Null` and `false` are falsy, every other value is
/// truthy.
pub open spec fn truthy_spec(o: ObjV) -> bool {
    !(o == ObjV::Null || o == ObjV::Boolean { value: false })
}

/// The `!` operator: truthiness negation. `!x` is the boolean negation
/// of `x`'s truthiness, so `!!x` recovers truthiness, not `x` itself.
pub open spec fn bang_spec(o: ObjV) -> Result<ObjV, ErrV> {
    Ok(ObjV::Boolean { value: !truthy_spec(o) })
}

/// The prefix `-` operator: negates an integer, or both parts of a
/// complex number; anything else is an unknown-prefix error.
pub open spec fn minus_spec(o: ObjV) -> Result<ObjV, ErrV> {
    match o {
        ObjV::Integer { value } => if value == i64::MIN {
            Err(ErrV::Overflow)
        } else {
            Ok(ObjV::Integer { value: (-value) as i64 })
        },
        ObjV::Complex { re, im } => if re == i64::MIN || im == i64::MIN {
            Err(ErrV::Overflow)
        } else {
            Ok(ObjV::Complex { re: (-re) as i64, im: (-im) as i64 })
        },
        _ => Err(ErrV::UnknownPrefix { operator: TokenV::MINUS, right: kind_of(o) }),
    }
}

/// A prefix operator applied to an evaluated operand.
pub open spec fn prefix_spec(op: TokenV, right: ObjV) -> Result<ObjV, ErrV> {
    match op {
        TokenV::BANG => bang_spec(right),
        TokenV::MINUS => minus_spec(right),
        _ => Err(ErrV::UnknownPrefix { operator: op, right: kind_of(right) }),
    }
}

/// Integer exponentiation, the meaning of `^` on a non-negative
/// exponent.
pub open spec fn pow_spec(base: int, exp: nat) -> int
    decreases exp,
{
    if exp == 0 {
        1
    } else {
        base * pow_spec(base, (exp - 1) as nat)
    }
}

/// Integer arithmetic and comparison: `+ - * /` with truncating
/// division, `^` power (a negative exponent is `PowErr`), and the four
/// comparisons. Any result outside the `i64` range is `Overflow`;
/// division by zero is `DivideByZero`.
pub open spec fn int_infix_spec(op: TokenV, lf: i64, rt: i64) -> Result<ObjV, ErrV> {
    match op {
        TokenV::PLUS => if lf + rt > i64::MAX || lf + rt < i64::MIN {
            Err(ErrV::Overflow)
        } else {
            Ok(ObjV::Integer { value: (lf + rt) as i64 })
        },
        TokenV::MINUS => if lf - rt > i64::MAX || lf - rt < i64::MIN {
            Err(ErrV::Overflow)
        } else {
            Ok(ObjV::Integer { value: (lf - rt) as i64 })
        },
        TokenV::ASTERISK => if lf * rt > i64::MAX || lf * rt < i64::MIN {
            Err(ErrV::Overflow)
        } else {
            Ok(ObjV::Integer { value: (lf * rt) as i64 })
        },
        TokenV::SLASH => if rt == 0 {
            Err(ErrV::DivideByZero)
        } else {
            match lf.checked_div(rt) {
                Some(v) => Ok(ObjV::Integer { value: v }),
                None => Err(ErrV::Overflow),
            }
        },
        TokenV::POWER => if rt < 0 {
            Err(ErrV::PowErr)
        } else {
            if pow_spec(lf as int, rt as nat) > i64::MAX || pow_spec(lf as int, rt as nat)
                < i64::MIN {
                Err(ErrV::Overflow)
            } else {
                Ok(ObjV::Integer { value: pow_spec(lf as int, rt as nat) as i64 })
            }
        },
        TokenV::LT => Ok(ObjV::Boolean { value: lf < rt }),
        TokenV::GT => Ok(ObjV::Boolean { value: lf > rt }),
        TokenV::EQ => Ok(ObjV::Boolean { value: lf == rt }),
        TokenV::NOTEQ => Ok(ObjV::Boolean { value: lf != rt }),
        _ => Err(ErrV::UnknownInfix { left: Kind::Integer, operator: op, right: Kind::Integer }),
    }
}

/// Complex arithmetic: `+ - *` by the standard rules
/// `(a+bi)(c+di) = (ac-bd) + (ad+bc)i`, `==`/`!=` componentwise.
/// Division, power and ordering are not defined on complex operands.
pub open spec fn complex_infix_spec(
    op: TokenV,
    lf_re: i64,
    lf_im: i64,
    rt_re: i64,
    rt_im: i64,
) -> Result<ObjV, ErrV> {
    match op {
        TokenV::PLUS => if lf_re + rt_re > i64::MAX || lf_re + rt_re < i64::MIN || lf_im + rt_im
            > i64::MAX || lf_im + rt_im < i64::MIN {
            Err(ErrV::Overflow)
        } else {
            Ok(ObjV::Complex { re: (lf_re + rt_re) as i64, im: (lf_im + rt_im) as i64 })
        },
        TokenV::MINUS => if lf_re - rt_re > i64::MAX || lf_re - rt_re < i64::MIN || lf_im - rt_im
            > i64::MAX || lf_im - rt_im < i64::MIN {
            Err(ErrV::Overflow)
        } else {
            Ok(ObjV::Complex { re: (lf_re - rt_re) as i64, im: (lf_im - rt_im) as i64 })
        },
        TokenV::ASTERISK => {
            let re = lf_re * rt_re - lf_im * rt_im;
            let im = lf_re * rt_im + lf_im * rt_re;
            if re > i64::MAX || re < i64::MIN || im > i64::MAX || im < i64::MIN {
                Err(ErrV::Overflow)
            } else {
                Ok(ObjV::Complex { re: re as i64, im: im as i64 })
            }
        },
        TokenV::EQ => Ok(ObjV::Boolean { value: lf_re == rt_re && lf_im == rt_im }),
        TokenV::NOTEQ => Ok(ObjV::Boolean { value: lf_re != rt_re || lf_im != rt_im }),
        _ => Err(ErrV::UnknownInfix { left: Kind::Complex, operator: op, right: Kind::Complex }),
    }
}

/// Numeric infix dispatch: two operands with zero imaginary parts use
/// integer semantics; otherwise complex semantics.
pub open spec fn num_infix_spec(op: TokenV, lf: ObjV, rt: ObjV) -> Result<ObjV, ErrV> {
    match (to_complex_spec(lf), to_complex_spec(rt)) {
        (Some((lf_re, lf_im)), Some((rt_re, rt_im))) => if lf_im == 0 && rt_im == 0 {
            int_infix_spec(op, lf_re, rt_re)
        } else {
            complex_infix_spec(op, lf_re, lf_im, rt_re, rt_im)
        },
        _ => Err(ErrV::UnknownInfix { left: kind_of(lf), operator: op, right: kind_of(rt) }),
    }
}

/// Infix dispatch: numeric operands use numeric semantics; two operands
/// of one non-numeric kind support only structural `==`/`!=`; operands
/// of different non-numeric kinds are a type mismatch.
pub open spec fn infix_spec(op: TokenV, left: ObjV, right: ObjV) -> Result<ObjV, ErrV> {
    if to_complex_spec(left) is Some && to_complex_spec(right) is Some {
        num_infix_spec(op, left, right)
    } else if kind_of(left) == kind_of(right) {
        match op {
            TokenV::EQ => Ok(ObjV::Boolean { value: left == right }),
            TokenV::NOTEQ => Ok(ObjV::Boolean { value: left != right }),
            _ => Err(ErrV::UnknownInfix {
                left: kind_of(left),
                operator: op,
                right: kind_of(right),
            }),
        }
    } else {
        Err(ErrV::TypeMismatch { left: kind_of(left), operator: op, right: kind_of(right) })
    }
}

/// An identifier resolves to its innermost binding; an unbound name
/// that is a builtin's name resolves to the builtin tag; any other
/// unbound name is `IdentNotFound`.
pub open spec fn ident_spec(name: Seq<char>, env: EnvV) -> Result<ObjV, ErrV> {
    match lookup_spec(env, name) {
        Some(v) => Ok(v),
        None => {
            let tag = builtin_of_name_spec(name);
            if tag != BuiltInFnt::NotBuiltIn {
                Ok(ObjV::BuiltIn { tag })
            } else {
                Err(ErrV::IdentNotFound { name })
            }
        },
    }
}

/// Unwraps the return wrapper from a value. A `ReturnStmt` never wraps
/// an already-wrapped value, so a reachable value carries at most one
/// layer; stripping recursively makes "a program or call result is
/// never return-tagged" a fact of the definition alone.
pub open spec fn strip_returns_spec(o: ObjV) -> ObjV
    decreases o,
{
    match o {
        ObjV::ReturnValue { value } => strip_returns_spec(*value),
        _ => o,
    }
}

/// A stripped value is never return-tagged.
pub proof fn lemma_strip_returns_not_tagged(o: ObjV)
    ensures
        !(strip_returns_spec(o) is ReturnValue),
    decreases o,
{
    match o {
        ObjV::ReturnValue { value } => lemma_strip_returns_not_tagged(*value),
        _ => {},
    }
}

/// The call environment of a function: a fresh frame appended to the
/// arena, whose parent is the function's captured scope and which
/// binds each parameter positionally to its argument; it becomes the
/// current scope. No existing frame is changed.
pub open spec fn extended_env_spec(
    params: Seq<Seq<char>>,
    args: Seq<ObjV>,
    captured: int,
    env: EnvV,
) -> EnvV {
    EnvV {
        frames: env.frames.push(
            FrameV {
                store: Seq::new(params.len(), |i: int| (params[i], args[i])),
                parent: Some(captured),
            },
        ),
        cur: env.frames.len() as int,
    }
}

/// One statement, evaluated against an environment: the new environment
/// and the statement's result.
pub open spec fn eval_stmt_spec(stmt: StmtV, env: EnvV, fuel: nat) -> (EnvV, Result<ObjV, ErrV>)
    decreases fuel, 0nat, 0nat,
{
    if fuel == 0 {
        (env, Err(ErrV::DepthLimit))
    } else {
        match stmt {
            StmtV::LetStmt { name, value } => {
                let (e1, r) = eval_expr_spec(value, env, (fuel - 1) as nat);
                match r {
                    Ok(v) => (env_set_spec(e1, name, v), Ok(ObjV::DeclareVariable)),
                    Err(e) => (e1, Err(e)),
                }
            },
            StmtV::ReturnStmt { value } => {
                let (e1, r) = eval_expr_spec(value, env, (fuel - 1) as nat);
                match r {
                    Ok(v) => (
                        e1,
                        Ok(
                            if v is ReturnValue {
                                v
                            } else {
                                ObjV::ReturnValue { value: Box::new(v) }
                            },
                        ),
                    ),
                    Err(e) => (e1, Err(e)),
                }
            },
            StmtV::ExpressionStmt { expression } => eval_expr_spec(
                expression,
                env,
                (fuel - 1) as nat,
            ),
        }
    }
}

/// One expression, evaluated against an environment. Literals evaluate
/// to their value; a function literal captures the current scope by
/// handle, sharing it with the scope's later bindings;
/// operands, arguments and callees evaluate left to right, and the
/// first error aborts the whole expression.
pub open spec fn eval_expr_spec(expr: ExprV, env: EnvV, fuel: nat) -> (EnvV, Result<ObjV, ErrV>)
    decreases fuel, 0nat, 1nat,
{
    if fuel == 0 {
        (env, Err(ErrV::DepthLimit))
    } else {
        match expr {
            ExprV::Ident(name) => (env, ident_spec(name, env)),
            ExprV::Integer(n) => (env, Ok(ObjV::Integer { value: n })),
            ExprV::Complex { re, im } => (env, Ok(ObjV::Complex { re, im })),
            ExprV::Boolean(b) => (env, Ok(ObjV::Boolean { value: b })),
            ExprV::Prefix { operator, right } => {
                let (e1, r) = eval_expr_spec(*right, env, (fuel - 1) as nat);
                match r {
                    Ok(v) => (e1, prefix_spec(operator, v)),
                    Err(e) => (e1, Err(e)),
                }
            },
            ExprV::Infix { left, operator, right } => {
                let (e1, r1) = eval_expr_spec(*left, env, (fuel - 1) as nat);
                match r1 {
                    Err(e) => (e1, Err(e)),
                    Ok(lv) => {
                        let (e2, r2) = eval_expr_spec(*right, e1, (fuel - 1) as nat);
                        match r2 {
                            Err(e) => (e2, Err(e)),
                            Ok(rv) => (e2, infix_spec(operator, lv, rv)),
                        }
                    },
                }
            },
            ExprV::IfExpr { condition, consequence, alternative } => {
                let (e1, r) = eval_expr_spec(*condition, env, (fuel - 1) as nat);
                match r {
                    Err(e) => (e1, Err(e)),
                    Ok(c) => eval_if_spec(c, consequence, alternative, e1, (fuel - 1) as nat),
                }
            },
            ExprV::Function { parameter, body } => (
                env,
                Ok(ObjV::Function { parameter, body, env: env.cur }),
            ),
            ExprV::Call { function, arguments } => {
                let (e1, rf) = eval_expr_spec(*function, env, (fuel - 1) as nat);
                match rf {
                    Err(e) => (e1, Err(e)),
                    Ok(f) => {
                        let (e2, ra) = eval_exprs_spec(arguments, e1, (fuel - 1) as nat);
                        match ra {
                            Err(e) => (e2, Err(e)),
                            Ok(args) => apply_function_spec(f, args, e2, (fuel - 1) as nat),
                        }
                    },
                }
            },
        }
    }
}

/// An `if` expression after its condition has been evaluated: a truthy
/// condition runs the consequence block, otherwise the alternative runs
/// if present, otherwise the result is `Null`.
pub open spec fn eval_if_spec(
    cond: ObjV,
    consq: Seq<StmtV>,
    alter: Seq<StmtV>,
    env: EnvV,
    fuel: nat,
) -> (EnvV, Result<ObjV, ErrV>)
    decreases fuel, 0nat, 0nat,
{
    if fuel == 0 {
        (env, Err(ErrV::DepthLimit))
    } else if truthy_spec(cond) {
        eval_stmts_spec(consq, env, (fuel - 1) as nat)
    } else if alter.len() > 0 {
        eval_stmts_spec(alter, env, (fuel - 1) as nat)
    } else {
        (env, Ok(ObjV::Null))
    }
}

/// A statement block: statements run in order in the same environment;
/// a `ReturnValue` result stops the block at once and is handed up
/// still wrapped; the block's value is its last statement's value, or
/// `Null` for an empty block.
pub open spec fn eval_stmts_spec(block: Seq<StmtV>, env: EnvV, fuel: nat) -> (
    EnvV,
    Result<ObjV, ErrV>,
)
    decreases fuel, block.len(), 2nat,
{
    if fuel == 0 {
        (env, Err(ErrV::DepthLimit))
    } else if block.len() == 0 {
        (env, Ok(ObjV::Null))
    } else {
        let (e1, r) = eval_stmt_spec(block[0], env, (fuel - 1) as nat);
        match r {
            Err(e) => (e1, Err(e)),
            Ok(v) => if v is ReturnValue {
                (e1, Ok(v))
            } else if block.len() == 1 {
                (e1, Ok(v))
            } else {
                eval_stmts_spec(block.drop_first(), e1, fuel)
            },
        }
    }
}

/// An argument list: expressions evaluate left to right into an ordered
/// sequence of values; the first error aborts the list.
pub open spec fn eval_exprs_spec(exps: Seq<ExprV>, env: EnvV, fuel: nat) -> (
    EnvV,
    Result<Seq<ObjV>, ErrV>,
)
    decreases fuel, exps.len(), 2nat,
{
    if fuel == 0 {
        (env, Err(ErrV::DepthLimit))
    } else if exps.len() == 0 {
        (env, Ok(Seq::<ObjV>::empty()))
    } else {
        let (e1, r1) = eval_expr_spec(exps[0], env, (fuel - 1) as nat);
        match r1 {
            Err(e) => (e1, Err(e)),
            Ok(v) => {
                let (e2, r2) = eval_exprs_spec(exps.drop_first(), e1, fuel);
                match r2 {
                    Err(e) => (e2, Err(e)),
                    Ok(rest) => (e2, Ok(rest.insert(0, v))),
                }
            },
        }
    }
}

/// A call: a `Function` callee runs its body in a fresh frame whose
/// parent is the captured scope, its parameters bound positionally — a
/// count mismatch is `ArityMismatch` — and a `ReturnValue` escaping
/// the body is unwrapped here, ending only this call: afterwards the
/// caller's scope is current again, and the result is never
/// return-tagged. A `BuiltIn` callee dispatches to the builtin
/// registry. Anything else is `NotFunction`.
pub open spec fn apply_function_spec(f: ObjV, args: Seq<ObjV>, env: EnvV, fuel: nat) -> (
    EnvV,
    Result<ObjV, ErrV>,
)
    decreases fuel, 0nat, 0nat,
{
    if fuel == 0 {
        (env, Err(ErrV::DepthLimit))
    } else {
        match f {
            ObjV::Function { parameter, body, env: captured } => if parameter.len()
                != args.len() {
                (
                    env,
                    Err(
                        ErrV::ArityMismatch {
                            expected: parameter.len() as int,
                            got: args.len() as int,
                        },
                    ),
                )
            } else {
                let (e2, r) = eval_stmts_spec(
                    body,
                    extended_env_spec(parameter, args, captured, env),
                    (fuel - 1) as nat,
                );
                let e3 = EnvV { frames: e2.frames, cur: env.cur };
                match r {
                    Err(e) => (e3, Err(e)),
                    Ok(v) => (e3, Ok(strip_returns_spec(v))),
                }
            },
            ObjV::BuiltIn { tag } => (env, builtin_call_spec(tag, args)),
            _ => (env, Err(ErrV::NotFunction { got: f })),
        }
    }
}

/// A whole program: statements run in order, each with a fresh depth
/// budget; a `ReturnValue` stops the program and is unwrapped into the
/// program's result.
pub open spec fn eval_program_spec(stmts: Seq<StmtV>, env: EnvV) -> (EnvV, Result<ObjV, ErrV>)
    decreases stmts.len(),
{
    if stmts.len() == 0 {
        (env, Ok(ObjV::Null))
    } else {
        let (e1, r) = eval_stmt_spec(stmts[0], env, EVAL_BUDGET as nat);
        match r {
            Err(e) => (e1, Err(e)),
            Ok(v) => match v {
                ObjV::ReturnValue { .. } => (e1, Ok(strip_returns_spec(v))),
                _ => if stmts.len() == 1 {
                    (e1, Ok(v))
                } else {
                    eval_program_spec(stmts.drop_first(), e1)
                },
            },
        }
    }
}

/// The absolute value of a mathematical integer.
pub open spec fn abs_spec(x: int) -> int {
    if x < 0 {
        -x
    } else {
        x
    }
}

/// A power of a nonzero base is nonzero.
proof fn lemma_pow_nonzero(b: int, e: nat)
    requires
        b != 0,
    ensures
        abs_spec(pow_spec(b, e)) >= 1,
    decreases e,
{
    if e > 0 {
        lemma_pow_nonzero(b, (e - 1) as nat);
        let p = pow_spec(b, (e - 1) as nat);
        assert(abs_spec(b * p) >= abs_spec(p)) by (nonlinear_arith)
            requires
                abs_spec(b) >= 1,
                abs_spec(p) >= 1,
        ;
    }
}

/// For a base of magnitude at least two, the magnitude of its powers
/// grows strictly: each further step at least doubles it.
proof fn lemma_pow_grow(b: int, m: nat, n: nat)
    requires
        b <= -2 || b >= 2,
        m <= n,
    ensures
        abs_spec(pow_spec(b, n)) >= abs_spec(pow_spec(b, m)),
        m < n ==> abs_spec(pow_spec(b, n)) >= 2 * abs_spec(pow_spec(b, m)),
    decreases n,
{
    if n > m {
        lemma_pow_grow(b, m, (n - 1) as nat);
        lemma_pow_nonzero(b, (n - 1) as nat);
        let p = pow_spec(b, (n - 1) as nat);
        assert(abs_spec(b * p) >= 2 * abs_spec(p)) by (nonlinear_arith)
            requires
                abs_spec(b) >= 2,
                abs_spec(p) >= 1,
        ;
    }
}

/// `0^0` is 1; every higher power of zero is zero.
proof fn lemma_pow_zero_base(e: nat)
    requires
        e > 0,
    ensures
        pow_spec(0, e) == 0,
    decreases e,
{
    if e > 1 {
        lemma_pow_zero_base((e - 1) as nat);
    }
}

/// Every power of one is one.
proof fn lemma_pow_one(e: nat)
    ensures
        pow_spec(1, e) == 1,
    decreases e,
{
    if e > 0 {
        lemma_pow_one((e - 1) as nat);
    }
}

/// A power of minus one is one for an even exponent and minus one for
/// an odd one.
proof fn lemma_pow_neg_one(e: nat)
    ensures
        pow_spec(-1, e) == if e % 2 == 0 {
            1int
        } else {
            -1int
        },
    decreases e,
{
    if e > 0 {
        lemma_pow_neg_one((e - 1) as nat);
    }
}

/// Integer exponentiation with an exact overflow account: returns the
/// power when it fits an `i64`, and reports overflow exactly when it
/// does not.
fn int_pow(base: i64, exp: u64) -> (r: Result<i64, EvalError>)
    ensures
        ({
            let p = pow_spec(base as int, exp as nat);
            match r {
                Ok(v) => v as int == p,
                Err(e) => (p > i64::MAX || p < i64::MIN) && e@ == ErrV::Overflow,
            }
        }),
{
    if base == 0 {
        if exp == 0 {
            Ok(1)
        } else {
            proof {
                lemma_pow_zero_base(exp as nat);
            }
            Ok(0)
        }
    } else if base == 1 {
        proof {
            lemma_pow_one(exp as nat);
        }
        Ok(1)
    } else if base == -1 {
        proof {
            lemma_pow_neg_one(exp as nat);
        }
        if exp % 2 == 0 {
            Ok(1)
        } else {
            Ok(-1)
        }
    } else {
        let mut acc: i64 = 1;
        let mut i: u64 = 0;
        #[verifier::loop_isolation(false)]
        while i < exp
            invariant
                i <= exp,
                acc as int == pow_spec(base as int, i as nat),
            decreases exp - i,
        {
            let a128 = acc as i128;
            let b128 = base as i128;
            proof {
                assert(a128 * b128 <= 0x4000_0000_0000_0000_0000_0000_0000_0000i128 && a128 * b128
                    >= -0x4000_0000_0000_0000_0000_0000_0000_0000i128) by (nonlinear_arith)
                    requires
                        -0x8000_0000_0000_0000i128 <= a128 <= 0x7fff_ffff_ffff_ffffi128,
                        -0x8000_0000_0000_0000i128 <= b128 <= 0x7fff_ffff_ffff_ffffi128,
                ;
            }
            let next = a128 * b128;
            proof {
                assert(pow_spec(base as int, (i + 1) as nat) == base as int * pow_spec(
                    base as int,
                    i as nat,
                ));
                assert(next as int == pow_spec(base as int, (i + 1) as nat)) by (nonlinear_arith)
                    requires
                        next == a128 * b128,
                        a128 == pow_spec(base as int, i as nat),
                        b128 == base as int,
                        pow_spec(base as int, (i + 1) as nat) == base as int * pow_spec(
                            base as int,
                            i as nat,
                        ),
                ;
            }
            if next > i64::MAX as i128 || next < i64::MIN as i128 {
                proof {
                    let p = pow_spec(base as int, exp as nat);
                    let q = pow_spec(base as int, (i + 1) as nat);
                    if i + 1 == exp {
                        assert(p == q);
                    } else {
                        lemma_pow_grow(base as int, (i + 1) as nat, exp as nat);
                        assert(abs_spec(q) >= i64::MAX + 1);
                        assert(abs_spec(p) >= 2 * abs_spec(q));
                        assert(p > i64::MAX || p < i64::MIN);
                    }
                }
                return Err(EvalError::Overflow);
            }
            acc = next as i64;
            i = i + 1;
        }
        Ok(acc)
    }
}

/// Whether a value acts as true in a conditional.
pub fn is_truthy(obj: &Object) -> (r: bool)
    ensures
        r == truthy_spec(obj@),
{
    match obj {
        Object::Null => false,
        Object::Boolean { value } => *value,
        _ => true,
    }
}

/// The `!` operator on an evaluated operand.
pub fn eval_bang_operator_expr(right: Object) -> (r: Result<Object, EvalError>)
    ensures
        res_view(r) == bang_spec(right@),
{
    let t = is_truthy(&right);
    Ok(Object::Boolean { value: !t })
}

/// The prefix `-` operator on an evaluated operand.
pub fn eval_minus_operator_expr(right: Object) -> (r: Result<Object, EvalError>)
    ensures
        res_view(r) == minus_spec(right@),
{
    match right {
        Object::Integer { value } => if value == i64::MIN {
            Err(EvalError::Overflow)
        } else {
            Ok(Object::Integer { value: -value })
        },
        Object::Complex { re, im } => if re == i64::MIN || im == i64::MIN {
            Err(EvalError::Overflow)
        } else {
            Ok(Object::Complex { re: -re, im: -im })
        },
        other => Err(EvalError::UnknownPrefix { operator: Token::MINUS, right: other.kind() }),
    }
}

/// A prefix operator on an evaluated operand.
pub fn eval_prefix_expr(operator: &Token, right: Object) -> (r: Result<Object, EvalError>)
    ensures
        res_view(r) == prefix_spec(operator@, right@),
{
    match operator {
        Token::BANG => eval_bang_operator_expr(right),
        Token::MINUS => eval_minus_operator_expr(right),
        _ => {
            let k = right.kind();
            Err(EvalError::UnknownPrefix { operator: token_clone(operator), right: k })
        },
    }
}

/// An infix operator on two integer operands.
pub fn eval_integer_infix_expr(operator: &Token, lf: i64, rt: i64) -> (r: Result<Object, EvalError>)
    ensures
        res_view(r) == int_infix_spec(operator@, lf, rt),
{
    match operator {
        Token::PLUS => match lf.checked_add(rt) {
            Some(v) => Ok(Object::Integer { value: v }),
            None => Err(EvalError::Overflow),
        },
        Token::MINUS => match lf.checked_sub(rt) {
            Some(v) => Ok(Object::Integer { value: v }),
            None => Err(EvalError::Overflow),
        },
        Token::ASTERISK => match lf.checked_mul(rt) {
            Some(v) => Ok(Object::Integer { value: v }),
            None => Err(EvalError::Overflow),
        },
        Token::SLASH => if rt == 0 {
            Err(EvalError::DivideByZero)
        } else {
            match lf.checked_div(rt) {
                Some(v) => Ok(Object::Integer { value: v }),
                None => Err(EvalError::Overflow),
            }
        },
        Token::POWER => if rt < 0 {
            Err(EvalError::PowErr)
        } else {
            match int_pow(lf, rt as u64) {
                Ok(v) => Ok(Object::Integer { value: v }),
                Err(e) => Err(e),
            }
        },
        Token::LT => Ok(Object::Boolean { value: lf < rt }),
        Token::GT => Ok(Object::Boolean { value: lf > rt }),
        Token::EQ => Ok(Object::Boolean { value: lf == rt }),
        Token::NOTEQ => Ok(Object::Boolean { value: lf != rt }),
        _ => Err(EvalError::UnknownInfix {
            left: Kind::Integer,
            operator: token_clone(operator),
            right: Kind::Integer,
        }),
    }
}

/// An infix operator on two complex operands, given componentwise.
pub fn eval_complex_infix_expr(
    operator: &Token,
    lf_re: i64,
    lf_im: i64,
    rt_re: i64,
    rt_im: i64,
) -> (r: Result<Object, EvalError>)
    ensures
        res_view(r) == complex_infix_spec(operator@, lf_re, lf_im, rt_re, rt_im),
{
    match operator {
        Token::PLUS => {
            let re = match lf_re.checked_add(rt_re) {
                Some(v) => v,
                None => {
                    return Err(EvalError::Overflow);
                },
            };
            let im = match lf_im.checked_add(rt_im) {
                Some(v) => v,
                None => {
                    return Err(EvalError::Overflow);
                },
            };
            Ok(Object::Complex { re, im })
        },
        Token::MINUS => {
            let re = match lf_re.checked_sub(rt_re) {
                Some(v) => v,
                None => {
                    return Err(EvalError::Overflow);
                },
            };
            let im = match lf_im.checked_sub(rt_im) {
                Some(v) => v,
                None => {
                    return Err(EvalError::Overflow);
                },
            };
            Ok(Object::Complex { re, im })
        },
        Token::ASTERISK => {
            let a = lf_re as i128;
            let b = lf_im as i128;
            let c = rt_re as i128;
            let d = rt_im as i128;
            proof {
                assert(a * c <= 0x4000_0000_0000_0000_0000_0000_0000_0000i128 && a * c
                    >= -0x3fff_ffff_ffff_ffff_8000_0000_0000_0000i128 && b * d
                    <= 0x4000_0000_0000_0000_0000_0000_0000_0000i128 && b * d
                    >= -0x3fff_ffff_ffff_ffff_8000_0000_0000_0000i128 && a * d
                    <= 0x4000_0000_0000_0000_0000_0000_0000_0000i128 && a * d
                    >= -0x3fff_ffff_ffff_ffff_8000_0000_0000_0000i128 && b * c
                    <= 0x4000_0000_0000_0000_0000_0000_0000_0000i128 && b * c
                    >= -0x3fff_ffff_ffff_ffff_8000_0000_0000_0000i128) by (nonlinear_arith)
                    requires
                        -0x8000_0000_0000_0000i128 <= a <= 0x7fff_ffff_ffff_ffffi128,
                        -0x8000_0000_0000_0000i128 <= b <= 0x7fff_ffff_ffff_ffffi128,
                        -0x8000_0000_0000_0000i128 <= c <= 0x7fff_ffff_ffff_ffffi128,
                        -0x8000_0000_0000_0000i128 <= d <= 0x7fff_ffff_ffff_ffffi128,
                ;
            }
            let re128 = a * c - b * d;
            let q1 = a * d;
            let q2 = b * c;
            if q1 > 0 && q2 > 0 && q1 > i64::MAX as i128 - q2 {
                return Err(EvalError::Overflow);
            }
            if q1 < 0 && q2 < 0 && q1 < i64::MIN as i128 - q2 {
                return Err(EvalError::Overflow);
            }
            let im128 = q1 + q2;
            if re128 > i64::MAX as i128 || re128 < i64::MIN as i128 || im128 > i64::MAX as i128
                || im128 < i64::MIN as i128 {
                Err(EvalError::Overflow)
            } else {
                Ok(Object::Complex { re: re128 as i64, im: im128 as i64 })
            }
        },
        Token::EQ => Ok(Object::Boolean { value: lf_re == rt_re && lf_im == rt_im }),
        Token::NOTEQ => Ok(Object::Boolean { value: lf_re != rt_re || lf_im != rt_im }),
        _ => Err(EvalError::UnknownInfix {
            left: Kind::Complex,
            operator: token_clone(operator),
            right: Kind::Complex,
        }),
    }
}

/// An infix operator on two numeric operands: integer semantics when
/// both imaginary parts are zero, complex semantics otherwise.
pub fn eval_num_infix_expr(operator: &Token, lf: Object, rt: Object) -> (r: Result<
    Object,
    EvalError,
>)
    ensures
        res_view(r) == num_infix_spec(operator@, lf@, rt@),
{
    let lc = lf.to_complex();
    let rc = rt.to_complex();
    match (lc, rc) {
        (Some((lf_re, lf_im)), Some((rt_re, rt_im))) => if lf_im == 0 && rt_im == 0 {
            eval_integer_infix_expr(operator, lf_re, rt_re)
        } else {
            eval_complex_infix_expr(operator, lf_re, lf_im, rt_re, rt_im)
        },
        _ => {
            let lk = lf.kind();
            let rk = rt.kind();
            Err(EvalError::UnknownInfix {
                left: lk,
                operator: token_clone(operator),
                right: rk,
            })
        },
    }
}

/// An infix operator on two evaluated operands: numeric dispatch,
/// structural equality for same-kind operands, type mismatch otherwise.
pub fn eval_infix_expr(operator: &Token, left: Object, right: Object) -> (r: Result<
    Object,
    EvalError,
>)
    ensures
        res_view(r) == infix_spec(operator@, left@, right@),
{
    let ln = left.to_complex();
    let rn = right.to_complex();
    if ln.is_some() && rn.is_some() {
        eval_num_infix_expr(operator, left, right)
    } else if Object::is_same_type(&left, &right) {
        match operator {
            Token::EQ => {
                let e = obj_eq(&left, &right);
                Ok(Object::Boolean { value: e })
            },
            Token::NOTEQ => {
                let e = obj_eq(&left, &right);
                Ok(Object::Boolean { value: !e })
            },
            _ => {
                let lk = left.kind();
                let rk = right.kind();
                Err(EvalError::UnknownInfix {
                    left: lk,
                    operator: token_clone(operator),
                    right: rk,
                })
            },
        }
    } else {
        let lk = left.kind();
        let rk = right.kind();
        Err(EvalError::TypeMismatch { left: lk, operator: token_clone(operator), right: rk })
    }
}

/// Resolves an identifier: the innermost binding, else a builtin name,
/// else `IdentNotFound`.
pub fn eval_identifier(ident: &String, env: &Environment) -> (r: Result<Object, EvalError>)
    ensures
        res_view(r) == ident_spec(ident@, env@),
{
    match env.get(ident) {
        Some(o) => Ok(o),
        None => {
            let tag = BuiltInFnt::from_name(ident.as_str());
            if tag == BuiltInFnt::NotBuiltIn {
                Err(EvalError::IdentNotFound { name: ident.clone() })
            } else {
                Ok(Object::BuiltIn(tag))
            }
        },
    }
}

/// Extends the arena with the call frame of a function: a fresh frame
/// whose parent is the captured scope, each parameter bound
/// positionally; the new frame becomes the current scope.
pub fn extended_function_env(
    parameter: Vec<String>,
    args: Vec<Object>,
    captured: usize,
    env: &mut Environment,
)
    requires
        parameter@.len() == args@.len(),
    ensures
        final(env)@ == extended_env_spec(
            strings_view(parameter@),
            objs_view(args@),
            captured as int,
            old(env)@,
        ),
{
    let ghost pv = strings_view(parameter@);
    let ghost av = objs_view(args@);
    let ghost oldframes = env.frames@;
    proof {
        lemma_objs_view_len(args@);
    }
    let mut store: Vec<(String, Object)> = Vec::new();
    let mut i: usize = 0;
    #[verifier::loop_isolation(false)]
    while i < parameter.len()
        invariant
            i <= parameter@.len(),
            store@.len() == i as int,
            forall|j: int| 0 <= j < i ==> store@[j].0@ == pv[j] && obj_view(store@[j].1) == av[j],
        decreases parameter.len() - i,
    {
        let name = parameter[i].clone();
        let value = obj_clone(&args[i]);
        proof {
            lemma_objs_view_index(args@, i as int);
            assert(pv[i as int] == parameter@[i as int]@);
        }
        store.push((name, value));
        i = i + 1;
    }
    let h = env.frames.len();
    env.frames.push(Frame { store, parent: Some(captured) });
    env.cur = h;
    proof {
        lemma_frames_view_len(oldframes);
        assert(env.frames@.drop_last() =~= oldframes);
        let fr = env.frames@.last();
        lemma_store_view_len(fr.store@);
        assert forall|j: int| 0 <= j < fr.store@.len() implies store_view(fr.store@)[j] == (
            pv[j],
            av[j],
        ) by {
            lemma_store_view_index(fr.store@, j);
        }
        assert(store_view(fr.store@) =~= Seq::new(pv.len(), |j: int| (pv[j], av[j])));
        assert(frame_view(fr) =~= (FrameV {
            store: Seq::new(pv.len(), |j: int| (pv[j], av[j])),
            parent: Some(captured as int),
        }));
        assert(env@ =~= extended_env_spec(pv, av, captured as int, old(env)@));
    }
}

/// `objs_view` commutes with prepending an element.
proof fn lemma_objs_view_insert0(s: Seq<Object>, x: Object)
    ensures
        objs_view(s.insert(0, x)) == objs_view(s).insert(0, obj_view(x)),
{
    lemma_objs_view_len(s);
    lemma_objs_view_len(s.insert(0, x));
    assert forall|j: int| 0 <= j < s.len() + 1 implies objs_view(s.insert(0, x))[j] == objs_view(
        s,
    ).insert(0, obj_view(x))[j] by {
        lemma_objs_view_index(s.insert(0, x), j);
        if j > 0 {
            lemma_objs_view_index(s, j - 1);
        }
    }
    assert(objs_view(s.insert(0, x)) =~= objs_view(s).insert(0, obj_view(x)));
}

/// Unwraps the return wrapper from a value.
fn strip_returns(o: Object) -> (r: Object)
    ensures
        r@ == strip_returns_spec(o@),
    decreases o,
{
    match o {
        Object::ReturnValue { value } => strip_returns(*value),
        other => other,
    }
}

/// One statement, executed with an explicit depth budget.
pub fn eval_fueled(stmt: &Statement, env: &mut Environment, fuel: u64) -> (r: Result<
    Object,
    EvalError,
>)
    ensures
        ({
            let (e2, rr) = eval_stmt_spec(stmt@, old(env)@, fuel as nat);
            final(env)@ == e2 && res_view(r) == rr
        }),
    decreases fuel, 0nat,
{
    if fuel == 0 {
        return Err(EvalError::DepthLimit);
    }
    match stmt {
        Statement::LetStmt { name, value } => match eval_expr(value, env, fuel - 1) {
            Ok(v) => Ok(env.set(name.clone(), v)),
            Err(e) => Err(e),
        },
        Statement::ReturnStmt { value } => match eval_expr(value, env, fuel - 1) {
            Ok(v) => {
                let already = match &v {
                    Object::ReturnValue { .. } => true,
                    _ => false,
                };
                if already {
                    Ok(v)
                } else {
                    Ok(Object::ReturnValue { value: Box::new(v) })
                }
            },
            Err(e) => Err(e),
        },
        Statement::ExpressionStmt { expression } => eval_expr(expression, env, fuel - 1),
    }
}

/// One expression, executed with an explicit depth budget.
pub fn eval_expr(expr: &Expression, env: &mut Environment, fuel: u64) -> (r: Result<
    Object,
    EvalError,
>)
    ensures
        ({
            let (e2, rr) = eval_expr_spec(expr@, old(env)@, fuel as nat);
            final(env)@ == e2 && res_view(r) == rr
        }),
    decreases fuel, 0nat,
{
    if fuel == 0 {
        return Err(EvalError::DepthLimit);
    }
    match expr {
        Expression::Ident(name) => eval_identifier(name, env),
        Expression::Integer(n) => Ok(Object::Integer { value: *n }),
        Expression::Complex { re, im } => Ok(Object::Complex { re: *re, im: *im }),
        Expression::Boolean(b) => Ok(Object::Boolean { value: *b }),
        Expression::Prefix { operator, right } => match eval_expr(right, env, fuel - 1) {
            Ok(v) => eval_prefix_expr(operator, v),
            Err(e) => Err(e),
        },
        Expression::Infix { left, operator, right } => match eval_expr(left, env, fuel - 1) {
            Err(e) => Err(e),
            Ok(lv) => match eval_expr(right, env, fuel - 1) {
                Err(e) => Err(e),
                Ok(rv) => eval_infix_expr(operator, lv, rv),
            },
        },
        Expression::IfExpr { condition, consequence, alternative } => match eval_expr(
            condition,
            env,
            fuel - 1,
        ) {
            Err(e) => Err(e),
            Ok(c) => eval_if_expr(c, consequence, alternative, env, fuel - 1),
        },
        Expression::Function { parameter, body } => {
            let p = strings_clone(parameter);
            let b = stmts_clone(body);
            Ok(Object::Function { parameter: p, body: b, env: env.cur })
        },
        Expression::Call { function, arguments } => match eval_expr(function, env, fuel - 1) {
            Err(e) => Err(e),
            Ok(f) => match eval_expressions(arguments, env, fuel - 1) {
                Err(e) => Err(e),
                Ok(args) => apply_function(f, args, env, fuel - 1),
            },
        },
    }
}

/// An `if` expression after its condition was evaluated.
pub fn eval_if_expr(
    cond: Object,
    consq: &Vec<Statement>,
    alter: &Vec<Statement>,
    env: &mut Environment,
    fuel: u64,
) -> (r: Result<Object, EvalError>)
    ensures
        ({
            let (e2, rr) = eval_if_spec(
                cond@,
                stmts_view(consq@),
                stmts_view(alter@),
                old(env)@,
                fuel as nat,
            );
            final(env)@ == e2 && res_view(r) == rr
        }),
    decreases fuel, 0nat,
{
    proof {
        lemma_stmts_view_len(alter@);
    }
    if fuel == 0 {
        return Err(EvalError::DepthLimit);
    }
    if is_truthy(&cond) {
        eval_stmts(consq, env, fuel - 1)
    } else if alter.len() > 0 {
        eval_stmts(alter, env, fuel - 1)
    } else {
        Ok(Object::Null)
    }
}

/// A statement block, executed with an explicit depth budget.
pub fn eval_stmts(block: &Vec<Statement>, env: &mut Environment, fuel: u64) -> (r: Result<
    Object,
    EvalError,
>)
    ensures
        ({
            let (e2, rr) = eval_stmts_spec(stmts_view(block@), old(env)@, fuel as nat);
            final(env)@ == e2 && res_view(r) == rr
        }),
    decreases fuel, block@.len() + 1,
{
    proof {
        assert(stmts_view(block@).skip(0) =~= stmts_view(block@));
    }
    eval_stmts_from(block, 0, env, fuel)
}

/// The tail of a statement block from index `i` on.
fn eval_stmts_from(block: &Vec<Statement>, i: usize, env: &mut Environment, fuel: u64) -> (r:
    Result<Object, EvalError>)
    requires
        i <= block@.len(),
    ensures
        ({
            let (e2, rr) = eval_stmts_spec(stmts_view(block@).skip(i as int), old(env)@, fuel as nat);
            final(env)@ == e2 && res_view(r) == rr
        }),
    decreases fuel, block@.len() - i,
{
    proof {
        lemma_stmts_view_len(block@);
    }
    if fuel == 0 {
        return Err(EvalError::DepthLimit);
    }
    if i == block.len() {
        return Ok(Object::Null);
    }
    proof {
        lemma_stmts_view_index(block@, i as int);
        assert(stmts_view(block@).skip(i as int)[0] == stmts_view(block@)[i as int]);
        assert(stmts_view(block@).skip(i as int).drop_first() =~= stmts_view(block@).skip(
            i as int + 1,
        ));
    }
    let r = eval_fueled(&block[i], env, fuel - 1);
    match r {
        Err(e) => Err(e),
        Ok(v) => {
            let is_ret = match &v {
                Object::ReturnValue { .. } => true,
                _ => false,
            };
            if is_ret {
                Ok(v)
            } else if i + 1 == block.len() {
                Ok(v)
            } else {
                eval_stmts_from(block, i + 1, env, fuel)
            }
        },
    }
}

/// An expression list, evaluated left to right with an explicit depth
/// budget.
pub fn eval_expressions(exps: &Vec<Expression>, env: &mut Environment, fuel: u64) -> (r: Result<
    Vec<Object>,
    EvalError,
>)
    ensures
        ({
            let (e2, rr) = eval_exprs_spec(exprs_view(exps@), old(env)@, fuel as nat);
            final(env)@ == e2 && (match r {
                Ok(v) => rr == Ok::<Seq<ObjV>, ErrV>(objs_view(v@)),
                Err(e) => rr == Err::<Seq<ObjV>, ErrV>(e@),
            })
        }),
    decreases fuel, exps@.len() + 1,
{
    proof {
        assert(exprs_view(exps@).skip(0) =~= exprs_view(exps@));
    }
    eval_exprs_from(exps, 0, env, fuel)
}

/// The tail of an expression list from index `i` on.
fn eval_exprs_from(exps: &Vec<Expression>, i: usize, env: &mut Environment, fuel: u64) -> (r:
    Result<Vec<Object>, EvalError>)
    requires
        i <= exps@.len(),
    ensures
        ({
            let (e2, rr) = eval_exprs_spec(exprs_view(exps@).skip(i as int), old(env)@, fuel as nat);
            final(env)@ == e2 && (match r {
                Ok(v) => rr == Ok::<Seq<ObjV>, ErrV>(objs_view(v@)),
                Err(e) => rr == Err::<Seq<ObjV>, ErrV>(e@),
            })
        }),
    decreases fuel, exps@.len() - i,
{
    proof {
        lemma_exprs_view_len(exps@);
    }
    if fuel == 0 {
        return Err(EvalError::DepthLimit);
    }
    if i == exps.len() {
        let empty: Vec<Object> = Vec::new();
        proof {
            assert(empty@ =~= Seq::<Object>::empty());
        }
        return Ok(empty);
    }
    proof {
        lemma_exprs_view_index(exps@, i as int);
        assert(exprs_view(exps@).skip(i as int)[0] == exprs_view(exps@)[i as int]);
        assert(exprs_view(exps@).skip(i as int).drop_first() =~= exprs_view(exps@).skip(
            i as int + 1,
        ));
    }
    match eval_expr(&exps[i], env, fuel - 1) {
        Err(e) => Err(e),
        Ok(v) => match eval_exprs_from(exps, i + 1, env, fuel) {
            Err(e) => Err(e),
            Ok(mut rest) => {
                let ghost before = rest@;
                rest.insert(0, v);
                proof {
                    lemma_objs_view_insert0(before, v);
                }
                Ok(rest)
            },
        },
    }
}

/// Calls an evaluated callee on an evaluated argument list. The body
/// runs in a fresh frame; afterwards the caller's scope is current
/// again, so a `return` in the body ends only this call, and the
/// result is unwrapped, never return-tagged.
pub fn apply_function(function: Object, args: Vec<Object>, env: &mut Environment, fuel: u64) -> (r:
    Result<Object, EvalError>)
    ensures
        ({
            let (e2, rr) = apply_function_spec(function@, objs_view(args@), old(env)@, fuel as nat);
            final(env)@ == e2 && res_view(r) == rr
        }),
    decreases fuel, 0nat,
{
    proof {
        lemma_objs_view_len(args@);
    }
    if fuel == 0 {
        return Err(EvalError::DepthLimit);
    }
    match function {
        Object::Function { parameter, body, env: captured } => {
            if parameter.len() != args.len() {
                return Err(EvalError::ArityMismatch {
                    expected: parameter.len(),
                    got: args.len(),
                });
            }
            let saved = env.cur;
            extended_function_env(parameter, args, captured, env);
            let r = eval_stmts(&body, env, fuel - 1);
            env.cur = saved;
            proof {
                assert(env@ =~= (EnvV { frames: env@.frames, cur: saved as int }));
            }
            match r {
                Err(e) => Err(e),
                Ok(v) => Ok(strip_returns(v)),
            }
        },
        Object::BuiltIn(tag) => tag.call(args),
        other => Err(EvalError::NotFunction { got: other }),
    }
}

/// Evaluates one statement against `env` with the standard depth
/// budget. This is the single entry point for statement execution; the
/// result is exactly what the definitional interpreter gives.
pub fn eval(node: Statement, env: &mut Environment) -> (r: Result<Object, EvalError>)
    ensures
        ({
            let (e2, rr) = eval_stmt_spec(node@, old(env)@, EVAL_BUDGET as nat);
            final(env)@ == e2 && res_view(r) == rr
        }),
{
    eval_fueled(&node, env, EVAL_BUDGET)
}

/// Runs a program: its statements in order against `env`. Evaluation
/// stops at the first `ReturnValue`, which is unwrapped into the
/// program's result; otherwise the result is the last statement's
/// value, or `Null` for an empty program. The first error aborts the
/// rest of the program.
pub fn eval_program(stmts: Vec<Statement>, env: &mut Environment) -> (r: Result<Object, EvalError>)
    ensures
        ({
            let (e2, rr) = eval_program_spec(stmts_view(stmts@), old(env)@);
            final(env)@ == e2 && res_view(r) == rr
        }),
{
    proof {
        assert(stmts_view(stmts@).skip(0) =~= stmts_view(stmts@));
    }
    eval_program_from(&stmts, 0, env)
}

/// The tail of a program from statement `i` on.
fn eval_program_from(stmts: &Vec<Statement>, i: usize, env: &mut Environment) -> (r: Result<
    Object,
    EvalError,
>)
    requires
        i <= stmts@.len(),
    ensures
        ({
            let (e2, rr) = eval_program_spec(stmts_view(stmts@).skip(i as int), old(env)@);
            final(env)@ == e2 && res_view(r) == rr
        }),
    decreases stmts@.len() - i,
{
    proof {
        lemma_stmts_view_len(stmts@);
    }
    if i == stmts.len() {
        return Ok(Object::Null);
    }
    proof {
        lemma_stmts_view_index(stmts@, i as int);
        assert(stmts_view(stmts@).skip(i as int)[0] == stmts_view(stmts@)[i as int]);
        assert(stmts_view(stmts@).skip(i as int).drop_first() =~= stmts_view(stmts@).skip(
            i as int + 1,
        ));
    }
    match eval_fueled(&stmts[i], env, EVAL_BUDGET) {
        Err(e) => Err(e),
        Ok(v) => {
            let is_ret = match &v {
                Object::ReturnValue { .. } => true,
                _ => false,
            };
            if is_ret {
                Ok(strip_returns(v))
            } else if i + 1 == stmts.len() {
                Ok(v)
            } else {
                eval_program_from(stmts, i + 1, env)
            }
        },
    }
}

/// `!x` never fails and yields the negated truthiness of `x`; applying
/// `!` twice therefore recovers `x`'s truthiness as a `Boolean` — the
/// original value itself only when `x` already was that `Boolean`.
pub proof fn lemma_double_bang(o: ObjV)
    ensures
        bang_spec(o) == Ok::<ObjV, ErrV>(ObjV::Boolean { value: !truthy_spec(o) }),
        bang_spec(ObjV::Boolean { value: !truthy_spec(o) }) == Ok::<ObjV, ErrV>(
            ObjV::Boolean { value: truthy_spec(o) },
        ),
{
}

/// An `Integer` and a zero-imaginary `Complex` compare equal under
/// `==` (and unequal under `!=`) whenever their real values agree, in
/// either operand order: numeric comparison goes by complex-equality
/// rules across the two numeric kinds.
pub proof fn lemma_int_complex_eq(n: i64)
    ensures
        infix_spec(TokenV::EQ, ObjV::Integer { value: n }, ObjV::Complex { re: n, im: 0 }) == Ok::<
            ObjV,
            ErrV,
        >(ObjV::Boolean { value: true }),
        infix_spec(TokenV::EQ, ObjV::Complex { re: n, im: 0 }, ObjV::Integer { value: n }) == Ok::<
            ObjV,
            ErrV,
        >(ObjV::Boolean { value: true }),
        infix_spec(TokenV::NOTEQ, ObjV::Integer { value: n }, ObjV::Complex { re: n, im: 0 })
            == Ok::<ObjV, ErrV>(ObjV::Boolean { value: false }),
{
}

/// Comparing a `Boolean` and an `Integer` with any infix operator is a
/// `TypeMismatch` error — never a panic and never a value — in either
/// operand order.
pub proof fn lemma_bool_int_mismatch(op: TokenV, b: bool, n: i64)
    ensures
        infix_spec(op, ObjV::Boolean { value: b }, ObjV::Integer { value: n }) == Err::<ObjV, ErrV>(
            ErrV::TypeMismatch { left: Kind::Boolean, operator: op, right: Kind::Integer },
        ),
        infix_spec(op, ObjV::Integer { value: n }, ObjV::Boolean { value: b }) == Err::<ObjV, ErrV>(
            ErrV::TypeMismatch { left: Kind::Integer, operator: op, right: Kind::Boolean },
        ),
{
}

/// Any infix operator other than `==` and `!=` on two `Boolean`
/// operands is an `UnknownInfix` error: booleans support only
/// structural equality.
pub proof fn lemma_bool_bool_unknown(op: TokenV, a: bool, b: bool)
    requires
        op != TokenV::EQ,
        op != TokenV::NOTEQ,
    ensures
        infix_spec(op, ObjV::Boolean { value: a }, ObjV::Boolean { value: b }) == Err::<ObjV, ErrV>(
            ErrV::UnknownInfix { left: Kind::Boolean, operator: op, right: Kind::Boolean },
        ),
{
}

/// A `return` statement wraps its value exactly once: a value that
/// already carries the wrapper is passed on unchanged, so the wrapper
/// never nests.
pub proof fn lemma_return_wraps_once(value: ExprV, env: EnvV, fuel: nat)
    requires
        fuel > 0,
    ensures
        ({
            let (e1, r) = eval_expr_spec(value, env, (fuel - 1) as nat);
            match r {
                Ok(v) => eval_stmt_spec(StmtV::ReturnStmt { value }, env, fuel) == (
                    e1,
                    Ok::<ObjV, ErrV>(
                        if v is ReturnValue {
                            v
                        } else {
                            ObjV::ReturnValue { value: Box::new(v) }
                        },
                    ),
                ),
                Err(e) => eval_stmt_spec(StmtV::ReturnStmt { value }, env, fuel) == (
                    e1,
                    Err::<ObjV, ErrV>(e),
                ),
            }
        }),
{
}

/// A program's `Ok` result is never return-tagged: the wrapper is
/// only observable while a block unwinds, and the top level unwraps
/// it.
pub proof fn lemma_program_result_not_return(stmts: Seq<StmtV>, env: EnvV)
    ensures
        match eval_program_spec(stmts, env).1 {
            Ok(v) => !(v is ReturnValue),
            Err(_) => true,
        },
    decreases stmts.len(),
{
    if stmts.len() > 0 {
        let (e1, r) = eval_stmt_spec(stmts[0], env, EVAL_BUDGET as nat);
        match r {
            Ok(v) => {
                if v is ReturnValue {
                    lemma_strip_returns_not_tagged(v);
                } else if stmts.len() > 1 {
                    lemma_program_result_not_return(stmts.drop_first(), e1);
                }
            },
            Err(_) => {},
        }
    }
}

/// A function call's `Ok` result is never return-tagged: the wrapper
/// is unwrapped at the call boundary, ending only that call.
pub proof fn lemma_call_result_not_return(f: ObjV, args: Seq<ObjV>, env: EnvV, fuel: nat)
    requires
        f is Function,
    ensures
        match apply_function_spec(f, args, env, fuel).1 {
            Ok(v) => !(v is ReturnValue),
            Err(_) => true,
        },
{
    if fuel > 0 {
        match f {
            ObjV::Function { parameter, body, env: captured } => {
                if parameter.len() == args.len() {
                    let (e2, r) = eval_stmts_spec(
                        body,
                        extended_env_spec(parameter, args, captured, env),
                        (fuel - 1) as nat,
                    );
                    match r {
                        Ok(v) => lemma_strip_returns_not_tagged(v),
                        Err(_) => {},
                    }
                }
            },
            _ => {},
        }
    }
}

/// An `if` expression runs exactly one block: the consequence on a
/// truthy condition, else the alternative when present, else nothing —
/// its value is then `Null`.
pub proof fn lemma_if_dispatch(cond: ObjV, consq: Seq<StmtV>, alter: Seq<StmtV>, env: EnvV, fuel: nat)
    requires
        fuel > 0,
    ensures
        truthy_spec(cond) ==> eval_if_spec(cond, consq, alter, env, fuel) == eval_stmts_spec(
            consq,
            env,
            (fuel - 1) as nat,
        ),
        !truthy_spec(cond) && alter.len() > 0 ==> eval_if_spec(cond, consq, alter, env, fuel)
            == eval_stmts_spec(alter, env, (fuel - 1) as nat),
        !truthy_spec(cond) && alter.len() == 0 ==> eval_if_spec(cond, consq, alter, env, fuel) == (
            env,
            Ok::<ObjV, ErrV>(ObjV::Null),
        ),
{
}

/// A program stops at its first wrapped result: that statement's value
/// is unwrapped into the program's result and the statements after it
/// contribute nothing; a statement error is the program's error.
pub proof fn lemma_program_stops_at_return(stmts: Seq<StmtV>, env: EnvV)
    requires
        stmts.len() > 0,
    ensures
        ({
            let (e1, r) = eval_stmt_spec(stmts[0], env, EVAL_BUDGET as nat);
            match r {
                Ok(v) => v is ReturnValue ==> eval_program_spec(stmts, env) == (
                    e1,
                    Ok::<ObjV, ErrV>(strip_returns_spec(v)),
                ),
                Err(e) => eval_program_spec(stmts, env) == (e1, Err::<ObjV, ErrV>(e)),
            }
        }),
{
}

/// Calling a function runs its body — and nothing else — in a fresh
/// frame enclosed by the captured scope, unwraps a returned value, and
/// restores the caller's scope: a `return` in the body ends only this
/// call.
pub proof fn lemma_call_runs_body(
    parameter: Seq<Seq<char>>,
    body: Seq<StmtV>,
    captured: int,
    args: Seq<ObjV>,
    env: EnvV,
    fuel: nat,
)
    requires
        fuel > 0,
        parameter.len() == args.len(),
    ensures
        ({
            let (e2, r) = eval_stmts_spec(
                body,
                extended_env_spec(parameter, args, captured, env),
                (fuel - 1) as nat,
            );
            apply_function_spec(
                ObjV::Function { parameter, body, env: captured },
                args,
                env,
                fuel,
            ) == (
                (EnvV { frames: e2.frames, cur: env.cur }),
                match r {
                    Ok(v) => Ok::<ObjV, ErrV>(strip_returns_spec(v)),
                    Err(e) => Err::<ObjV, ErrV>(e),
                },
            )
        }),
{
}

/// Operands of different kinds that are not both numeric never mix:
/// every infix operator on them fails as a `TypeMismatch` error.
pub proof fn lemma_infix_type_mismatch(op: TokenV, l: ObjV, r: ObjV)
    requires
        !(to_complex_spec(l) is Some && to_complex_spec(r) is Some),
        kind_of(l) != kind_of(r),
    ensures
        infix_spec(op, l, r) == Err::<ObjV, ErrV>(
            ErrV::TypeMismatch { left: kind_of(l), operator: op, right: kind_of(r) },
        ),
{
}

/// Looking a name up in the positional parameter layer: with a
/// duplicated parameter name the rightmost binding wins; a name not
/// among the parameters is not found in the layer.
proof fn lemma_lookup_store_zip(params: Seq<Seq<char>>, args: Seq<ObjV>, name: Seq<char>)
    requires
        params.len() == args.len(),
    ensures
        (forall|i: int| 0 <= i < params.len() ==> params[i] != name) ==> lookup_store_spec(
            Seq::new(params.len(), |i: int| (params[i], args[i])),
            name,
        ) is None,
        forall|i: int|
            0 <= i < params.len() && params[i] == name && (forall|j: int|
                i < j < params.len() ==> params[j] != name) ==> lookup_store_spec(
                Seq::new(params.len(), |i: int| (params[i], args[i])),
                name,
            ) == Some(args[i]),
    decreases params.len(),
{
    let store = Seq::new(params.len(), |i: int| (params[i], args[i]));
    if params.len() > 0 {
        let pp = params.drop_last();
        let aa = args.drop_last();
        lemma_lookup_store_zip(pp, aa, name);
        let substore = Seq::new(pp.len(), |i: int| (pp[i], aa[i]));
        assert(store.drop_last() =~= substore);
        assert(store.last() == (params.last(), args.last()));
        if params.last() == name {
            assert forall|i: int|
                0 <= i < params.len() && params[i] == name && (forall|j: int|
                    i < j < params.len() ==> params[j] != name) implies lookup_store_spec(
                store,
                name,
            ) == Some(args[i]) by {
                assert(i == params.len() - 1);
            }
        } else {
            assert(lookup_store_spec(store, name) == lookup_store_spec(substore, name));
            assert forall|i: int|
                0 <= i < params.len() && params[i] == name && (forall|j: int|
                    i < j < params.len() ==> params[j] != name) implies lookup_store_spec(
                store,
                name,
            ) == Some(args[i]) by {
                assert(i < params.len() - 1);
                assert(pp[i] == params[i] && aa[i] == args[i]);
                assert(forall|j: int| i < j < pp.len() ==> pp[j] != name);
            }
        }
    }
}

/// The call frame resolves each parameter to its argument — with a
/// duplicated name the rightmost binding wins — and resolves a name
/// that is no parameter through the captured scope's chain, which the
/// call left untouched.
pub proof fn lemma_extended_env_lookup(
    params: Seq<Seq<char>>,
    args: Seq<ObjV>,
    captured: int,
    env: EnvV,
    name: Seq<char>,
)
    requires
        params.len() == args.len(),
        0 <= captured < env.frames.len(),
    ensures
        forall|i: int|
            0 <= i < params.len() && params[i] == name && (forall|j: int|
                i < j < params.len() ==> params[j] != name) ==> lookup_spec(
                extended_env_spec(params, args, captured, env),
                name,
            ) == Some(args[i]),
        (forall|i: int| 0 <= i < params.len() ==> params[i] != name) ==> lookup_spec(
            extended_env_spec(params, args, captured, env),
            name,
        ) == lookup_chain_spec(env.frames, captured, name),
{
    lemma_lookup_store_zip(params, args, name);
    let e2 = extended_env_spec(params, args, captured, env);
    assert(e2.frames[e2.cur].store == Seq::new(params.len(), |i: int| (params[i], args[i])));
    if forall|i: int| 0 <= i < params.len() ==> params[i] != name {
        lemma_chain_prefix_agrees(env.frames, e2.frames, captured, name);
    }
}

} // verus!
