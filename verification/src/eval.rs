//! The per-pixel evaluator: a single-pass stack machine over a parsed token
//! sequence.
//!
//! Values are 64-bit signed integers. The numeric policy is fail-fast and
//! uniform: division or remainder by zero, and any operation whose result
//! does not fit in 64 bits, stop the evaluation with a typed error; nothing
//! saturates silently. One scalar expression is evaluated per pixel; its
//! result, clamped to 0..=255, is written to the red, green and blue
//! channels alike, and the alpha channel is carried over from the input
//! pixel. The variable set has no neighbor-sampling accessor: the context
//! carries everything one evaluation reads.

use vstd::prelude::*;

use crate::img::Rgba;
use crate::parser::{depth_after, wf_rpn, BinOp, Func, Token, Variable};

verus! {

/// Why an evaluation failed. The first three are stack-shape faults, which a
/// well-formed parse can never produce; the last two are numeric domain
/// faults, which depend on the evaluated values.
#[derive(Clone, Copy, Debug, PartialEq, Eq, Structural)]
pub enum EvalError {
    StackUnderflow,
    StackNotSingleton,
    UnexpectedGrouping,
    DivisionByZero,
    Overflow,
}

/// Everything one evaluation of one pixel may read: image size, the pixel's
/// color and position, the carried-over result of the previously visited
/// pixel, and one random sample.
#[derive(Clone, Copy, Debug)]
pub struct EvalContext {
    pub size: (u32, u32),
    pub rgba: Rgba,
    pub saved_rgb: (u8, u8, u8),
    pub position: (u32, u32),
    pub rand: u8,
}

/// The value a variable resolves to in a context.
pub open spec fn spec_var(v: Variable, ctx: EvalContext) -> i64 {
    match v {
        Variable::X => ctx.position.0 as i64,
        Variable::Y => ctx.position.1 as i64,
        Variable::W => ctx.size.0 as i64,
        Variable::H => ctx.size.1 as i64,
        Variable::R => ctx.rgba.r as i64,
        Variable::G => ctx.rgba.g as i64,
        Variable::B => ctx.rgba.b as i64,
        Variable::A => ctx.rgba.a as i64,
        Variable::Sr => ctx.saved_rgb.0 as i64,
        Variable::Sg => ctx.saved_rgb.1 as i64,
        Variable::Sb => ctx.saved_rgb.2 as i64,
        Variable::Rand => ctx.rand as i64,
    }
}

/// Exact semantics of one binary operator application.
pub open spec fn spec_bin(op: BinOp, a: i64, b: i64) -> Result<i64, EvalError> {
    match op {
        BinOp::Add => match a.checked_add(b) {
            Some(v) => Ok(v),
            None => Err(EvalError::Overflow),
        },
        BinOp::Sub => match a.checked_sub(b) {
            Some(v) => Ok(v),
            None => Err(EvalError::Overflow),
        },
        BinOp::Mul => match a.checked_mul(b) {
            Some(v) => Ok(v),
            None => Err(EvalError::Overflow),
        },
        BinOp::Div => if b == 0 {
            Err(EvalError::DivisionByZero)
        } else {
            match a.checked_div(b) {
                Some(v) => Ok(v),
                None => Err(EvalError::Overflow),
            }
        },
        BinOp::Rem => if b == 0 {
            Err(EvalError::DivisionByZero)
        } else {
            match a.checked_rem(b) {
                Some(v) => Ok(v),
                None => Err(EvalError::Overflow),
            }
        },
    }
}

/// Exact semantics of unary negation.
pub open spec fn spec_neg(a: i64) -> Result<i64, EvalError> {
    match (0i64).checked_sub(a) {
        Some(v) => Ok(v),
        None => Err(EvalError::Overflow),
    }
}

/// Exact semantics of the `abs` function.
pub open spec fn spec_abs(a: i64) -> Result<i64, EvalError> {
    if a < 0 {
        spec_neg(a)
    } else {
        Ok(a)
    }
}

/// The meaning of a token sequence: run the stack machine over `ts` starting
/// from stack `st`, and yield the single remaining value or the first fault.
pub open spec fn spec_eval_from(ts: Seq<Token>, ctx: EvalContext, st: Seq<i64>) -> Result<
    i64,
    EvalError,
>
    decreases ts.len(),
{
    if ts.len() == 0 {
        if st.len() == 1 {
            Ok(st[0])
        } else {
            Err(EvalError::StackNotSingleton)
        }
    } else {
        match ts[0] {
            Token::Lit(v) => spec_eval_from(ts.drop_first(), ctx, st.push(v)),
            Token::Var(v) => spec_eval_from(ts.drop_first(), ctx, st.push(spec_var(v, ctx))),
            Token::Neg => if st.len() < 1 {
                Err(EvalError::StackUnderflow)
            } else {
                match spec_neg(st.last()) {
                    Ok(v) => spec_eval_from(ts.drop_first(), ctx, st.drop_last().push(v)),
                    Err(e) => Err(e),
                }
            },
            Token::Fun(f) => if st.len() < 1 {
                Err(EvalError::StackUnderflow)
            } else {
                match (match f {
                    Func::Abs => spec_abs(st.last()),
                }) {
                    Ok(v) => spec_eval_from(ts.drop_first(), ctx, st.drop_last().push(v)),
                    Err(e) => Err(e),
                }
            },
            Token::Bin(op) => if st.len() < 2 {
                Err(EvalError::StackUnderflow)
            } else {
                match spec_bin(op, st[st.len() - 2], st.last()) {
                    Ok(v) => spec_eval_from(
                        ts.drop_first(),
                        ctx,
                        st.drop_last().drop_last().push(v),
                    ),
                    Err(e) => Err(e),
                }
            },
            Token::Open => Err(EvalError::UnexpectedGrouping),
            Token::Close => Err(EvalError::UnexpectedGrouping),
        }
    }
}

/// The scalar a token sequence evaluates to in a context, or its fault.
pub open spec fn spec_eval(ts: Seq<Token>, ctx: EvalContext) -> Result<i64, EvalError> {
    spec_eval_from(ts, ctx, Seq::empty())
}

/// A scalar result clamped to one color channel.
pub open spec fn spec_clamp(v: i64) -> u8 {
    if v < 0 {
        0u8
    } else if v > 255 {
        255u8
    } else {
        v as u8
    }
}

/// The pixel an evaluation result produces: the clamped scalar in all three
/// color channels, alpha carried over from the input pixel.
pub open spec fn spec_output_color(v: i64, ctx: EvalContext) -> Rgba {
    Rgba { r: spec_clamp(v), g: spec_clamp(v), b: spec_clamp(v), a: ctx.rgba.a }
}

fn resolve_var(v: Variable, ctx: &EvalContext) -> (r: i64)
    ensures
        r == spec_var(v, *ctx),
{
    match v {
        Variable::X => ctx.position.0 as i64,
        Variable::Y => ctx.position.1 as i64,
        Variable::W => ctx.size.0 as i64,
        Variable::H => ctx.size.1 as i64,
        Variable::R => ctx.rgba.r as i64,
        Variable::G => ctx.rgba.g as i64,
        Variable::B => ctx.rgba.b as i64,
        Variable::A => ctx.rgba.a as i64,
        Variable::Sr => ctx.saved_rgb.0 as i64,
        Variable::Sg => ctx.saved_rgb.1 as i64,
        Variable::Sb => ctx.saved_rgb.2 as i64,
        Variable::Rand => ctx.rand as i64,
    }
}

fn bin_val(op: BinOp, a: i64, b: i64) -> (r: Result<i64, EvalError>)
    ensures
        r == spec_bin(op, a, b),
{
    match op {
        BinOp::Add => match a.checked_add(b) {
            Some(v) => Ok(v),
            None => Err(EvalError::Overflow),
        },
        BinOp::Sub => match a.checked_sub(b) {
            Some(v) => Ok(v),
            None => Err(EvalError::Overflow),
        },
        BinOp::Mul => match a.checked_mul(b) {
            Some(v) => Ok(v),
            None => Err(EvalError::Overflow),
        },
        BinOp::Div => if b == 0 {
            Err(EvalError::DivisionByZero)
        } else {
            match a.checked_div(b) {
                Some(v) => Ok(v),
                None => Err(EvalError::Overflow),
            }
        },
        BinOp::Rem => if b == 0 {
            Err(EvalError::DivisionByZero)
        } else {
            match a.checked_rem(b) {
                Some(v) => Ok(v),
                None => Err(EvalError::Overflow),
            }
        },
    }
}

fn neg_val(a: i64) -> (r: Result<i64, EvalError>)
    ensures
        r == spec_neg(a),
{
    match (0i64).checked_sub(a) {
        Some(v) => Ok(v),
        None => Err(EvalError::Overflow),
    }
}

fn abs_val(a: i64) -> (r: Result<i64, EvalError>)
    ensures
        r == spec_abs(a),
{
    if a < 0 {
        neg_val(a)
    } else {
        Ok(a)
    }
}

/// Clamp a scalar to one byte channel.
pub fn clamp_byte(v: i64) -> (r: u8)
    ensures
        r == spec_clamp(v),
{
    if v < 0 {
        0
    } else if v > 255 {
        255
    } else {
        v as u8
    }
}

/// Evaluate a token sequence against a per-pixel context: the single-pass
/// stack machine. Returns exactly what the semantics `spec_eval` assigns to
/// the sequence, converted to an output pixel by `spec_output_color`.
pub fn eval(tokens: &Vec<Token>, ctx: &EvalContext) -> (r: Result<Rgba, EvalError>)
    ensures
        (match spec_eval(tokens@, *ctx) {
            Ok(v) => r == Ok::<Rgba, EvalError>(spec_output_color(v, *ctx)),
            Err(e) => r == Err::<Rgba, EvalError>(e),
        }),
{
    let mut st: Vec<i64> = Vec::new();
    let n = tokens.len();
    let mut i: usize = 0;
    proof {
        assert(tokens@.skip(0) =~= tokens@);
        assert(st@ =~= Seq::<i64>::empty());
    }
    while i < n
        invariant
            i <= n,
            n == tokens@.len(),
            spec_eval_from(tokens@.skip(i as int), *ctx, st@) == spec_eval(tokens@, *ctx),
        decreases n - i,
    {
        let t = tokens[i];
        proof {
            assert(tokens@.skip(i as int)[0] == tokens@[i as int]);
            assert(tokens@.skip(i as int).drop_first() =~= tokens@.skip(i as int + 1));
        }
        match t {
            Token::Lit(v) => {
                st.push(v);
            },
            Token::Var(v) => {
                let val = resolve_var(v, ctx);
                st.push(val);
            },
            Token::Neg => {
                if st.len() < 1 {
                    return Err(EvalError::StackUnderflow);
                }
                let a = st.pop().unwrap();
                match neg_val(a) {
                    Ok(v) => st.push(v),
                    Err(e) => {
                        return Err(e);
                    },
                }
            },
            Token::Fun(f) => {
                if st.len() < 1 {
                    return Err(EvalError::StackUnderflow);
                }
                let a = st.pop().unwrap();
                let applied = match f {
                    Func::Abs => abs_val(a),
                };
                match applied {
                    Ok(v) => st.push(v),
                    Err(e) => {
                        return Err(e);
                    },
                }
            },
            Token::Bin(op) => {
                if st.len() < 2 {
                    return Err(EvalError::StackUnderflow);
                }
                let b = st.pop().unwrap();
                let a = st.pop().unwrap();
                match bin_val(op, a, b) {
                    Ok(v) => st.push(v),
                    Err(e) => {
                        return Err(e);
                    },
                }
            },
            Token::Open => {
                return Err(EvalError::UnexpectedGrouping);
            },
            Token::Close => {
                return Err(EvalError::UnexpectedGrouping);
            },
        }
        i = i + 1;
    }
    proof {
        assert(tokens@.skip(n as int) =~= Seq::<Token>::empty());
    }
    if st.len() == 1 {
        let v = st[0];
        Ok(Rgba { r: clamp_byte(v), g: clamp_byte(v), b: clamp_byte(v), a: ctx.rgba.a })
    } else {
        Err(EvalError::StackNotSingleton)
    }
}

proof fn lemma_wf_depth_no_stack_fault(ts: Seq<Token>, ctx: EvalContext, st: Seq<i64>)
    requires
        depth_after(ts, st.len() as int) == Some(1int),
    ensures
        spec_eval_from(ts, ctx, st) != Err::<i64, EvalError>(EvalError::StackUnderflow),
        spec_eval_from(ts, ctx, st) != Err::<i64, EvalError>(EvalError::StackNotSingleton),
        spec_eval_from(ts, ctx, st) != Err::<i64, EvalError>(EvalError::UnexpectedGrouping),
    decreases ts.len(),
{
    if ts.len() == 0 {
    } else {
        match ts[0] {
            Token::Lit(v) => {
                lemma_wf_depth_no_stack_fault(ts.drop_first(), ctx, st.push(v));
            },
            Token::Var(v) => {
                lemma_wf_depth_no_stack_fault(ts.drop_first(), ctx, st.push(spec_var(v, ctx)));
            },
            Token::Neg => {
                match spec_neg(st.last()) {
                    Ok(v) => {
                        lemma_wf_depth_no_stack_fault(ts.drop_first(), ctx, st.drop_last().push(v));
                    },
                    Err(e) => {},
                }
            },
            Token::Fun(f) => {
                match (match f {
                    Func::Abs => spec_abs(st.last()),
                }) {
                    Ok(v) => {
                        lemma_wf_depth_no_stack_fault(ts.drop_first(), ctx, st.drop_last().push(v));
                    },
                    Err(e) => {},
                }
            },
            Token::Bin(op) => {
                match spec_bin(op, st[st.len() - 2], st.last()) {
                    Ok(v) => {
                        lemma_wf_depth_no_stack_fault(
                            ts.drop_first(),
                            ctx,
                            st.drop_last().drop_last().push(v),
                        );
                    },
                    Err(e) => {},
                }
            },
            Token::Open => {},
            Token::Close => {},
        }
    }
}

/// Law: a well-formed token sequence — which every successful parse yields —
/// is consumed by the evaluator in one full pass to a single value, for any
/// context: the stack never underflows, never holds more than one value at
/// the end, and no grouping marker is met. The only possible failures are
/// numeric domain faults.
pub proof fn lemma_wf_rpn_evaluates(ts: Seq<Token>, ctx: EvalContext)
    requires
        wf_rpn(ts),
    ensures
        spec_eval(ts, ctx) != Err::<i64, EvalError>(EvalError::StackUnderflow),
        spec_eval(ts, ctx) != Err::<i64, EvalError>(EvalError::StackNotSingleton),
        spec_eval(ts, ctx) != Err::<i64, EvalError>(EvalError::UnexpectedGrouping),
{
    lemma_wf_depth_no_stack_fault(ts, ctx, Seq::empty());
}

} // verus!
