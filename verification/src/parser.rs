//! Infix expression parser: a lexer and the shunting-yard algorithm.
//!
//! The parser turns an expression string into a token sequence in evaluation
//! order (postfix): a single left-to-right pass with a value stack computes
//! the result. The precedence table, from loosest to tightest binding:
//! addition and subtraction; multiplication, division and remainder; unary
//! minus and named functions. All binary operators are left-associative.
//! Names are validated here: an identifier that is not one of the documented
//! variables (`x`, `y`, `w`, `h`, `r`, `g`, `b`, `a`, `sr`, `sg`, `sb`,
//! `rand`) or functions (`abs`) is a parse error. Literals are non-negative
//! decimal integers that must fit in a 64-bit signed value.

use vstd::prelude::*;

verus! {

/// A pixel- or image-property a parsed expression can read.
#[derive(Clone, Copy, Debug, PartialEq, Eq, Structural)]
pub enum Variable {
    X,
    Y,
    W,
    H,
    R,
    G,
    B,
    A,
    Sr,
    Sg,
    Sb,
    Rand,
}

/// A binary arithmetic operator.
#[derive(Clone, Copy, Debug, PartialEq, Eq, Structural)]
pub enum BinOp {
    Add,
    Sub,
    Mul,
    Div,
    Rem,
}

/// A named function of one argument.
#[derive(Clone, Copy, Debug, PartialEq, Eq, Structural)]
pub enum Func {
    Abs,
}

/// One lexical unit of an expression. `Open` and `Close` are grouping
/// markers: the lexer emits them, the parser consumes them, and a successful
/// parse never leaves one in its output.
#[derive(Clone, Copy, Debug, PartialEq, Eq, Structural)]
pub enum Token {
    Lit(i64),
    Var(Variable),
    Bin(BinOp),
    Neg,
    Fun(Func),
    Open,
    Close,
}

#[derive(Clone, Copy, Debug, PartialEq, Eq, Structural)]
pub enum ParseErrorKind {
    UnknownChar,
    UnknownName,
    LiteralTooLarge,
    UnmatchedParen,
    MissingOperand,
    MissingOperator,
}

/// A malformed expression, with the position of the offence: a character
/// index for lexical errors, a token index otherwise.
#[derive(Clone, Copy, Debug, PartialEq, Eq, Structural)]
pub struct ParseError {
    pub kind: ParseErrorKind,
    pub pos: usize,
}

/// The effect of one token on the height of an evaluation stack: operands
/// push one value, operators replace their operands by one result, and
/// grouping markers are not evaluable at all.
pub open spec fn step_depth(t: Token, d: int) -> Option<int> {
    match t {
        Token::Lit(_) => Some(d + 1),
        Token::Var(_) => Some(d + 1),
        Token::Neg => if d >= 1 { Some(d) } else { None },
        Token::Fun(_) => if d >= 1 { Some(d) } else { None },
        Token::Bin(_) => if d >= 2 { Some(d - 1) } else { None },
        Token::Open => None,
        Token::Close => None,
    }
}

/// The stack height after evaluating `ts` starting from height `d`, or
/// `None` if some operator would underflow the stack (or a grouping marker
/// remains in the sequence).
pub open spec fn depth_after(ts: Seq<Token>, d: int) -> Option<int>
    decreases ts.len(),
{
    if ts.len() == 0 {
        Some(d)
    } else {
        match step_depth(ts[0], d) {
            Some(d2) => depth_after(ts.drop_first(), d2),
            None => None,
        }
    }
}

/// A token sequence is well-formed postfix: one forward pass starting from
/// an empty stack never underflows and leaves exactly one value.
pub open spec fn wf_rpn(ts: Seq<Token>) -> bool {
    depth_after(ts, 0) == Some(1int)
}

proof fn lemma_depth_after_push(ts: Seq<Token>, t: Token, d: int)
    ensures
        depth_after(ts.push(t), d) == (match depth_after(ts, d) {
            Some(k) => step_depth(t, k),
            None => None,
        }),
    decreases ts.len(),
{
    if ts.len() == 0 {
        assert(ts.push(t)[0] == t);
        assert(ts.push(t).drop_first() =~= Seq::<Token>::empty());
        match step_depth(t, d) {
            Some(d2) => {
                assert(depth_after(Seq::<Token>::empty(), d2) == Some(d2));
            },
            None => {},
        }
    } else {
        assert(ts.push(t)[0] == ts[0]);
        assert(ts.push(t).drop_first() =~= ts.drop_first().push(t));
        match step_depth(ts[0], d) {
            Some(d2) => {
                lemma_depth_after_push(ts.drop_first(), t, d2);
            },
            None => {},
        }
    }
}

/// How many binary operators a stack segment holds; each of them still owes
/// the output one stack slot.
pub open spec fn bin_count(ts: Seq<Token>) -> int
    decreases ts.len(),
{
    if ts.len() == 0 {
        0
    } else {
        bin_count(ts.drop_last()) + if ts.last() is Bin {
            1int
        } else {
            0int
        }
    }
}

proof fn lemma_bin_count_nonneg(ts: Seq<Token>)
    ensures
        bin_count(ts) >= 0,
    decreases ts.len(),
{
    if ts.len() > 0 {
        lemma_bin_count_nonneg(ts.drop_last());
    }
}

proof fn lemma_bin_count_push(ts: Seq<Token>, t: Token)
    ensures
        bin_count(ts.push(t)) == bin_count(ts) + if t is Bin {
            1int
        } else {
            0int
        },
{
    assert(ts.push(t).drop_last() =~= ts);
}

/// An operand token: a literal or a variable.
pub open spec fn is_operand(t: Token) -> bool {
    t is Lit || t is Var
}

/// A grouping marker, consumed by parsing and never emitted.
pub open spec fn is_grouping(t: Token) -> bool {
    t is Open || t is Close
}

/// The subsequence of operand tokens, in order.
pub open spec fn operands_of(ts: Seq<Token>) -> Seq<Token>
    decreases ts.len(),
{
    if ts.len() == 0 {
        Seq::empty()
    } else if is_operand(ts.last()) {
        operands_of(ts.drop_last()).push(ts.last())
    } else {
        operands_of(ts.drop_last())
    }
}

/// How many tokens survive parsing: all but the grouping markers.
pub open spec fn emit_len(ts: Seq<Token>) -> int
    decreases ts.len(),
{
    if ts.len() == 0 {
        0
    } else {
        emit_len(ts.drop_last()) + if is_grouping(ts.last()) {
            0int
        } else {
            1int
        }
    }
}

/// How many entries of an operator stack are pending operators rather than
/// open parentheses.
pub open spec fn open_free_len(ts: Seq<Token>) -> int
    decreases ts.len(),
{
    if ts.len() == 0 {
        0
    } else {
        open_free_len(ts.drop_last()) + if ts.last() is Open {
            0int
        } else {
            1int
        }
    }
}

proof fn lemma_operands_push(ts: Seq<Token>, t: Token)
    ensures
        operands_of(ts.push(t)) == (if is_operand(t) {
            operands_of(ts).push(t)
        } else {
            operands_of(ts)
        }),
{
    assert(ts.push(t).drop_last() =~= ts);
}

proof fn lemma_emit_len_push(ts: Seq<Token>, t: Token)
    ensures
        emit_len(ts.push(t)) == emit_len(ts) + if is_grouping(t) {
            0int
        } else {
            1int
        },
{
    assert(ts.push(t).drop_last() =~= ts);
}

proof fn lemma_open_free_push(ts: Seq<Token>, t: Token)
    ensures
        open_free_len(ts.push(t)) == open_free_len(ts) + if t is Open {
            0int
        } else {
            1int
        },
{
    assert(ts.push(t).drop_last() =~= ts);
}

/// What the operator stack may hold.
pub open spec fn is_stack_op(t: Token) -> bool {
    t is Bin || t is Neg || t is Fun || t is Open
}

/// Moving the top of the operator stack to the output keeps the output a
/// valid postfix prefix: the operator finds its operands there.
proof fn lemma_emit_popped(out: Seq<Token>, stack: Seq<Token>)
    requires
        stack.len() > 0,
        !(stack.last() is Open),
        is_stack_op(stack.last()),
        depth_after(out, 0) == Some(bin_count(stack) + 1),
    ensures
        depth_after(out.push(stack.last()), 0) == Some(bin_count(stack.drop_last()) + 1),
{
    lemma_bin_count_nonneg(stack.drop_last());
    lemma_depth_after_push(out, stack.last(), 0);
}

/// Binding strength of an operator token (tighter binds higher).
pub open spec fn spec_prec(t: Token) -> u32 {
    match t {
        Token::Bin(op) => match op {
            BinOp::Add => 1,
            BinOp::Sub => 1,
            BinOp::Mul => 2,
            BinOp::Div => 2,
            BinOp::Rem => 2,
        },
        Token::Neg => 3,
        Token::Fun(_) => 3,
        _ => 0,
    }
}

fn prec(t: Token) -> (r: u32)
    ensures
        r == spec_prec(t),
{
    match t {
        Token::Bin(op) => match op {
            BinOp::Add => 1,
            BinOp::Sub => 1,
            BinOp::Mul => 2,
            BinOp::Div => 2,
            BinOp::Rem => 2,
        },
        Token::Neg => 3,
        Token::Fun(_) => 3,
        _ => 0,
    }
}

/// Move operators of no lower binding strength than `p` from the stack to
/// the output, stopping at an open parenthesis.
pub open spec fn pop_for_bin(out: Seq<Token>, stack: Seq<Token>, p: u32) -> (Seq<Token>, Seq<
    Token,
>)
    decreases stack.len(),
{
    if stack.len() == 0 {
        (out, stack)
    } else if stack.last() is Open {
        (out, stack)
    } else if spec_prec(stack.last()) < p {
        (out, stack)
    } else {
        pop_for_bin(out.push(stack.last()), stack.drop_last(), p)
    }
}

/// Move operators from the stack to the output until the matching open
/// parenthesis, which is discarded; `None` when there is none.
pub open spec fn pop_to_open(out: Seq<Token>, stack: Seq<Token>) -> Option<(Seq<Token>, Seq<
    Token,
>)>
    decreases stack.len(),
{
    if stack.len() == 0 {
        None
    } else if stack.last() is Open {
        Some((out, stack.drop_last()))
    } else {
        pop_to_open(out.push(stack.last()), stack.drop_last())
    }
}

/// Move every remaining operator to the output; `None` when an unmatched
/// open parenthesis remains.
pub open spec fn flush_ops(out: Seq<Token>, stack: Seq<Token>) -> Option<Seq<Token>>
    decreases stack.len(),
{
    if stack.len() == 0 {
        Some(out)
    } else if stack.last() is Open {
        None
    } else {
        flush_ops(out.push(stack.last()), stack.drop_last())
    }
}

/// The shunting-yard algorithm itself, as a function: scan the input from
/// position `i` with output `out`, operator stack `stack`, and `expect`
/// telling whether an operand must come next. This is the defining meaning
/// of parsing: `parse_tokens` returns exactly this.
pub open spec fn spec_parse_from(
    input: Seq<Token>,
    i: int,
    out: Seq<Token>,
    stack: Seq<Token>,
    expect: bool,
) -> Result<Seq<Token>, ParseError>
    decreases input.len() - i,
{
    if i >= input.len() {
        if expect {
            Err(ParseError { kind: ParseErrorKind::MissingOperand, pos: input.len() as usize })
        } else {
            match flush_ops(out, stack) {
                Some(o) => Ok(o),
                None => Err(
                    ParseError { kind: ParseErrorKind::UnmatchedParen, pos: input.len() as usize },
                ),
            }
        }
    } else {
        let t = input[i];
        match t {
            Token::Lit(_) => if expect {
                spec_parse_from(input, i + 1, out.push(t), stack, false)
            } else {
                Err(ParseError { kind: ParseErrorKind::MissingOperator, pos: i as usize })
            },
            Token::Var(_) => if expect {
                spec_parse_from(input, i + 1, out.push(t), stack, false)
            } else {
                Err(ParseError { kind: ParseErrorKind::MissingOperator, pos: i as usize })
            },
            Token::Bin(op) => if expect {
                if op == BinOp::Sub {
                    spec_parse_from(input, i + 1, out, stack.push(Token::Neg), true)
                } else {
                    Err(ParseError { kind: ParseErrorKind::MissingOperand, pos: i as usize })
                }
            } else {
                spec_parse_from(
                    input,
                    i + 1,
                    pop_for_bin(out, stack, spec_prec(t)).0,
                    pop_for_bin(out, stack, spec_prec(t)).1.push(t),
                    true,
                )
            },
            Token::Neg => if expect {
                spec_parse_from(input, i + 1, out, stack.push(t), true)
            } else {
                Err(ParseError { kind: ParseErrorKind::MissingOperator, pos: i as usize })
            },
            Token::Fun(_) => if expect {
                spec_parse_from(input, i + 1, out, stack.push(t), true)
            } else {
                Err(ParseError { kind: ParseErrorKind::MissingOperator, pos: i as usize })
            },
            Token::Open => if expect {
                spec_parse_from(input, i + 1, out, stack.push(t), true)
            } else {
                Err(ParseError { kind: ParseErrorKind::MissingOperator, pos: i as usize })
            },
            Token::Close => if expect {
                Err(ParseError { kind: ParseErrorKind::MissingOperand, pos: i as usize })
            } else {
                match pop_to_open(out, stack) {
                    Some(p) => spec_parse_from(input, i + 1, p.0, p.1, false),
                    None => Err(ParseError { kind: ParseErrorKind::UnmatchedParen, pos: i as usize }),
                }
            },
        }
    }
}

/// What a lexed token sequence parses to: the exact result, success or
/// failure, of the shunting-yard scan.
pub open spec fn spec_parse(input: Seq<Token>) -> Result<Seq<Token>, ParseError> {
    spec_parse_from(input, 0, Seq::empty(), Seq::empty(), true)
}

/// Rearrange a lexed token sequence into evaluation order (shunting-yard).
/// A `-` in operand position is read as unary minus. The result — success
/// or the exact error and position — is `spec_parse` of the input; every
/// successful result is moreover well-formed postfix (so a single
/// evaluation pass consumes it to exactly one value without stack faults),
/// keeps the input's operands in order, and holds every non-grouping input
/// token.
pub fn parse_tokens(input: &Vec<Token>) -> (r: Result<Vec<Token>, ParseError>)
    ensures
        (match r {
            Ok(out) => spec_parse(input@) == Ok::<Seq<Token>, ParseError>(out@),
            Err(err) => spec_parse(input@) == Err::<Seq<Token>, ParseError>(err),
        }),
        r matches Ok(out) ==> wf_rpn(out@) && operands_of(out@) == operands_of(input@)
            && out@.len() == emit_len(input@),
{
    let mut out: Vec<Token> = Vec::new();
    let mut stack: Vec<Token> = Vec::new();
    // Whether the next token must begin an operand.
    let mut expect: bool = true;
    let n = input.len();
    let mut i: usize = 0;
    proof {
        assert(input@.take(0) =~= Seq::<Token>::empty());
        assert(out@ =~= Seq::<Token>::empty());
        assert(stack@ =~= Seq::<Token>::empty());
    }
    while i < n
        invariant
            i <= n,
            n == input@.len(),
            forall|j: int| 0 <= j < stack@.len() ==> is_stack_op(#[trigger] stack@[j]),
            depth_after(out@, 0) == Some(
                bin_count(stack@) + if expect {
                    0int
                } else {
                    1int
                },
            ),
            operands_of(out@) == operands_of(input@.take(i as int)),
            out@.len() + open_free_len(stack@) == emit_len(input@.take(i as int)),
            spec_parse_from(input@, i as int, out@, stack@, expect) == spec_parse(input@),
        decreases n - i,
    {
        let t = input[i];
        proof {
            assert(input@.take(i as int + 1) =~= input@.take(i as int).push(t));
            lemma_operands_push(input@.take(i as int), t);
            lemma_emit_len_push(input@.take(i as int), t);
        }
        match t {
            Token::Lit(_) => {
                if !expect {
                    return Err(ParseError { kind: ParseErrorKind::MissingOperator, pos: i });
                }
                proof {
                    lemma_depth_after_push(out@, t, 0);
                    lemma_operands_push(out@, t);
                }
                out.push(t);
                expect = false;
            },
            Token::Var(_) => {
                if !expect {
                    return Err(ParseError { kind: ParseErrorKind::MissingOperator, pos: i });
                }
                proof {
                    lemma_depth_after_push(out@, t, 0);
                    lemma_operands_push(out@, t);
                }
                out.push(t);
                expect = false;
            },
            Token::Bin(op) => {
                if expect {
                    // In operand position only a minus is meaningful: unary negation.
                    if matches!(op, BinOp::Sub) {
                        proof {
                            lemma_bin_count_push(stack@, Token::Neg);
                            lemma_open_free_push(stack@, Token::Neg);
                        }
                        stack.push(Token::Neg);
                    } else {
                        return Err(ParseError { kind: ParseErrorKind::MissingOperand, pos: i });
                    }
                } else {
                    let p = prec(t);
                    let mut done = false;
                    while !done
                        invariant
                            forall|j: int| 0 <= j < stack@.len() ==> is_stack_op(
                                #[trigger] stack@[j],
                            ),
                            depth_after(out@, 0) == Some(bin_count(stack@) + 1),
                            operands_of(out@) == operands_of(input@.take(i as int)),
                            out@.len() + open_free_len(stack@) == emit_len(input@.take(i as int)),
                            p == spec_prec(t),
                            t is Bin,
                            spec_parse_from(
                                input@,
                                i as int + 1,
                                pop_for_bin(out@, stack@, p).0,
                                pop_for_bin(out@, stack@, p).1.push(t),
                                true,
                            ) == spec_parse(input@),
                            done ==> pop_for_bin(out@, stack@, p) == (out@, stack@),
                        decreases
                                stack@.len() + if done {
                                    0int
                                } else {
                                    1int
                                },
                    {
                        if stack.len() == 0 {
                            done = true;
                        } else {
                            let top = stack[stack.len() - 1];
                            if matches!(top, Token::Open) {
                                done = true;
                            } else if prec(top) < p {
                                done = true;
                            } else {
                                proof {
                                    lemma_emit_popped(out@, stack@);
                                    lemma_operands_push(out@, top);
                                }
                                let popped = stack.pop().unwrap();
                                out.push(popped);
                            }
                        }
                    }
                    proof {
                        lemma_bin_count_push(stack@, t);
                        lemma_open_free_push(stack@, t);
                    }
                    stack.push(t);
                    expect = true;
                }
            },
            Token::Neg => {
                if !expect {
                    return Err(ParseError { kind: ParseErrorKind::MissingOperator, pos: i });
                }
                proof {
                    lemma_bin_count_push(stack@, t);
                    lemma_open_free_push(stack@, t);
                }
                stack.push(t);
            },
            Token::Fun(_) => {
                if !expect {
                    return Err(ParseError { kind: ParseErrorKind::MissingOperator, pos: i });
                }
                proof {
                    lemma_bin_count_push(stack@, t);
                    lemma_open_free_push(stack@, t);
                }
                stack.push(t);
            },
            Token::Open => {
                if !expect {
                    return Err(ParseError { kind: ParseErrorKind::MissingOperator, pos: i });
                }
                proof {
                    lemma_bin_count_push(stack@, t);
                    lemma_open_free_push(stack@, t);
                }
                stack.push(t);
            },
            Token::Close => {
                if expect {
                    return Err(ParseError { kind: ParseErrorKind::MissingOperand, pos: i });
                }
                let mut closed = false;
                while !closed
                    invariant
                        forall|j: int| 0 <= j < stack@.len() ==> is_stack_op(#[trigger] stack@[j]),
                        depth_after(out@, 0) == Some(bin_count(stack@) + 1),
                        operands_of(out@) == operands_of(input@.take(i as int)),
                        out@.len() + open_free_len(stack@) == emit_len(input@.take(i as int)),
                        i < n,
                        n == input@.len(),
                        closed ==> spec_parse_from(input@, i as int + 1, out@, stack@, false)
                            == spec_parse(input@),
                        !closed ==> (match pop_to_open(out@, stack@) {
                            Some(p2) => spec_parse_from(input@, i as int + 1, p2.0, p2.1, false),
                            None => Err(
                                ParseError { kind: ParseErrorKind::UnmatchedParen, pos: i as usize },
                            ),
                        }) == spec_parse(input@),
                    decreases
                            stack@.len() + if closed {
                                0int
                            } else {
                                1int
                            },
                {
                    if stack.len() == 0 {
                        return Err(ParseError { kind: ParseErrorKind::UnmatchedParen, pos: i });
                    }
                    let top = stack[stack.len() - 1];
                    if matches!(top, Token::Open) {
                        let _ = stack.pop();
                        closed = true;
                    } else {
                        proof {
                            lemma_emit_popped(out@, stack@);
                            lemma_operands_push(out@, top);
                        }
                        let popped = stack.pop().unwrap();
                        out.push(popped);
                    }
                }
            },
        }
        i = i + 1;
    }
    if expect {
        return Err(ParseError { kind: ParseErrorKind::MissingOperand, pos: n });
    }
    while stack.len() > 0
        invariant
            n == input@.len(),
            forall|j: int| 0 <= j < stack@.len() ==> is_stack_op(#[trigger] stack@[j]),
            depth_after(out@, 0) == Some(bin_count(stack@) + 1),
            operands_of(out@) == operands_of(input@.take(n as int)),
            out@.len() + open_free_len(stack@) == emit_len(input@.take(n as int)),
            (match flush_ops(out@, stack@) {
                Some(o) => Ok::<Seq<Token>, ParseError>(o),
                None => Err::<Seq<Token>, ParseError>(
                    ParseError { kind: ParseErrorKind::UnmatchedParen, pos: n },
                ),
            }) == spec_parse(input@),
        decreases stack@.len(),
    {
        let top = stack[stack.len() - 1];
        if matches!(top, Token::Open) {
            return Err(ParseError { kind: ParseErrorKind::UnmatchedParen, pos: n });
        }
        proof {
            lemma_emit_popped(out@, stack@);
            lemma_operands_push(out@, top);
        }
        let popped = stack.pop().unwrap();
        out.push(popped);
    }
    proof {
        assert(input@.take(n as int) =~= input@);
    }
    Ok(out)
}

/// The decimal value of a digit character, if it is one.
pub open spec fn spec_digit_val(c: char) -> Option<i64> {
    match c {
        '0' => Some(0i64),
        '1' => Some(1i64),
        '2' => Some(2i64),
        '3' => Some(3i64),
        '4' => Some(4i64),
        '5' => Some(5i64),
        '6' => Some(6i64),
        '7' => Some(7i64),
        '8' => Some(8i64),
        '9' => Some(9i64),
        _ => None,
    }
}

fn digit_val(c: char) -> (r: Option<i64>)
    ensures
        r == spec_digit_val(c),
{
    match c {
        '0' => Some(0i64),
        '1' => Some(1i64),
        '2' => Some(2i64),
        '3' => Some(3i64),
        '4' => Some(4i64),
        '5' => Some(5i64),
        '6' => Some(6i64),
        '7' => Some(7i64),
        '8' => Some(8i64),
        '9' => Some(9i64),
        _ => None,
    }
}

fn is_letter(c: char) -> (r: bool)
    ensures
        r == ('a' <= c && c <= 'z'),
{
    'a' <= c && c <= 'z'
}

/// The token a complete identifier stands for, if it is a documented name.
pub open spec fn spec_name_token(name: Seq<char>) -> Option<Token> {
    if name.len() == 1 {
        match name[0] {
            'x' => Some(Token::Var(Variable::X)),
            'y' => Some(Token::Var(Variable::Y)),
            'w' => Some(Token::Var(Variable::W)),
            'h' => Some(Token::Var(Variable::H)),
            'r' => Some(Token::Var(Variable::R)),
            'g' => Some(Token::Var(Variable::G)),
            'b' => Some(Token::Var(Variable::B)),
            'a' => Some(Token::Var(Variable::A)),
            _ => None,
        }
    } else if name.len() == 2 && name[0] == 's' {
        match name[1] {
            'r' => Some(Token::Var(Variable::Sr)),
            'g' => Some(Token::Var(Variable::Sg)),
            'b' => Some(Token::Var(Variable::Sb)),
            _ => None,
        }
    } else if name.len() == 3 && name[0] == 'a' && name[1] == 'b' && name[2] == 's' {
        Some(Token::Fun(Func::Abs))
    } else if name.len() == 4 && name[0] == 'r' && name[1] == 'a' && name[2] == 'n' && name[3]
        == 'd' {
        Some(Token::Var(Variable::Rand))
    } else {
        None
    }
}

fn name_token(name: &Vec<char>) -> (r: Option<Token>)
    ensures
        r == spec_name_token(name@),
{
    if name.len() == 1 {
        match name[0] {
            'x' => Some(Token::Var(Variable::X)),
            'y' => Some(Token::Var(Variable::Y)),
            'w' => Some(Token::Var(Variable::W)),
            'h' => Some(Token::Var(Variable::H)),
            'r' => Some(Token::Var(Variable::R)),
            'g' => Some(Token::Var(Variable::G)),
            'b' => Some(Token::Var(Variable::B)),
            'a' => Some(Token::Var(Variable::A)),
            _ => None,
        }
    } else if name.len() == 2 && name[0] == 's' {
        match name[1] {
            'r' => Some(Token::Var(Variable::Sr)),
            'g' => Some(Token::Var(Variable::Sg)),
            'b' => Some(Token::Var(Variable::Sb)),
            _ => None,
        }
    } else if name.len() == 3 && name[0] == 'a' && name[1] == 'b' && name[2] == 's' {
        Some(Token::Fun(Func::Abs))
    } else if name.len() == 4 && name[0] == 'r' && name[1] == 'a' && name[2] == 'n' && name[3]
        == 'd' {
        Some(Token::Var(Variable::Rand))
    } else {
        None
    }
}

/// What the lexer is doing at a character: between tokens, inside a number,
/// or inside a name.
#[derive(Clone, Copy, Debug, PartialEq, Eq, Structural)]
pub enum LexMode {
    Ready,
    Num,
    Name,
}

/// What a character means when a token may start: skipped blank, a complete
/// one-character token, the first digit of a literal, the first letter of a
/// name, or nothing the language knows.
#[derive(Clone, Copy, Debug, PartialEq, Eq, Structural)]
pub enum CharClass {
    Blank,
    Sym(Token),
    Digit(i64),
    Letter,
    Bad,
}

pub open spec fn spec_char_class(c: char) -> CharClass {
    if c == ' ' || c == '\t' {
        CharClass::Blank
    } else if c == '(' {
        CharClass::Sym(Token::Open)
    } else if c == ')' {
        CharClass::Sym(Token::Close)
    } else if c == '+' {
        CharClass::Sym(Token::Bin(BinOp::Add))
    } else if c == '-' {
        CharClass::Sym(Token::Bin(BinOp::Sub))
    } else if c == '*' {
        CharClass::Sym(Token::Bin(BinOp::Mul))
    } else if c == '/' {
        CharClass::Sym(Token::Bin(BinOp::Div))
    } else if c == '%' {
        CharClass::Sym(Token::Bin(BinOp::Rem))
    } else {
        match spec_digit_val(c) {
            Some(d) => CharClass::Digit(d),
            None => if 'a' <= c && c <= 'z' {
                CharClass::Letter
            } else {
                CharClass::Bad
            },
        }
    }
}

fn char_class(c: char) -> (r: CharClass)
    ensures
        r == spec_char_class(c),
{
    if c == ' ' || c == '\t' {
        CharClass::Blank
    } else if c == '(' {
        CharClass::Sym(Token::Open)
    } else if c == ')' {
        CharClass::Sym(Token::Close)
    } else if c == '+' {
        CharClass::Sym(Token::Bin(BinOp::Add))
    } else if c == '-' {
        CharClass::Sym(Token::Bin(BinOp::Sub))
    } else if c == '*' {
        CharClass::Sym(Token::Bin(BinOp::Mul))
    } else if c == '/' {
        CharClass::Sym(Token::Bin(BinOp::Div))
    } else if c == '%' {
        CharClass::Sym(Token::Bin(BinOp::Rem))
    } else {
        match digit_val(c) {
            Some(d) => CharClass::Digit(d),
            None => if is_letter(c) {
                CharClass::Letter
            } else {
                CharClass::Bad
            },
        }
    }
}

/// The lexer, one character per step: `m` is what the scan is inside of,
/// `val` the literal accumulated so far, `name` the identifier so far, and
/// `start` where the pending token began. A character that ends a number or
/// a name is handled in the same step, as if between tokens. This is the
/// defining meaning of lexing: `spec_lex` runs it from the start, and the
/// lexer returns exactly that.
pub open spec fn spec_lex_from(
    s: Seq<char>,
    i: int,
    m: LexMode,
    val: i64,
    name: Seq<char>,
    start: int,
    toks: Seq<Token>,
) -> Result<Seq<Token>, ParseError>
    decreases s.len() - i,
{
    if i >= s.len() {
        match m {
            LexMode::Ready => Ok(toks),
            LexMode::Num => Ok(toks.push(Token::Lit(val))),
            LexMode::Name => match spec_name_token(name) {
                Some(t) => Ok(toks.push(t)),
                None => Err(ParseError { kind: ParseErrorKind::UnknownName, pos: start as usize }),
            },
        }
    } else {
        let c = s[i];
        match m {
            LexMode::Ready => match spec_char_class(c) {
                CharClass::Blank => spec_lex_from(
                    s,
                    i + 1,
                    LexMode::Ready,
                    0,
                    Seq::empty(),
                    0,
                    toks,
                ),
                CharClass::Sym(t) => spec_lex_from(
                    s,
                    i + 1,
                    LexMode::Ready,
                    0,
                    Seq::empty(),
                    0,
                    toks.push(t),
                ),
                CharClass::Digit(d) => spec_lex_from(
                    s,
                    i + 1,
                    LexMode::Num,
                    d,
                    Seq::empty(),
                    i,
                    toks,
                ),
                CharClass::Letter => spec_lex_from(
                    s,
                    i + 1,
                    LexMode::Name,
                    0,
                    seq![c],
                    i,
                    toks,
                ),
                CharClass::Bad => Err(
                    ParseError { kind: ParseErrorKind::UnknownChar, pos: i as usize },
                ),
            },
            LexMode::Num => match spec_digit_val(c) {
                Some(d) => if val > 922_337_203_685_477_580i64 || (val
                    == 922_337_203_685_477_580i64 && d > 7) {
                    Err(ParseError { kind: ParseErrorKind::LiteralTooLarge, pos: start as usize })
                } else {
                    spec_lex_from(s, i + 1, LexMode::Num, (val * 10 + d) as i64, name, start, toks)
                },
                None => {
                    let toks2 = toks.push(Token::Lit(val));
                    match spec_char_class(c) {
                        CharClass::Blank => spec_lex_from(
                            s,
                            i + 1,
                            LexMode::Ready,
                            0,
                            Seq::empty(),
                            0,
                            toks2,
                        ),
                        CharClass::Sym(t) => spec_lex_from(
                            s,
                            i + 1,
                            LexMode::Ready,
                            0,
                            Seq::empty(),
                            0,
                            toks2.push(t),
                        ),
                        CharClass::Digit(d) => spec_lex_from(
                            s,
                            i + 1,
                            LexMode::Num,
                            d,
                            Seq::empty(),
                            i,
                            toks2,
                        ),
                        CharClass::Letter => spec_lex_from(
                            s,
                            i + 1,
                            LexMode::Name,
                            0,
                            seq![c],
                            i,
                            toks2,
                        ),
                        CharClass::Bad => Err(
                            ParseError { kind: ParseErrorKind::UnknownChar, pos: i as usize },
                        ),
                    }
                },
            },
            LexMode::Name => if 'a' <= c && c <= 'z' {
                spec_lex_from(s, i + 1, LexMode::Name, val, name.push(c), start, toks)
            } else {
                match spec_name_token(name) {
                    None => Err(
                        ParseError { kind: ParseErrorKind::UnknownName, pos: start as usize },
                    ),
                    Some(t) => {
                        let toks2 = toks.push(t);
                        match spec_char_class(c) {
                            CharClass::Blank => spec_lex_from(
                                s,
                                i + 1,
                                LexMode::Ready,
                                0,
                                Seq::empty(),
                                0,
                                toks2,
                            ),
                            CharClass::Sym(t2) => spec_lex_from(
                                s,
                                i + 1,
                                LexMode::Ready,
                                0,
                                Seq::empty(),
                                0,
                                toks2.push(t2),
                            ),
                            CharClass::Digit(d) => spec_lex_from(
                                s,
                                i + 1,
                                LexMode::Num,
                                d,
                                Seq::empty(),
                                i,
                                toks2,
                            ),
                            CharClass::Letter => spec_lex_from(
                                s,
                                i + 1,
                                LexMode::Name,
                                0,
                                seq![c],
                                i,
                                toks2,
                            ),
                            CharClass::Bad => Err(
                                ParseError { kind: ParseErrorKind::UnknownChar, pos: i as usize },
                            ),
                        }
                    },
                }
            },
        }
    }
}

/// What an expression string lexes to: the exact token sequence, or the
/// exact error and character position.
pub open spec fn spec_lex(s: Seq<char>) -> Result<Seq<Token>, ParseError> {
    spec_lex_from(s, 0, LexMode::Ready, 0, Seq::empty(), 0, Seq::empty())
}

/// Split an expression string into tokens: decimal literals, identifiers,
/// the operator and grouping characters, with blanks skipped. Returns
/// exactly `spec_lex` of the string.
fn lex(s: &str) -> (r: Result<Vec<Token>, ParseError>)
    ensures
        (match r {
            Ok(v) => spec_lex(s@) == Ok::<Seq<Token>, ParseError>(v@),
            Err(err) => spec_lex(s@) == Err::<Seq<Token>, ParseError>(err),
        }),
{
    let n = s.unicode_len();
    let mut toks: Vec<Token> = Vec::new();
    let mut mode = LexMode::Ready;
    let mut val: i64 = 0;
    let mut name: Vec<char> = Vec::new();
    let mut start: usize = 0;
    let mut i: usize = 0;
    proof {
        assert(toks@ =~= Seq::<Token>::empty());
        assert(name@ =~= Seq::<char>::empty());
    }
    while i < n
        invariant
            i <= n,
            n == s@.len(),
            0 <= val,
            mode == LexMode::Ready ==> val == 0 && name@ == Seq::<char>::empty() && start == 0,
            mode == LexMode::Num ==> name@ == Seq::<char>::empty(),
            mode == LexMode::Name ==> val == 0,
            spec_lex_from(s@, i as int, mode, val, name@, start as int, toks@) == spec_lex(s@),
        decreases n - i,
    {
        let c = s.get_char(i);
        match mode {
            LexMode::Ready => {
                match char_class(c) {
                    CharClass::Blank => {},
                    CharClass::Sym(t) => {
                        toks.push(t);
                    },
                    CharClass::Digit(d) => {
                        mode = LexMode::Num;
                        val = d;
                        start = i;
                    },
                    CharClass::Letter => {
                        mode = LexMode::Name;
                        name.push(c);
                        start = i;
                        proof {
                            assert(name@ =~= seq![c]);
                        }
                    },
                    CharClass::Bad => {
                        return Err(ParseError { kind: ParseErrorKind::UnknownChar, pos: i });
                    },
                }
            },
            LexMode::Num => {
                match digit_val(c) {
                    Some(d) => {
                        if val > 922_337_203_685_477_580i64 || (val == 922_337_203_685_477_580i64
                            && d > 7) {
                            return Err(
                                ParseError { kind: ParseErrorKind::LiteralTooLarge, pos: start },
                            );
                        }
                        val = val * 10 + d;
                    },
                    None => {
                        toks.push(Token::Lit(val));
                        match char_class(c) {
                            CharClass::Blank => {
                                mode = LexMode::Ready;
                                val = 0;
                                start = 0;
                            },
                            CharClass::Sym(t) => {
                                toks.push(t);
                                mode = LexMode::Ready;
                                val = 0;
                                start = 0;
                            },
                            CharClass::Digit(d) => {
                                val = d;
                                start = i;
                            },
                            CharClass::Letter => {
                                mode = LexMode::Name;
                                name.push(c);
                                val = 0;
                                start = i;
                                proof {
                                    assert(name@ =~= seq![c]);
                                }
                            },
                            CharClass::Bad => {
                                return Err(
                                    ParseError { kind: ParseErrorKind::UnknownChar, pos: i },
                                );
                            },
                        }
                    },
                }
            },
            LexMode::Name => {
                if is_letter(c) {
                    name.push(c);
                } else {
                    match name_token(&name) {
                        None => {
                            return Err(
                                ParseError { kind: ParseErrorKind::UnknownName, pos: start },
                            );
                        },
                        Some(t) => {
                            toks.push(t);
                            match char_class(c) {
                                CharClass::Blank => {
                                    mode = LexMode::Ready;
                                    name = Vec::new();
                                    start = 0;
                                    proof {
                                        assert(name@ =~= Seq::<char>::empty());
                                    }
                                },
                                CharClass::Sym(t2) => {
                                    toks.push(t2);
                                    mode = LexMode::Ready;
                                    name = Vec::new();
                                    start = 0;
                                    proof {
                                        assert(name@ =~= Seq::<char>::empty());
                                    }
                                },
                                CharClass::Digit(d) => {
                                    mode = LexMode::Num;
                                    name = Vec::new();
                                    val = d;
                                    start = i;
                                    proof {
                                        assert(name@ =~= Seq::<char>::empty());
                                    }
                                },
                                CharClass::Letter => {
                                    name = Vec::new();
                                    name.push(c);
                                    start = i;
                                    proof {
                                        assert(name@ =~= seq![c]);
                                    }
                                },
                                CharClass::Bad => {
                                    return Err(
                                        ParseError { kind: ParseErrorKind::UnknownChar, pos: i },
                                    );
                                },
                            }
                        },
                    }
                }
            },
        }
        i = i + 1;
    }
    match mode {
        LexMode::Ready => Ok(toks),
        LexMode::Num => {
            toks.push(Token::Lit(val));
            Ok(toks)
        },
        LexMode::Name => {
            match name_token(&name) {
                Some(t) => {
                    toks.push(t);
                    Ok(toks)
                },
                None => Err(ParseError { kind: ParseErrorKind::UnknownName, pos: start }),
            }
        },
    }
}

/// What an expression string parses to, end to end: lexing then the
/// shunting-yard rearrangement, with the exact error where either fails.
pub open spec fn spec_shunting_yard(s: Seq<char>) -> Result<Seq<Token>, ParseError> {
    match spec_lex(s) {
        Ok(ts) => spec_parse(ts),
        Err(err) => Err(err),
    }
}

/// Parse an infix expression string into an evaluation-ordered token
/// sequence. The result — the exact tokens on success, the exact error kind
/// and position on failure — is `spec_shunting_yard` of the string, which
/// fixes what every expression parses to (and so, with the evaluator's
/// semantics, what it evaluates to). On success the sequence is moreover
/// well-formed postfix: the evaluator consumes it in one pass to exactly
/// one value, never underflowing its stack and never meeting a grouping
/// marker.
pub fn shunting_yard(e: &str) -> (r: Result<Vec<Token>, ParseError>)
    ensures
        (match r {
            Ok(ts) => spec_shunting_yard(e@) == Ok::<Seq<Token>, ParseError>(ts@),
            Err(err) => spec_shunting_yard(e@) == Err::<Seq<Token>, ParseError>(err),
        }),
        r matches Ok(ts) ==> wf_rpn(ts@),
{
    match lex(e) {
        Ok(ts) => parse_tokens(&ts),
        Err(err) => Err(err),
    }
}

} // verus!