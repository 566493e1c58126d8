//! The pixel-visiting pipeline: apply each expression, in order, to every
//! pixel inside the image's non-transparent bounds.
//!
//! One pass visits the bounded pixels in a fixed scan order — left-to-right
//! by column, top-to-bottom inside a column — because each pixel's context
//! carries the previous pixel's output (the `sr`, `sg`, `sb` variables),
//! seeded with zeroes at the start of the pass. Pixels outside the bounds
//! stay transparent black in the output. The output of one expression is the
//! input image of the next. Each pass has one random sample available per
//! pixel coordinate, drawn from the caller's generator; an expression that
//! never reads `rand` is a pure function of the image.

use vstd::prelude::*;
use vstd::pervasive::VecAdditionalExecFns;

use crate::bounds::{
    find_non_zero_bounds, has_qualifying, lemma_tight_bounds_unique, qualifies, tight_bounds,
    Bounds, BoundsError,
};
use crate::eval::{
    eval, spec_eval, spec_eval_from, spec_output_color, spec_var, EvalContext, EvalError,
};
use crate::img::{blank_pixels, blank_v, filled_transparent, Image, ImgV, Rgba};
use crate::parser::{Token, Variable};

verus! {

/// Where and why an evaluation inside a pass failed: the pixel's
/// coordinates and the fault.
#[derive(Clone, Copy, Debug, PartialEq, Eq, Structural)]
pub struct EvalFault {
    pub x: u32,
    pub y: u32,
    pub error: EvalError,
}

/// Why one pass failed: either nothing qualifies for visiting, or the
/// expression faulted on some pixel. Both are fatal to the run.
#[derive(Clone, Copy, Debug, PartialEq, Eq, Structural)]
pub enum PassError {
    Bounds(BoundsError),
    Eval(EvalFault),
}

/// Why a run failed: which expression of the list (by position) and how its
/// pass went wrong.
#[derive(Clone, Copy, Debug, PartialEq, Eq, Structural)]
pub struct RunError {
    pub expr: usize,
    pub error: PassError,
}

#[verifier::external_type_specification]
#[verifier::external_body]
pub struct ExStdRng(rand::rngs::StdRng);

/// Relies on rand::RngCore::next_u32 for rand::rngs::StdRng: advances the
/// generator and yields its next output, here truncated to one byte. Nothing
/// is assumed about the value.
#[verifier::external_body]
fn next_random_byte(rng: &mut rand::rngs::StdRng) -> u8 {
    rand::RngCore::next_u32(rng) as u8
}

/// One random byte per pixel of the coming pass.
fn draw_randoms(rng: &mut rand::rngs::StdRng, count: usize) -> (r: Vec<u8>)
    ensures
        r@.len() == count,
{
    let mut v: Vec<u8> = Vec::new();
    let mut i: usize = 0;
    while i < count
        invariant
            i <= count,
            v@.len() == i,
        decreases count - i,
    {
        let b = next_random_byte(rng);
        v.push(b);
        i = i + 1;
    }
    v
}

/// The context one pixel is evaluated in: the image's size, the pixel's
/// color and position, the carried state, and the pixel's random sample.
pub open spec fn spec_ctx(
    img: ImgV,
    rands: Seq<u8>,
    x: int,
    y: int,
    carried: (u8, u8, u8),
) -> EvalContext {
    EvalContext {
        size: (img.width as u32, img.height as u32),
        rgba: img.pix(x, y),
        saved_rgb: carried,
        position: (x as u32, y as u32),
        rand: rands[y * img.width + x],
    }
}

/// The meaning of the scan loop: visit the bounded pixels from `(x, y)` on,
/// in scan order, threading the carried state, writing each result into
/// `out`; stop at the first evaluation fault.
pub open spec fn pass_pixels(
    img: ImgV,
    ts: Seq<Token>,
    rands: Seq<u8>,
    b: Bounds,
    x: int,
    y: int,
    carried: (u8, u8, u8),
    out: Seq<Rgba>,
) -> Result<Seq<Rgba>, EvalFault>
    decreases b.max_x - x, b.max_y - y,
{
    if !(b.min_x <= x <= b.max_x && b.min_y <= y <= b.max_y && b.min_y < b.max_y) {
        Ok(out)
    } else if x == b.max_x {
        Ok(out)
    } else if y == b.max_y {
        pass_pixels(img, ts, rands, b, x + 1, b.min_y as int, carried, out)
    } else {
        let ctx = spec_ctx(img, rands, x, y, carried);
        match spec_eval(ts, ctx) {
            Err(e) => Err(EvalFault { x: x as u32, y: y as u32, error: e }),
            Ok(v) => {
                let c = spec_output_color(v, ctx);
                pass_pixels(
                    img,
                    ts,
                    rands,
                    b,
                    x,
                    y + 1,
                    (c.r, c.g, c.b),
                    out.update(y * img.width + x, c),
                )
            },
        }
    }
}

/// The meaning of one whole pass of one expression over one image, given the
/// pass's random tape: the tight bounds are computed, the bounded pixels are
/// visited over a fresh transparent buffer, and the carried state starts at
/// zero.
pub open spec fn spec_pass(img: ImgV, ts: Seq<Token>, rands: Seq<u8>) -> Result<ImgV, PassError> {
    if !has_qualifying(img) {
        Err(PassError::Bounds(BoundsError::NoQualifyingPixels))
    } else {
        let b = choose|bb: Bounds| tight_bounds(img, bb);
        match pass_pixels(
            img,
            ts,
            rands,
            b,
            b.min_x as int,
            b.min_y as int,
            (0u8, 0u8, 0u8),
            blank_pixels(img.width, img.height),
        ) {
            Ok(px) => Ok(ImgV { width: img.width, height: img.height, pixels: px }),
            Err(e) => Err(PassError::Eval(e)),
        }
    }
}

/// At the tight bounds, which are unique, the image has qualifying pixels
/// and `spec_pass` is the scan from the rectangle's corner.
proof fn lemma_spec_pass_at(img: ImgV, b: Bounds)
    requires
        tight_bounds(img, b),
    ensures
        has_qualifying(img),
        (choose|bb: Bounds| tight_bounds(img, bb)) == b,
{
    let (wx, wy) = choose|x: int, y: int|
        0 <= x < img.width && 0 <= y < img.height && #[trigger] qualifies(img, x, y) && x
            == b.min_x;
    assert(qualifies(img, wx, wy));
    assert(has_qualifying(img));
    assert(exists|bb: Bounds| tight_bounds(img, bb));
    let bc = choose|bb: Bounds| tight_bounds(img, bb);
    lemma_tight_bounds_unique(img, b, bc);
}

/// A faulted scan makes the whole pass fault.
proof fn lemma_spec_pass_err(img: ImgV, ts: Seq<Token>, rands: Seq<u8>, b: Bounds, e: EvalFault)
    requires
        tight_bounds(img, b),
        pass_pixels(
            img,
            ts,
            rands,
            b,
            b.min_x as int,
            b.min_y as int,
            (0u8, 0u8, 0u8),
            blank_pixels(img.width, img.height),
        ) == Err::<Seq<Rgba>, EvalFault>(e),
    ensures
        spec_pass(img, ts, rands) == Err::<ImgV, PassError>(PassError::Eval(e)),
{
    lemma_spec_pass_at(img, b);
}

/// A completed scan makes the whole pass succeed with the scanned buffer.
proof fn lemma_spec_pass_ok(img: ImgV, ts: Seq<Token>, rands: Seq<u8>, b: Bounds, px: Seq<Rgba>)
    requires
        tight_bounds(img, b),
        pass_pixels(
            img,
            ts,
            rands,
            b,
            b.min_x as int,
            b.min_y as int,
            (0u8, 0u8, 0u8),
            blank_pixels(img.width, img.height),
        ) == Ok::<Seq<Rgba>, EvalFault>(px),
    ensures
        spec_pass(img, ts, rands) == Ok::<ImgV, PassError>(
            ImgV { width: img.width, height: img.height, pixels: px },
        ),
{
    lemma_spec_pass_at(img, b);
}

/// Apply one parsed expression to an image, with one random sample per pixel
/// supplied as a tape: exactly the pass semantics `spec_pass`.
pub fn apply_expression(img: &Image, tokens: &Vec<Token>, rands: &Vec<u8>) -> (r: Result<
    Image,
    PassError,
>)
    requires
        img.wf(),
        rands@.len() == img@.pixels.len(),
    ensures
        (match r {
            Ok(out) => out.wf() && out@.width == img@.width && out@.height == img@.height
                && spec_pass(img@, tokens@, rands@) == Ok::<ImgV, PassError>(out@),
            Err(e) => spec_pass(img@, tokens@, rands@) == Err::<ImgV, PassError>(e),
        }),
{
    let b = match find_non_zero_bounds(img) {
        Ok(b) => b,
        Err(e) => {
            proof {
                assert(e == BoundsError::NoQualifyingPixels);
            }
            return Err(PassError::Bounds(e));
        },
    };
    let plen = img.pixels.len();
    let mut px = filled_transparent(plen);
    proof {
        assert(px@ =~= blank_pixels(img@.width, img@.height));
    }
    let ghost goal = pass_pixels(
        img@,
        tokens@,
        rands@,
        b,
        b.min_x as int,
        b.min_y as int,
        (0u8, 0u8, 0u8),
        blank_pixels(img@.width, img@.height),
    );
    let mut sr: u8 = 0;
    let mut sg: u8 = 0;
    let mut sb: u8 = 0;
    let mut x = b.min_x;
    while x < b.max_x
        invariant
            img.wf(),
            rands@.len() == img@.pixels.len(),
            plen == img@.pixels.len(),
            tight_bounds(img@, b),
            goal == pass_pixels(
                img@,
                tokens@,
                rands@,
                b,
                b.min_x as int,
                b.min_y as int,
                (0u8, 0u8, 0u8),
                blank_pixels(img@.width, img@.height),
            ),
            b.min_x <= x <= b.max_x,
            px@.len() == img@.pixels.len(),
            pass_pixels(
                img@,
                tokens@,
                rands@,
                b,
                x as int,
                b.min_y as int,
                (sr, sg, sb),
                px@,
            ) == goal,
        decreases b.max_x - x,
    {
        let mut y = b.min_y;
        while y < b.max_y
            invariant
                img.wf(),
                rands@.len() == img@.pixels.len(),
                plen == img@.pixels.len(),
                tight_bounds(img@, b),
                goal == pass_pixels(
                    img@,
                    tokens@,
                    rands@,
                    b,
                    b.min_x as int,
                    b.min_y as int,
                    (0u8, 0u8, 0u8),
                    blank_pixels(img@.width, img@.height),
                ),
                b.min_x <= x < b.max_x,
                b.min_y <= y <= b.max_y,
                px@.len() == img@.pixels.len(),
                pass_pixels(img@, tokens@, rands@, b, x as int, y as int, (sr, sg, sb), px@)
                    == goal,
            decreases b.max_y - y,
        {
            proof {
                Image::lemma_index_bound(x as int, y as int, img@.width, img@.height);
            }
            let idx: usize = (y as usize) * (img.width as usize) + (x as usize);
            let colors = img.get_pixel(x, y);
            let rv = rands[idx];
            let ctx = EvalContext {
                size: (img.width, img.height),
                rgba: colors,
                saved_rgb: (sr, sg, sb),
                position: (x, y),
                rand: rv,
            };
            proof {
                assert(ctx == spec_ctx(img@, rands@, x as int, y as int, (sr, sg, sb)));
            }
            let result = match eval(tokens, &ctx) {
                Ok(c) => c,
                Err(e) => {
                    let fault = EvalFault { x, y, error: e };
                    proof {
                        assert(pass_pixels(
                            img@,
                            tokens@,
                            rands@,
                            b,
                            x as int,
                            y as int,
                            (sr, sg, sb),
                            px@,
                        ) == Err::<Seq<Rgba>, EvalFault>(fault));
                        assert(goal == Err::<Seq<Rgba>, EvalFault>(fault));
                        lemma_spec_pass_err(img@, tokens@, rands@, b, fault);
                    }
                    return Err(PassError::Eval(fault));
                },
            };
            sr = result.r;
            sg = result.g;
            sb = result.b;
            px.set(idx, result);
            y = y + 1;
        }
        x = x + 1;
    }
    proof {
        assert(goal == Ok::<Seq<Rgba>, EvalFault>(px@));
        lemma_spec_pass_ok(img@, tokens@, rands@, b, px@);
    }
    let out = Image { width: img.width, height: img.height, pixels: px };
    proof {
        assert(out@ =~= ImgV { width: img@.width, height: img@.height, pixels: px@ });
        assert(spec_pass(img@, tokens@, rands@) == Ok::<ImgV, PassError>(out@));
    }
    Ok(out)
}

/// The parsed expressions as mathematical sequences.
pub open spec fn views_of(exprs: Seq<Vec<Token>>) -> Seq<Seq<Token>> {
    exprs.map_values(|v: Vec<Token>| v@)
}

/// A run result as a mathematical value.
pub open spec fn res_view(r: Result<Image, RunError>) -> Result<ImgV, RunError> {
    match r {
        Ok(i) => Ok(i@),
        Err(e) => Err(e),
    }
}

/// `res` is the outcome of running the expression list over `img` when the
/// pass over each expression draws its random bytes from the matching tape:
/// the passes chain left to right, each over the previous output, and the
/// result is the last pass's output, or the error of the first pass that
/// fails, naming that expression's position `k` in the original list and,
/// for an evaluation fault, the pixel. With no expressions the run yields a
/// fresh transparent image of the input's size.
pub open spec fn process_steps(
    img: ImgV,
    exprs: Seq<Seq<Token>>,
    tapes: Seq<Seq<u8>>,
    k: int,
    res: Result<ImgV, RunError>,
) -> bool
    decreases exprs.len(),
{
    if exprs.len() == 0 {
        res == Ok::<ImgV, RunError>(blank_v(img.width, img.height))
    } else {
        &&& tapes.len() > 0
        &&& tapes[0].len() == img.pixels.len()
        &&& match spec_pass(img, exprs[0], tapes[0]) {
            Err(e) => res == Err::<ImgV, RunError>(RunError { expr: k as usize, error: e }),
            Ok(img2) => if exprs.len() == 1 {
                res == Ok::<ImgV, RunError>(img2)
            } else {
                process_steps(img2, exprs.drop_first(), tapes.drop_first(), k + 1, res)
            },
        }
    }
}

/// `process_steps`, under a name quantifiers can trigger on.
pub open spec fn steps_ok(
    img: ImgV,
    exprs: Seq<Seq<Token>>,
    tapes: Seq<Seq<u8>>,
    k: int,
    res: Result<ImgV, RunError>,
) -> bool {
    process_steps(img, exprs, tapes, k, res)
}

/// `res` is a possible outcome of the tail of a run whose earlier `k`
/// expressions already went through: some choice of random tapes, one byte
/// per pixel per pass, chains the remaining passes to `res`.
pub open spec fn process_from(
    img: ImgV,
    exprs: Seq<Seq<Token>>,
    k: int,
    res: Result<ImgV, RunError>,
) -> bool {
    exists|tapes: Seq<Seq<u8>>| #[trigger] steps_ok(img, exprs, tapes, k, res)
}

/// `res` is a possible outcome of running the expression list over `img`:
/// some choice of random tapes, one byte per pixel per pass, chains the
/// passes to `res`.
pub open spec fn process_can(
    img: ImgV,
    exprs: Seq<Seq<Token>>,
    res: Result<ImgV, RunError>,
) -> bool {
    process_from(img, exprs, 0, res)
}

/// A base index other than the true one changes only which position a run
/// error names, so a successful outcome holds under every base.
proof fn lemma_steps_base_ok(
    img: ImgV,
    exprs: Seq<Seq<Token>>,
    tapes: Seq<Seq<u8>>,
    k1: int,
    k2: int,
    res: Result<ImgV, RunError>,
)
    requires
        process_steps(img, exprs, tapes, k1, res),
        res is Ok,
    ensures
        process_steps(img, exprs, tapes, k2, res),
    decreases exprs.len(),
{
    if exprs.len() > 0 {
        match spec_pass(img, exprs[0], tapes[0]) {
            Err(_) => {},
            Ok(img2) => {
                if exprs.len() > 1 {
                    lemma_steps_base_ok(img2, exprs.drop_first(), tapes.drop_first(), k1 + 1, k2
                        + 1, res);
                }
            },
        }
    }
}

/// Run every expression, in the order given, each over the previous one's
/// output; the result is the last pass's output image, or the first failing
/// pass's error, naming the expression's position and, for an evaluation
/// fault, the pixel. Randomness is drawn from `rng`, one byte per pixel per
/// pass.
pub fn process(img: &Image, expressions: &Vec<Vec<Token>>, rng: &mut rand::rngs::StdRng) -> (r:
    Result<Image, RunError>)
    requires
        img.wf(),
    ensures
        process_can(img@, views_of(expressions@), res_view(r)),
        r matches Ok(out) ==> out.wf() && out@.width == img@.width && out@.height == img@.height,
{
    let ghost views = views_of(expressions@);
    let mut current = img.duplicate();
    let total = current.pixels.len();
    let blank_buf = filled_transparent(total);
    let mut out = Image { width: img.width, height: img.height, pixels: blank_buf };
    proof {
        assert(out@.pixels =~= blank_v(img@.width, img@.height).pixels);
        assert(out@ =~= blank_v(img@.width, img@.height));
    }
    let n = expressions.len();
    let mut k: usize = 0;
    proof {
        assert(views.skip(0) =~= views);
    }
    while k < n
        invariant
            n == expressions@.len(),
            k <= n,
            views == views_of(expressions@),
            img.wf(),
            current.wf(),
            current@.width == img@.width,
            current@.height == img@.height,
            out.wf(),
            out@.width == img@.width,
            out@.height == img@.height,
            k == 0 ==> current@ == img@,
            k == 0 ==> out@ == blank_v(img@.width, img@.height),
            0 < k < n ==> current@ == out@,
            k < n ==> (forall|res: Result<ImgV, RunError>|
                #[trigger] process_from(current@, views.skip(k as int), k as int, res)
                    ==> process_can(img@, views, res)),
            k == n && n > 0 ==> process_can(img@, views, Ok(out@)),
        decreases n - k,
    {
        let rands = draw_randoms(rng, current.pixels.len());
        proof {
            assert(views.skip(k as int)[0] == views[k as int]);
            assert(views[k as int] == expressions@[k as int]@);
            assert(views.skip(k as int).drop_first() =~= views.skip(k as int + 1));
        }
        match apply_expression(&current, &expressions[k], &rands) {
            Ok(next) => {
                proof {
                    assert(spec_pass(current@, views[k as int], rands@) == Ok::<ImgV, PassError>(
                        next@,
                    ));
                    if k + 1 == n {
                        let t = seq![rands@];
                        assert(t[0] == rands@);
                        assert(process_steps(current@, views.skip(k as int), t, k as int, Ok::<
                            ImgV,
                            RunError,
                        >(next@)));
                        assert(steps_ok(current@, views.skip(k as int), t, k as int, Ok::<
                            ImgV,
                            RunError,
                        >(next@)));
                        assert(process_from(current@, views.skip(k as int), k as int, Ok::<
                            ImgV,
                            RunError,
                        >(next@)));
                        assert(process_can(img@, views, Ok::<ImgV, RunError>(next@)));
                    } else {
                        assert forall|res: Result<ImgV, RunError>|
                            #[trigger] process_from(next@, views.skip(k as int + 1), k as int + 1, res)
                            implies process_can(img@, views, res) by {
                            let t2 = choose|tapes: Seq<Seq<u8>>|
                                #[trigger] steps_ok(
                                    next@,
                                    views.skip(k as int + 1),
                                    tapes,
                                    k as int + 1,
                                    res,
                                );
                            assert(process_steps(
                                next@,
                                views.skip(k as int + 1),
                                t2,
                                k as int + 1,
                                res,
                            ));
                            let t = seq![rands@] + t2;
                            assert(t[0] == rands@);
                            assert(t.drop_first() =~= t2);
                            assert(process_steps(current@, views.skip(k as int), t, k as int, res));
                            assert(steps_ok(current@, views.skip(k as int), t, k as int, res));
                            assert(process_from(current@, views.skip(k as int), k as int, res));
                        }
                    }
                }
                out = next;
                current = out.duplicate();
            },
            Err(e) => {
                let failed = RunError { expr: k, error: e };
                proof {
                    assert(spec_pass(current@, views[k as int], rands@) == Err::<ImgV, PassError>(
                        e,
                    ));
                    let t = seq![rands@];
                    assert(t[0] == rands@);
                    assert(process_steps(current@, views.skip(k as int), t, k as int, Err::<
                        ImgV,
                        RunError,
                    >(failed)));
                    assert(steps_ok(current@, views.skip(k as int), t, k as int, Err::<
                        ImgV,
                        RunError,
                    >(failed)));
                    assert(process_from(current@, views.skip(k as int), k as int, Err::<
                        ImgV,
                        RunError,
                    >(failed)));
                }
                return Err(failed);
            },
        }
        k = k + 1;
    }
    proof {
        if n == 0 {
            let t = Seq::<Seq<u8>>::empty();
            assert(process_steps(img@, views, t, 0, Ok::<ImgV, RunError>(out@)));
            assert(steps_ok(img@, views, t, 0, Ok::<ImgV, RunError>(out@)));
            assert(process_can(img@, views, Ok::<ImgV, RunError>(out@)));
        }
    }
    Ok(out)
}

/// The expression reads the random sample.
pub open spec fn uses_rand(ts: Seq<Token>) -> bool {
    exists|i: int| 0 <= i < ts.len() && ts[i] == Token::Var(Variable::Rand)
}

/// Two contexts that agree on everything but the random sample.
pub open spec fn ctx_eq_except_rand(c1: EvalContext, c2: EvalContext) -> bool {
    c1.size == c2.size && c1.rgba == c2.rgba && c1.saved_rgb == c2.saved_rgb && c1.position
        == c2.position
}

proof fn lemma_eval_rand_free(ts: Seq<Token>, c1: EvalContext, c2: EvalContext, st: Seq<i64>)
    requires
        !uses_rand(ts),
        ctx_eq_except_rand(c1, c2),
    ensures
        spec_eval_from(ts, c1, st) == spec_eval_from(ts, c2, st),
    decreases ts.len(),
{
    if ts.len() > 0 {
        assert(!uses_rand(ts.drop_first())) by {
            if uses_rand(ts.drop_first()) {
                let i = choose|i: int|
                    0 <= i < ts.drop_first().len() && ts.drop_first()[i] == Token::Var(
                        Variable::Rand,
                    );
                assert(ts[i + 1] == Token::Var(Variable::Rand));
            }
        }
        match ts[0] {
            Token::Lit(v) => {
                lemma_eval_rand_free(ts.drop_first(), c1, c2, st.push(v));
            },
            Token::Var(v) => {
                assert(v != Variable::Rand) by {
                    if v == Variable::Rand {
                        assert(ts[0] == Token::Var(Variable::Rand));
                    }
                }
                assert(spec_var(v, c1) == spec_var(v, c2));
                lemma_eval_rand_free(ts.drop_first(), c1, c2, st.push(spec_var(v, c1)));
            },
            Token::Neg => {
                if st.len() >= 1 {
                    match crate::eval::spec_neg(st.last()) {
                        Ok(v) => {
                            lemma_eval_rand_free(ts.drop_first(), c1, c2, st.drop_last().push(v));
                        },
                        Err(_) => {},
                    }
                }
            },
            Token::Fun(f) => {
                if st.len() >= 1 {
                    match (match f {
                        crate::parser::Func::Abs => crate::eval::spec_abs(st.last()),
                    }) {
                        Ok(v) => {
                            lemma_eval_rand_free(ts.drop_first(), c1, c2, st.drop_last().push(v));
                        },
                        Err(_) => {},
                    }
                }
            },
            Token::Bin(op) => {
                if st.len() >= 2 {
                    match crate::eval::spec_bin(op, st[st.len() - 2], st.last()) {
                        Ok(v) => {
                            lemma_eval_rand_free(
                                ts.drop_first(),
                                c1,
                                c2,
                                st.drop_last().drop_last().push(v),
                            );
                        },
                        Err(_) => {},
                    }
                }
            },
            Token::Open => {},
            Token::Close => {},
        }
    }
}

proof fn lemma_pass_pixels_rand_free(
    img: ImgV,
    ts: Seq<Token>,
    r1: Seq<u8>,
    r2: Seq<u8>,
    b: Bounds,
    x: int,
    y: int,
    carried: (u8, u8, u8),
    out: Seq<Rgba>,
)
    requires
        !uses_rand(ts),
    ensures
        pass_pixels(img, ts, r1, b, x, y, carried, out) == pass_pixels(
            img,
            ts,
            r2,
            b,
            x,
            y,
            carried,
            out,
        ),
    decreases b.max_x - x, b.max_y - y,
{
    if !(b.min_x <= x <= b.max_x && b.min_y <= y <= b.max_y && b.min_y < b.max_y) {
    } else if x == b.max_x {
    } else if y == b.max_y {
        lemma_pass_pixels_rand_free(img, ts, r1, r2, b, x + 1, b.min_y as int, carried, out);
    } else {
        let ctx1 = spec_ctx(img, r1, x, y, carried);
        let ctx2 = spec_ctx(img, r2, x, y, carried);
        assert(ctx_eq_except_rand(ctx1, ctx2));
        lemma_eval_rand_free(ts, ctx1, ctx2, Seq::empty());
        match spec_eval(ts, ctx1) {
            Err(_) => {},
            Ok(v) => {
                let c = spec_output_color(v, ctx1);
                assert(spec_output_color(v, ctx2) == c);
                lemma_pass_pixels_rand_free(
                    img,
                    ts,
                    r1,
                    r2,
                    b,
                    x,
                    y + 1,
                    (c.r, c.g, c.b),
                    out.update(y * img.width + x, c),
                );
            },
        }
    }
}

proof fn lemma_spec_pass_rand_free(img: ImgV, ts: Seq<Token>, r1: Seq<u8>, r2: Seq<u8>)
    requires
        !uses_rand(ts),
    ensures
        spec_pass(img, ts, r1) == spec_pass(img, ts, r2),
{
    if has_qualifying(img) {
        let b = choose|bb: Bounds| tight_bounds(img, bb);
        lemma_pass_pixels_rand_free(
            img,
            ts,
            r1,
            r2,
            b,
            b.min_x as int,
            b.min_y as int,
            (0u8, 0u8, 0u8),
            blank_pixels(img.width, img.height),
        );
    }
}

/// Law (determinism): a run whose expressions never read the random sample
/// has exactly one possible outcome — re-running the same expression list
/// against the same image gives the identical result, whatever random tapes
/// the runs drew.
pub proof fn lemma_process_deterministic(
    img: ImgV,
    exprs: Seq<Seq<Token>>,
    r1: Result<ImgV, RunError>,
    r2: Result<ImgV, RunError>,
)
    requires
        forall|i: int| 0 <= i < exprs.len() ==> !uses_rand(#[trigger] exprs[i]),
        process_can(img, exprs, r1),
        process_can(img, exprs, r2),
    ensures
        r1 == r2,
{
    let ta = choose|tapes: Seq<Seq<u8>>| #[trigger] steps_ok(img, exprs, tapes, 0, r1);
    let tb = choose|tapes: Seq<Seq<u8>>| #[trigger] steps_ok(img, exprs, tapes, 0, r2);
    lemma_steps_deterministic(img, exprs, ta, tb, 0, r1, r2);
}

proof fn lemma_steps_deterministic(
    img: ImgV,
    exprs: Seq<Seq<Token>>,
    ta: Seq<Seq<u8>>,
    tb: Seq<Seq<u8>>,
    k: int,
    r1: Result<ImgV, RunError>,
    r2: Result<ImgV, RunError>,
)
    requires
        forall|i: int| 0 <= i < exprs.len() ==> !uses_rand(#[trigger] exprs[i]),
        process_steps(img, exprs, ta, k, r1),
        process_steps(img, exprs, tb, k, r2),
    ensures
        r1 == r2,
    decreases exprs.len(),
{
    if exprs.len() > 0 {
        assert(!uses_rand(exprs[0]));
        lemma_spec_pass_rand_free(img, exprs[0], ta[0], tb[0]);
        match spec_pass(img, exprs[0], ta[0]) {
            Err(_) => {},
            Ok(img2) => {
                if exprs.len() > 1 {
                    assert forall|i: int| 0 <= i < exprs.drop_first().len() implies !uses_rand(
                        #[trigger] exprs.drop_first()[i],
                    ) by {
                        assert(exprs.drop_first()[i] == exprs[i + 1]);
                    }
                    lemma_steps_deterministic(
                        img2,
                        exprs.drop_first(),
                        ta.drop_first(),
                        tb.drop_first(),
                        k + 1,
                        r1,
                        r2,
                    );
                }
            },
        }
    }
}

/// Law (chaining, composition): if one pass of `a` can take the image to
/// `mid`, and running `b` over `mid` can succeed with `res`, then running
/// the list `a` then `b` over the image can yield `res`.
pub proof fn lemma_chaining_compose(
    img: ImgV,
    a: Seq<Token>,
    b: Seq<Token>,
    mid: ImgV,
    res: Result<ImgV, RunError>,
)
    requires
        process_can(img, seq![a], Ok(mid)),
        process_can(mid, seq![b], res),
        res is Ok,
    ensures
        process_can(img, seq![a, b], res),
{
    let sa = seq![a];
    let sb = seq![b];
    let sab = seq![a, b];
    let ta = choose|tapes: Seq<Seq<u8>>| #[trigger] steps_ok(img, sa, tapes, 0, Ok(mid));
    let tb = choose|tapes: Seq<Seq<u8>>| #[trigger] steps_ok(mid, sb, tapes, 0, res);
    assert(process_steps(img, sa, ta, 0, Ok(mid)));
    assert(process_steps(mid, sb, tb, 0, res));
    lemma_steps_base_ok(mid, sb, tb, 0, 1, res);
    assert(sa[0] == a);
    assert(sab[0] == a);
    assert(spec_pass(img, a, ta[0]) == Ok::<ImgV, PassError>(mid));
    let t = seq![ta[0]] + tb;
    assert(t[0] == ta[0]);
    assert(t.drop_first() =~= tb);
    assert(sab.drop_first() =~= sb);
    assert(process_steps(img, sab, t, 0, res));
    assert(steps_ok(img, sab, t, 0, res));
    assert(process_can(img, sab, res));
}

/// Law (chaining, decomposition): a successful run of the two-expression
/// list `a` then `b` factors through an intermediate image: the first pass
/// can produce it, and running `b` over it can yield the final result.
pub proof fn lemma_chaining_split(
    img: ImgV,
    a: Seq<Token>,
    b: Seq<Token>,
    res: Result<ImgV, RunError>,
)
    requires
        process_can(img, seq![a, b], res),
        res is Ok,
    ensures
        exists|mid: ImgV|
            #[trigger] process_can(img, seq![a], Ok(mid)) && process_can(mid, seq![b], res),
{
    let sa = seq![a];
    let sb = seq![b];
    let sab = seq![a, b];
    let t = choose|tapes: Seq<Seq<u8>>| #[trigger] steps_ok(img, sab, tapes, 0, res);
    assert(process_steps(img, sab, t, 0, res));
    assert(sab[0] == a);
    assert(sab.drop_first() =~= sb);
    match spec_pass(img, a, t[0]) {
        Err(_) => {
            assert(false);
        },
        Ok(m) => {
            assert(process_steps(m, sb, t.drop_first(), 1, res));
            lemma_steps_base_ok(m, sb, t.drop_first(), 1, 0, res);
            assert(steps_ok(m, sb, t.drop_first(), 0, res));
            assert(process_can(m, sb, res));
            let t1 = seq![t[0]];
            assert(t1[0] == t[0]);
            assert(sa[0] == a);
            assert(process_steps(img, sa, t1, 0, Ok::<ImgV, RunError>(m)));
            assert(steps_ok(img, sa, t1, 0, Ok::<ImgV, RunError>(m)));
            assert(process_can(img, sa, Ok::<ImgV, RunError>(m)));
        },
    }
}

} // verus!
