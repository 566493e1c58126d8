use imgexpr::bounds::{find_non_zero_bounds, Bounds, BoundsError};
use imgexpr::eval::{eval, EvalContext, EvalError};
use imgexpr::img::{Image, Rgba};
use imgexpr::parser::{shunting_yard, ParseErrorKind, Token};
use imgexpr::pipeline::{apply_expression, process, EvalFault, PassError, RunError};
use rand::SeedableRng;

fn ctx_plain() -> EvalContext {
    EvalContext {
        size: (4, 4),
        rgba: Rgba { r: 0, g: 0, b: 0, a: 255 },
        saved_rgb: (0, 0, 0),
        position: (0, 0),
        rand: 0,
    }
}

fn eval_str(e: &str, ctx: &EvalContext) -> Result<Rgba, EvalError> {
    let tokens = shunting_yard(e).expect("expression should parse");
    eval(&tokens, ctx)
}

fn gray(e: &str) -> u8 {
    eval_str(e, &ctx_plain()).expect("expression should evaluate").r
}

fn image_of(width: u32, height: u32, pixels: Vec<Rgba>) -> Image {
    assert_eq!(pixels.len(), (width * height) as usize);
    Image { width, height, pixels }
}

fn clear() -> Rgba {
    Rgba { r: 0, g: 0, b: 0, a: 0 }
}

#[test]
fn precedence_mul_binds_tighter() {
    assert_eq!(gray("1+2*3"), 7);
    assert_eq!(gray("(1+2)*3"), 9);
}

#[test]
fn precedence_left_associative() {
    assert_eq!(gray("10-3-2"), 5);
    assert_eq!(gray("20/2/5"), 2);
    assert_eq!(gray("7%3"), 1);
    assert_eq!(gray("7/2"), 3);
}

#[test]
fn unary_minus_and_abs() {
    assert_eq!(gray("-3*-2"), 6);
    assert_eq!(gray("abs(0-5)"), 5);
    assert_eq!(gray("abs(5)"), 5);
    // A negative result clamps to zero, a large one to 255.
    assert_eq!(gray("0-5"), 0);
    assert_eq!(gray("300"), 255);
}

#[test]
fn malformed_unmatched_paren() {
    let r = shunting_yard("(1+2");
    assert_eq!(r.unwrap_err().kind, ParseErrorKind::UnmatchedParen);
}

#[test]
fn malformed_missing_operand() {
    let r = shunting_yard("1+");
    assert_eq!(r.unwrap_err().kind, ParseErrorKind::MissingOperand);
    let r = shunting_yard("");
    assert_eq!(r.unwrap_err().kind, ParseErrorKind::MissingOperand);
    let r = shunting_yard("1+*2");
    assert_eq!(r.unwrap_err().kind, ParseErrorKind::MissingOperand);
}

#[test]
fn malformed_missing_operator() {
    let r = shunting_yard("1 2");
    assert_eq!(r.unwrap_err().kind, ParseErrorKind::MissingOperator);
}

#[test]
fn malformed_names_and_chars() {
    assert_eq!(shunting_yard("foo").unwrap_err().kind, ParseErrorKind::UnknownName);
    let err = shunting_yard("1$2").unwrap_err();
    assert_eq!(err.kind, ParseErrorKind::UnknownChar);
    assert_eq!(err.pos, 1);
}

#[test]
fn literal_bounds() {
    // The largest 64-bit literal parses; one past it does not.
    assert!(shunting_yard("9223372036854775807").is_ok());
    let r = shunting_yard("9223372036854775808");
    assert_eq!(r.unwrap_err().kind, ParseErrorKind::LiteralTooLarge);
}

#[test]
fn eval_numeric_faults() {
    assert_eq!(eval_str("1/0", &ctx_plain()).unwrap_err(), EvalError::DivisionByZero);
    assert_eq!(eval_str("1%0", &ctx_plain()).unwrap_err(), EvalError::DivisionByZero);
    assert_eq!(
        eval_str("9223372036854775807+1", &ctx_plain()).unwrap_err(),
        EvalError::Overflow
    );
}

#[test]
fn eval_rejects_raw_grouping_tokens() {
    // A sequence that never went through the parser may hold grouping
    // markers; the evaluator reports them as a stack-shape fault.
    let tokens = vec![Token::Open];
    assert_eq!(eval(&tokens, &ctx_plain()).unwrap_err(), EvalError::UnexpectedGrouping);
    let underflow = vec![imgexpr::parser::Token::Bin(imgexpr::parser::BinOp::Add)];
    assert_eq!(eval(&underflow, &ctx_plain()).unwrap_err(), EvalError::StackUnderflow);
    let empty: Vec<Token> = vec![];
    assert_eq!(eval(&empty, &ctx_plain()).unwrap_err(), EvalError::StackNotSingleton);
}

#[test]
fn variables_resolve_from_context() {
    let ctx = EvalContext {
        size: (7, 9),
        rgba: Rgba { r: 10, g: 20, b: 30, a: 250 },
        saved_rgb: (1, 2, 3),
        position: (4, 5),
        rand: 77,
    };
    assert_eq!(eval_str("x", &ctx).unwrap().r, 4);
    assert_eq!(eval_str("y", &ctx).unwrap().r, 5);
    assert_eq!(eval_str("w", &ctx).unwrap().r, 7);
    assert_eq!(eval_str("h", &ctx).unwrap().r, 9);
    assert_eq!(eval_str("r", &ctx).unwrap().r, 10);
    assert_eq!(eval_str("g", &ctx).unwrap().r, 20);
    assert_eq!(eval_str("b", &ctx).unwrap().r, 30);
    assert_eq!(eval_str("a", &ctx).unwrap().r, 250);
    assert_eq!(eval_str("sr", &ctx).unwrap().r, 1);
    assert_eq!(eval_str("sg", &ctx).unwrap().r, 2);
    assert_eq!(eval_str("sb", &ctx).unwrap().r, 3);
    assert_eq!(eval_str("rand", &ctx).unwrap().r, 77);
    // The output's alpha is carried over from the input pixel.
    assert_eq!(eval_str("1", &ctx).unwrap().a, 250);
}

#[test]
fn variable_resolution_in_image() {
    // A 4x4 image whose only visible pixel, at (2, 2), is RGBA (10, 20, 30, 255):
    // "r+1" makes its red channel 11.
    let mut pixels = vec![clear(); 16];
    pixels[2 * 4 + 2] = Rgba { r: 10, g: 20, b: 30, a: 255 };
    let img = image_of(4, 4, pixels);
    let tokens = shunting_yard("r+1").unwrap();
    let rands = vec![0u8; 16];
    let out = apply_expression(&img, &tokens, &rands).unwrap();
    assert_eq!(out.pixels[2 * 4 + 2], Rgba { r: 11, g: 11, b: 11, a: 255 });
    // Pixels outside the bounds stay transparent black.
    assert_eq!(out.pixels[0], clear());
}

#[test]
fn carried_state_follows_scan_order() {
    // "sr+1" over a visible row: the carried state starts at zero, so the
    // outputs count 1, 2, 3, 4 along the scan order.
    let pixels = vec![Rgba { r: 9, g: 9, b: 9, a: 255 }; 4];
    let img = image_of(4, 1, pixels);
    let tokens = shunting_yard("sr+1").unwrap();
    let rands = vec![0u8; 4];
    let out = apply_expression(&img, &tokens, &rands).unwrap();
    for x in 0..4usize {
        assert_eq!(out.pixels[x].r, (x + 1) as u8);
    }
}

#[test]
fn bounds_tight_around_single_pixel() {
    let mut pixels = vec![clear(); 9];
    pixels[1 * 3 + 1] = Rgba { r: 0, g: 0, b: 0, a: 1 };
    let img = image_of(3, 3, pixels);
    let b = find_non_zero_bounds(&img).unwrap();
    assert_eq!(b, Bounds { min_x: 1, max_x: 2, min_y: 1, max_y: 2 });
    assert_eq!(b.min_x(), 1);
    assert_eq!(b.max_x(), 2);
    assert_eq!(b.min_y(), 1);
    assert_eq!(b.max_y(), 2);
}

#[test]
fn bounds_of_blank_image_is_an_error() {
    let img = image_of(3, 3, vec![clear(); 9]);
    assert_eq!(find_non_zero_bounds(&img).unwrap_err(), BoundsError::NoQualifyingPixels);
}

#[test]
fn bounds_span_scattered_pixels() {
    let mut pixels = vec![clear(); 20];
    pixels[0 * 5 + 1] = Rgba { r: 1, g: 1, b: 1, a: 255 };
    pixels[3 * 5 + 3] = Rgba { r: 1, g: 1, b: 1, a: 255 };
    let img = image_of(5, 4, pixels);
    let b = find_non_zero_bounds(&img).unwrap();
    assert_eq!(b, Bounds { min_x: 1, max_x: 4, min_y: 0, max_y: 4 });
}

#[test]
fn process_same_seed_same_output() {
    // The same expression list, image, and seed give byte-identical output,
    // even when the expression reads the random sample.
    let pixels = vec![Rgba { r: 3, g: 5, b: 7, a: 255 }; 4];
    let img = image_of(2, 2, pixels);
    let exprs = vec![shunting_yard("rand%100+r").unwrap()];
    let mut rng1 = rand::rngs::StdRng::seed_from_u64(42);
    let out1 = process(&img, &exprs, &mut rng1).unwrap();
    let mut rng2 = rand::rngs::StdRng::seed_from_u64(42);
    let out2 = process(&img, &exprs, &mut rng2).unwrap();
    assert_eq!(out1.pixels, out2.pixels);
}

#[test]
fn process_chains_passes() {
    // Applying ["r+1", "g+1"] equals applying "r+1", then "g+1" to that
    // result — not to the original image.
    let pixels = vec![
        Rgba { r: 1, g: 2, b: 3, a: 255 },
        Rgba { r: 4, g: 5, b: 6, a: 255 },
        Rgba { r: 7, g: 8, b: 9, a: 255 },
        Rgba { r: 10, g: 11, b: 12, a: 255 },
    ];
    let img = image_of(2, 2, pixels);
    let e1 = shunting_yard("r+1").unwrap();
    let e2 = shunting_yard("g+1").unwrap();

    let mut rng = rand::rngs::StdRng::seed_from_u64(0);
    let both = process(&img, &vec![e1.clone(), e2.clone()], &mut rng).unwrap();

    let mut rng = rand::rngs::StdRng::seed_from_u64(0);
    let first = process(&img, &vec![e1], &mut rng).unwrap();
    let second = process(&first, &vec![e2], &mut rng).unwrap();

    assert_eq!(both.pixels, second.pixels);
    // "r+1" over the first pixel: gray 2; then "g+1" over that: gray 3.
    assert_eq!(both.pixels[0], Rgba { r: 3, g: 3, b: 3, a: 255 });
}

#[test]
fn process_without_expressions_yields_blank() {
    let pixels = vec![Rgba { r: 1, g: 2, b: 3, a: 255 }; 4];
    let img = image_of(2, 2, pixels);
    let mut rng = rand::rngs::StdRng::seed_from_u64(0);
    let out = process(&img, &vec![], &mut rng).unwrap();
    assert_eq!(out.width, 2);
    assert_eq!(out.height, 2);
    assert_eq!(out.pixels, vec![clear(); 4]);
}

#[test]
fn process_blank_image_reports_bounds_error() {
    let img = image_of(2, 2, vec![clear(); 4]);
    let exprs = vec![shunting_yard("r+1").unwrap()];
    let mut rng = rand::rngs::StdRng::seed_from_u64(0);
    let r = process(&img, &exprs, &mut rng);
    assert_eq!(
        r.unwrap_err(),
        RunError { expr: 0, error: PassError::Bounds(BoundsError::NoQualifyingPixels) }
    );
}

#[test]
fn process_surfaces_eval_fault_with_context() {
    // The first visited pixel of the first expression divides by zero: the
    // error names expression 0 and pixel (0, 0).
    let pixels = vec![Rgba { r: 1, g: 2, b: 3, a: 255 }; 4];
    let img = image_of(2, 2, pixels);
    let exprs = vec![shunting_yard("1/(r-1)").unwrap()];
    let mut rng = rand::rngs::StdRng::seed_from_u64(0);
    let r = process(&img, &exprs, &mut rng);
    assert_eq!(
        r.unwrap_err(),
        RunError {
            expr: 0,
            error: PassError::Eval(EvalFault { x: 0, y: 0, error: EvalError::DivisionByZero }),
        }
    );
}

#[test]
fn process_names_the_failing_expression() {
    // The second expression of the list is the one that faults.
    let pixels = vec![Rgba { r: 1, g: 2, b: 3, a: 255 }; 4];
    let img = image_of(2, 2, pixels);
    let exprs = vec![shunting_yard("r+1").unwrap(), shunting_yard("1/0").unwrap()];
    let mut rng = rand::rngs::StdRng::seed_from_u64(0);
    let r = process(&img, &exprs, &mut rng);
    assert_eq!(
        r.unwrap_err(),
        RunError {
            expr: 1,
            error: PassError::Eval(EvalFault { x: 0, y: 0, error: EvalError::DivisionByZero }),
        }
    );
}

#[test]
fn parsed_sequences_have_no_grouping_markers() {
    let tokens = shunting_yard("abs((1+2)*(3-4))").unwrap();
    for t in &tokens {
        assert!(!matches!(t, Token::Open));
        assert!(!matches!(t, Token::Close));
    }
    assert_eq!(eval(&tokens, &ctx_plain()).unwrap().r, 3);
}
