//! An expression engine for an image-effects pipeline: an infix arithmetic
//! expression is parsed into an evaluation-ordered token sequence
//! (shunting-yard), and that sequence is evaluated once per pixel by a stack
//! machine over a per-pixel context (position, image size, current color,
//! carried-over previous result, and a random sample). A bounds finder
//! restricts the pixels a pass visits to the rectangle of non-transparent
//! content, and the pipeline chains one expression's output image into the
//! next expression's input.

pub mod bounds;
pub mod eval;
pub mod format;
pub mod img;
pub mod parser;
pub mod pipeline;
