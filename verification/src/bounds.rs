//! The bounds finder: the smallest rectangle of pixels worth visiting.
//!
//! A pixel qualifies when its alpha channel is non-zero. The finder returns
//! the tightest half-open rectangle containing every qualifying pixel, and
//! an error — not a silent empty rectangle — when no pixel qualifies.

use vstd::prelude::*;

use crate::img::{Image, ImgV};

verus! {

/// The half-open pixel rectangle `[min_x, max_x) x [min_y, max_y)` a pass
/// visits.
#[derive(Clone, Copy, Debug, PartialEq, Eq, Structural)]
pub struct Bounds {
    pub min_x: u32,
    pub max_x: u32,
    pub min_y: u32,
    pub max_y: u32,
}

impl Bounds {
    pub fn min_x(&self) -> (r: u32)
        ensures
            r == self.min_x,
    {
        self.min_x
    }

    pub fn max_x(&self) -> (r: u32)
        ensures
            r == self.max_x,
    {
        self.max_x
    }

    pub fn min_y(&self) -> (r: u32)
        ensures
            r == self.min_y,
    {
        self.min_y
    }

    pub fn max_y(&self) -> (r: u32)
        ensures
            r == self.max_y,
    {
        self.max_y
    }
}

/// No pixel of the image has non-zero alpha, so there is nothing to visit.
#[derive(Clone, Copy, Debug, PartialEq, Eq, Structural)]
pub enum BoundsError {
    NoQualifyingPixels,
}

/// A pixel worth visiting: not fully transparent.
pub open spec fn qualifies(img: ImgV, x: int, y: int) -> bool {
    img.pix(x, y).a != 0
}

/// Some pixel of the image qualifies.
pub open spec fn has_qualifying(img: ImgV) -> bool {
    exists|x: int, y: int|
        0 <= x < img.width && 0 <= y < img.height && #[trigger] qualifies(img, x, y)
}

/// `b` is the tightest rectangle around the qualifying pixels: it lies in
/// the image, contains them all, and touches a qualifying pixel on each of
/// its four edges.
pub open spec fn tight_bounds(img: ImgV, b: Bounds) -> bool {
    &&& b.min_x < b.max_x <= img.width
    &&& b.min_y < b.max_y <= img.height
    &&& forall|x: int, y: int|
        0 <= x < img.width && 0 <= y < img.height && #[trigger] qualifies(img, x, y) ==> b.min_x
            <= x < b.max_x && b.min_y <= y < b.max_y
    &&& exists|x: int, y: int|
        0 <= x < img.width && 0 <= y < img.height && #[trigger] qualifies(img, x, y) && x
            == b.min_x
    &&& exists|x: int, y: int|
        0 <= x < img.width && 0 <= y < img.height && #[trigger] qualifies(img, x, y) && x + 1
            == b.max_x
    &&& exists|x: int, y: int|
        0 <= x < img.width && 0 <= y < img.height && #[trigger] qualifies(img, x, y) && y
            == b.min_y
    &&& exists|x: int, y: int|
        0 <= x < img.width && 0 <= y < img.height && #[trigger] qualifies(img, x, y) && y + 1
            == b.max_y
}

/// The tightest rectangle is unique.
pub proof fn lemma_tight_bounds_unique(img: ImgV, b1: Bounds, b2: Bounds)
    requires
        tight_bounds(img, b1),
        tight_bounds(img, b2),
    ensures
        b1 == b2,
{
}

/// Pixel `(x, y)` was scanned before position `(cx, cy)` in row-major order.
pub open spec fn scanned_before(x: int, y: int, cx: int, cy: int) -> bool {
    y < cy || (y == cy && x < cx)
}

/// Scan the image for the tightest rectangle around the pixels with non-zero
/// alpha. Returns that rectangle, or an error when every pixel is fully
/// transparent.
pub fn find_non_zero_bounds(img: &Image) -> (r: Result<Bounds, BoundsError>)
    requires
        img.wf(),
    ensures
        (match r {
            Ok(b) => tight_bounds(img@, b),
            Err(_) => !has_qualifying(img@),
        }),
{
    let w = img.width;
    let h = img.height;
    let mut found = false;
    let mut minx: u32 = 0;
    let mut maxx: u32 = 0;
    let mut miny: u32 = 0;
    let mut maxy: u32 = 0;
    let mut y: u32 = 0;
    while y < h
        invariant
            img.wf(),
            w == img.width,
            h == img.height,
            y <= h,
            !found ==> forall|px: int, py: int|
                0 <= px < w && 0 <= py < h && scanned_before(px, py, 0, y as int) ==> !(
                #[trigger] qualifies(img@, px, py)),
            found ==> {
                &&& minx < maxx <= w
                &&& miny < maxy <= h
                &&& maxy <= y
                &&& forall|px: int, py: int|
                    0 <= px < w && 0 <= py < h && scanned_before(px, py, 0, y as int) && #[trigger] qualifies(
                        img@,
                        px,
                        py,
                    ) ==> minx <= px < maxx && miny <= py < maxy
                &&& exists|px: int, py: int|
                    0 <= px < w && 0 <= py < h && #[trigger] qualifies(img@, px, py) && px
                        == minx
                &&& exists|px: int, py: int|
                    0 <= px < w && 0 <= py < h && #[trigger] qualifies(img@, px, py) && px + 1
                        == maxx
                &&& exists|px: int, py: int|
                    0 <= px < w && 0 <= py < h && #[trigger] qualifies(img@, px, py) && py
                        == miny
                &&& exists|px: int, py: int|
                    0 <= px < w && 0 <= py < h && #[trigger] qualifies(img@, px, py) && py + 1
                        == maxy
            },
        decreases h - y,
    {
        let mut x: u32 = 0;
        while x < w
            invariant
                img.wf(),
                w == img.width,
                h == img.height,
                y < h,
                x <= w,
                !found ==> forall|px: int, py: int|
                    0 <= px < w && 0 <= py < h && scanned_before(px, py, x as int, y as int) ==> !(
                    #[trigger] qualifies(img@, px, py)),
                found ==> {
                    &&& minx < maxx <= w
                    &&& miny < maxy <= h
                    &&& maxy <= y + 1
                    &&& forall|px: int, py: int|
                        0 <= px < w && 0 <= py < h && scanned_before(px, py, x as int, y as int)
                            && #[trigger] qualifies(img@, px, py) ==> minx <= px < maxx && miny
                            <= py < maxy
                    &&& exists|px: int, py: int|
                        0 <= px < w && 0 <= py < h && #[trigger] qualifies(img@, px, py) && px
                            == minx
                    &&& exists|px: int, py: int|
                        0 <= px < w && 0 <= py < h && #[trigger] qualifies(img@, px, py) && px + 1
                            == maxx
                    &&& exists|px: int, py: int|
                        0 <= px < w && 0 <= py < h && #[trigger] qualifies(img@, px, py) && py
                            == miny
                    &&& exists|px: int, py: int|
                        0 <= px < w && 0 <= py < h && #[trigger] qualifies(img@, px, py) && py + 1
                            == maxy
                },
            decreases w - x,
        {
            let p = img.get_pixel(x, y);
            if p.a != 0 {
                proof {
                    assert(qualifies(img@, x as int, y as int));
                }
                if !found {
                    found = true;
                    minx = x;
                    maxx = x + 1;
                    miny = y;
                    maxy = y + 1;
                } else {
                    if x < minx {
                        minx = x;
                    }
                    if x + 1 > maxx {
                        maxx = x + 1;
                    }
                    if y + 1 > maxy {
                        maxy = y + 1;
                    }
                }
            }
            x = x + 1;
        }
        y = y + 1;
    }
    if found {
        Ok(Bounds { min_x: minx, max_x: maxx, min_y: miny, max_y: maxy })
    } else {
        Err(BoundsError::NoQualifyingPixels)
    }
}

} // verus!
