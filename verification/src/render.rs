//! The renderer: one pixel per grid point, in row-major order.

use vstd::prelude::*;
use crate::color::{color_of, encode_color};
use crate::escape::{escape_time, escapes_after, lemma_escape_time_unique};
use crate::grid::{centered, lemma_index_order, offset, pixel_index};
use crate::plane::Plane;
use crate::viewport::Viewport;

verus! {

/// Why a render request was turned down.
#[derive(Clone, Copy, Debug, PartialEq, Eq)]
pub enum RenderError {
    /// The width or the height is zero.
    InvalidDimensions,
    /// A number of the viewport is an infinity or a NaN.
    InvalidViewport,
}

/// The error that a request meets, if any. The dimensions are looked at
/// before the viewport.
pub open spec fn rejection(width: u32, height: u32, viewport: Viewport) -> Option<RenderError> {
    if width == 0 || height == 0 {
        Some(RenderError::InvalidDimensions)
    } else if !viewport.finite() {
        Some(RenderError::InvalidViewport)
    } else {
        None
    }
}

/// Checks a render request before any pixel is computed.
pub fn validate(width: u32, height: u32, viewport: &Viewport) -> (result: Result<(), RenderError>)
    ensures
        result == match rejection(width, height, *viewport) {
            Some(e) => Err::<(), RenderError>(e),
            None => Ok(()),
        },
{
    if width == 0 || height == 0 {
        Err(RenderError::InvalidDimensions)
    } else if !viewport.is_finite() {
        Err(RenderError::InvalidViewport)
    } else {
        Ok(())
    }
}

/// The four bytes of the `i`-th pixel of a buffer.
pub open spec fn pixel_at(buf: Seq<u8>, i: int) -> Seq<u8> {
    buf.subrange(4 * i, 4 * i + 4)
}

/// `px` is a colour that pixel `(x, y)` of the grid may get: the colour of an
/// escape time of a sample point of that pixel.
pub open spec fn shows<Z: Copy, P: Fn(i32, i32) -> Z, E: Fn(Z) -> bool, S: Fn(Z, Z) -> Z>(
    px: Seq<u8>,
    x: int,
    y: int,
    width: int,
    height: int,
    plane: Plane<Z, P, E, S>,
) -> bool {
    exists|c: Z, n: nat|
        call_ensures(plane.sample, (centered(x, width) as i32, centered(y, height) as i32), c)
            && #[trigger] escapes_after(n, c, plane) && px == color_of(n)
}

/// `buf` is a rendering of the grid on `plane`: four bytes for each pixel,
/// and the pixel in column `x` of row `y` at index `y * width + x`.
pub open spec fn is_rendering<Z: Copy, P: Fn(i32, i32) -> Z, E: Fn(Z) -> bool, S: Fn(Z, Z) -> Z>(
    buf: Seq<u8>,
    width: int,
    height: int,
    plane: Plane<Z, P, E, S>,
) -> bool {
    &&& buf.len() == width * height * 4
    &&& forall|x: int, y: int|
        0 <= x < width && 0 <= y < height ==> shows(
            pixel_at(buf, #[trigger] pixel_index(x, y, width)),
            x,
            y,
            width,
            height,
            plane,
        )
}

/// Appending one pixel to a buffer of whole pixels leaves the earlier pixels
/// as they were and puts the new one behind them.
proof fn lemma_append_pixel(before: Seq<u8>, after: Seq<u8>, px: Seq<u8>, count: int)
    requires
        0 <= count,
        before.len() == 4 * count,
        px.len() == 4,
        after == before + px,
    ensures
        after.len() == 4 * (count + 1),
        pixel_at(after, count) == px,
        forall|i: int| 0 <= i < count ==> #[trigger] pixel_at(after, i) == pixel_at(before, i),
{
    assert(pixel_at(after, count) =~= px);
    assert forall|i: int| 0 <= i < count implies #[trigger] pixel_at(after, i) == pixel_at(
        before,
        i,
    ) by {
        assert(pixel_at(after, i) =~= pixel_at(before, i));
    }
}

/// Renders the grid: for each pixel its sample point, the escape time of
/// that point and the colour of that time, row by row from the top and
/// within a row from the left. A request with an empty grid or a viewport
/// that is not finite is turned down before anything is computed.
pub fn render<Z: Copy, P: Fn(i32, i32) -> Z, E: Fn(Z) -> bool, S: Fn(Z, Z) -> Z>(
    width: u32,
    height: u32,
    viewport: &Viewport,
    plane: &Plane<Z, P, E, S>,
) -> (result: Result<Vec<u8>, RenderError>)
    requires
        plane.total(),
    ensures
        match result {
            Ok(buf) => rejection(width, height, *viewport).is_none() && is_rendering(
                buf@,
                width as int,
                height as int,
                *plane,
            ),
            Err(e) => rejection(width, height, *viewport) == Some(e),
        },
        width == 0 || height == 0 ==> result == Err::<Vec<u8>, RenderError>(
            RenderError::InvalidDimensions,
        ),
        result matches Ok(buf) ==> buf@.len() == width * height * 4,
{
    match validate(width, height, viewport) {
        Err(e) => {
            return Err(e);
        },
        Ok(()) => {},
    }
    let mut buf: Vec<u8> = Vec::new();
    let mut y: u32 = 0;
    while y < height
        invariant
            plane.total(),
            0 < width,
            y <= height,
            buf@.len() == 4 * pixel_index(0, y as int, width as int),
            forall|px: int, py: int|
                0 <= px < width && 0 <= py < y ==> shows(
                    pixel_at(buf@, #[trigger] pixel_index(px, py, width as int)),
                    px,
                    py,
                    width as int,
                    height as int,
                    *plane,
                ),
        decreases height - y,
    {
        let mut x: u32 = 0;
        while x < width
            invariant
                plane.total(),
                0 < width,
                x <= width,
                y < height,
                buf@.len() == 4 * pixel_index(x as int, y as int, width as int),
                forall|px: int, py: int|
                    0 <= px < width && 0 <= py && (py < y || (py == y && px < x)) ==> shows(
                        pixel_at(buf@, #[trigger] pixel_index(px, py, width as int)),
                        px,
                        py,
                        width as int,
                        height as int,
                        *plane,
                    ),
            decreases width - x,
        {
            let dx: i32 = offset(x, width);
            let dy: i32 = offset(y, height);
            let c: Z = (plane.sample)(dx, dy);
            let n: u32 = escape_time(plane, c);
            let px: [u8; 4] = encode_color(n);
            let ghost before = buf@;
            let ghost count = pixel_index(x as int, y as int, width as int);
            buf.push(px[0]);
            buf.push(px[1]);
            buf.push(px[2]);
            buf.push(px[3]);
            proof {
                lemma_index_order(0, 0, x as int + 1, y as int, width as int);
                assert(buf@ =~= before + px@);
                lemma_append_pixel(before, buf@, px@, count);
                assert(shows(px@, x as int, y as int, width as int, height as int, *plane)) by {
                    assert(escapes_after(n as nat, c, *plane));
                }
                assert forall|qx: int, qy: int|
                    0 <= qx < width && 0 <= qy && (qy < y || (qy == y && qx < x + 1)) implies shows(
                    pixel_at(buf@, #[trigger] pixel_index(qx, qy, width as int)),
                    qx,
                    qy,
                    width as int,
                    height as int,
                    *plane,
                ) by {
                    if qy == y && qx == x {
                    } else {
                        lemma_index_order(qx, qy, x as int, y as int, width as int);
                        assert(pixel_at(buf@, pixel_index(qx, qy, width as int)) == pixel_at(
                            before,
                            pixel_index(qx, qy, width as int),
                        ));
                    }
                }
            }
            x += 1;
        }
        proof {
            assert(pixel_index(width as int, y as int, width as int) == pixel_index(
                0,
                y as int + 1,
                width as int,
            )) by (nonlinear_arith);
        }
        y += 1;
    }
    proof {
        assert(4 * pixel_index(0, height as int, width as int) == width * height * 4)
            by (nonlinear_arith);
    }
    Ok(buf)
}

/// On a deterministic plane a pixel has one colour.
pub proof fn lemma_pixel_unique<Z: Copy, P: Fn(i32, i32) -> Z, E: Fn(Z) -> bool, S: Fn(Z, Z) -> Z>(
    first: Seq<u8>,
    second: Seq<u8>,
    x: int,
    y: int,
    width: int,
    height: int,
    plane: Plane<Z, P, E, S>,
)
    requires
        plane.deterministic(),
        shows(first, x, y, width, height, plane),
        shows(second, x, y, width, height, plane),
    ensures
        first == second,
{
    let (c1, n1) = choose|c: Z, n: nat|
        call_ensures(plane.sample, (centered(x, width) as i32, centered(y, height) as i32), c)
            && #[trigger] escapes_after(n, c, plane) && first == color_of(n);
    let (c2, n2) = choose|c: Z, n: nat|
        call_ensures(plane.sample, (centered(x, width) as i32, centered(y, height) as i32), c)
            && #[trigger] escapes_after(n, c, plane) && second == color_of(n);
    assert(c1 == c2);
    lemma_escape_time_unique(n1, n2, c1, plane);
}

/// Rendering is deterministic: on a deterministic plane a grid has one
/// rendering, so two calls of `render` with the same arguments return the
/// same bytes.
pub proof fn lemma_rendering_unique<Z: Copy, P: Fn(i32, i32) -> Z, E: Fn(Z) -> bool, S: Fn(Z, Z) -> Z>(
    first: Seq<u8>,
    second: Seq<u8>,
    width: int,
    height: int,
    plane: Plane<Z, P, E, S>,
)
    requires
        0 <= width,
        0 <= height,
        plane.deterministic(),
        is_rendering(first, width, height, plane),
        is_rendering(second, width, height, plane),
    ensures
        first == second,
{
    assert forall|k: int| 0 <= k < first.len() implies first[k] == second[k] by {
        let i = k / 4;
        assert(0 < width) by (nonlinear_arith)
            requires
                0 <= width,
                0 < width * height * 4,
        ;
        let x = i % width;
        let y = i / width;
        vstd::arithmetic::div_mod::lemma_fundamental_div_mod(i, width);
        assert(i == pixel_index(x, y, width)) by (nonlinear_arith)
            requires
                i == width * y + x,
        ;
        assert(y < height) by (nonlinear_arith)
            requires
                0 < width,
                0 <= x,
                width * y + x < width * height,
        ;
        lemma_pixel_unique(pixel_at(first, i), pixel_at(second, i), x, y, width, height, plane);
        assert(first[k] == pixel_at(first, i)[k - 4 * i]);
        assert(second[k] == pixel_at(second, i)[k - 4 * i]);
    }
    assert(first =~= second);
}

} // verus!
