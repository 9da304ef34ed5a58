//! The tray icon: a 64 x 64 ARGB bitmap with a framed square and two traffic arrows.

use vstd::prelude::*;

verus! {

/// Width and height of the icon in pixels.
pub const ICON_SIZE: i32 = 64;

/// Number of bytes of an icon bitmap (four per pixel).
pub const ICON_BYTES: usize = 16384;

pub open spec fn in_canvas(x: int, y: int) -> bool {
    0 <= x < 64 && 0 <= y < 64
}

/// Number of the pixel at column `x`, row `y`.
pub open spec fn pixel_number(x: int, y: int) -> int {
    y * 64 + x
}

/// Index of the first byte of the pixel at `x`, `y`.
pub open spec fn pixel_index(x: int, y: int) -> int {
    pixel_number(x, y) * 4
}

/// Byte `k` belongs to the image (a pixel of the 64 x 64 canvas).
pub open spec fn in_image(k: int) -> bool {
    0 <= k < 16384
}

/// Column of the pixel that byte `k` belongs to.
pub open spec fn col_of(k: int) -> int {
    (k / 4) % 64
}

/// Row of the pixel that byte `k` belongs to.
pub open spec fn row_of(k: int) -> int {
    (k / 4) / 64
}

/// Byte `k` is one of the four bytes of the canvas pixel `x`, `y`.
pub open spec fn at_pixel(k: int, x: int, y: int) -> bool {
    in_image(k) && col_of(k) == x && row_of(k) == y
}

proof fn lemma_byte_of_pixel(k: int, q: int)
    requires
        k >= 0,
    ensures
        (k / 4 == q) <==> (4 * q <= k < 4 * q + 4),
{
    assert((k / 4 == q) <==> (4 * q <= k < 4 * q + 4)) by (nonlinear_arith)
        requires
            k >= 0,
    ;
}

proof fn lemma_pixel_coords(q: int, x: int, y: int)
    requires
        0 <= x < 64,
        0 <= y < 64,
    ensures
        (q == pixel_number(x, y)) <==> (q >= 0 && q % 64 == x && q / 64 == y),
{
    assert((q == y * 64 + x) <==> (q >= 0 && q % 64 == x && q / 64 == y)) by (nonlinear_arith)
        requires
            0 <= x < 64,
            0 <= y < 64,
    ;
}

proof fn lemma_image_coords(k: int)
    requires
        in_image(k),
    ensures
        in_canvas(col_of(k), row_of(k)),
        k / 4 == pixel_number(col_of(k), row_of(k)),
{
    assert(0 <= k / 4 < 4096) by (nonlinear_arith)
        requires
            0 <= k < 16384,
    ;
    let q = k / 4;
    assert(0 <= q % 64 < 64 && 0 <= q / 64 < 64 && q == (q / 64) * 64 + q % 64) by (nonlinear_arith)
        requires
            0 <= q < 4096,
    ;
}

/// Byte `k` is a byte of the canvas pixel `x`, `y`, stated through the pixel number.
proof fn lemma_at_pixel(k: int, x: int, y: int)
    requires
        k >= 0,
        in_canvas(x, y),
    ensures
        at_pixel(k, x, y) <==> (pixel_index(x, y) <= k < pixel_index(x, y) + 4),
{
    lemma_pixel_coords(k / 4, x, y);
    lemma_byte_of_pixel(k, pixel_number(x, y));
    if pixel_index(x, y) <= k < pixel_index(x, y) + 4 {
        assert(pixel_index(x, y) + 4 <= 16384) by (nonlinear_arith)
            requires
                0 <= x < 64,
                0 <= y < 64,
        ;
    }
    if at_pixel(k, x, y) {
        assert(k < 16384);
    }
}

/// A colour in the byte order of the bitmap: alpha, red, green, blue.
pub fn argb(a: u8, r: u8, g: u8, b: u8) -> (c: [u8; 4])
    ensures
        c@ == seq![a, r, g, b],
{
    [a, r, g, b]
}

/// Paints one pixel; pixels outside the canvas are ignored.
pub fn set_pixel(pixels: &mut [u8], x: i32, y: i32, rgba: [u8; 4])
    requires
        in_canvas(x as int, y as int) ==> pixel_index(x as int, y as int) + 4 <= old(
            pixels,
        )@.len(),
    ensures
        final(pixels)@.len() == old(pixels)@.len(),
        forall|k: int|
            0 <= k < old(pixels)@.len() ==> #[trigger] final(pixels)@[k] == if at_pixel(
                k,
                x as int,
                y as int,
            ) {
                rgba@[k % 4]
            } else {
                old(pixels)@[k]
            },
{
    if x < 0 || y < 0 || x >= ICON_SIZE || y >= ICON_SIZE {
        proof {
            assert forall|k: int| 0 <= k < old(pixels)@.len() implies !at_pixel(
                k,
                x as int,
                y as int,
            ) by {
                if at_pixel(k, x as int, y as int) {
                    lemma_image_coords(k);
                }
            }
        }
        return ;
    }
    let idx = ((y * ICON_SIZE + x) * 4) as usize;
    pixels[idx] = rgba[0];
    pixels[idx + 1] = rgba[1];
    pixels[idx + 2] = rgba[2];
    pixels[idx + 3] = rgba[3];
    proof {
        assert forall|k: int| 0 <= k < old(pixels)@.len() implies #[trigger] pixels@[k] == if at_pixel(
            k,
            x as int,
            y as int,
        ) {
            rgba@[k % 4]
        } else {
            old(pixels)@[k]
        } by {
            lemma_at_pixel(k, x as int, y as int);
        }
    }
}


/// `v` is a value of `i32`.
pub open spec fn fits_i32(v: int) -> bool {
    i32::MIN <= v <= i32::MAX
}

/// The `i32` arithmetic of the rounded-rectangle test stays in range. For a non-empty rectangle
/// it computes the corner centres `left + radius` and `top + radius`, and `right - radius`
/// (`bottom - radius`) once some point reaches `left + radius` (`top + radius`); it squares
/// `radius`, and the squared distance to the corner centre reaches `2 * radius * radius` at the
/// top-left point when `radius > 0` (it is zero otherwise). An empty rectangle computes nothing.
pub open spec fn rounded_arith_fits(left: int, top: int, right: int, bottom: int, radius: int) -> bool {
    left <= right && top <= bottom ==> {
        &&& fits_i32(left + radius)
        &&& fits_i32(top + radius)
        &&& (right >= left + radius ==> fits_i32(right - radius))
        &&& (bottom >= top + radius ==> fits_i32(bottom - radius))
        &&& fits_i32(radius * radius)
        &&& (radius > 0 ==> fits_i32(2 * radius * radius))
    }
}

/// The point `x`, `y` of the rectangle `left..=right` x `top..=bottom` lies in the rounded
/// rectangle: in one of the two bands of the rectangle without its corners, or within `radius` of
/// the nearest corner centre.
pub open spec fn rounded_inside(
    left: int,
    top: int,
    right: int,
    bottom: int,
    radius: int,
    x: int,
    y: int,
) -> bool {
    let inside_rect = (x >= left + radius && x <= right - radius && y >= top && y <= bottom) || (y
        >= top + radius && y <= bottom - radius && x >= left && x <= right);
    let cx = if x < left + radius {
        left + radius
    } else if x > right - radius {
        right - radius
    } else {
        x
    };
    let cy = if y < top + radius {
        top + radius
    } else if y > bottom - radius {
        bottom - radius
    } else {
        y
    };
    let dx = x - cx;
    let dy = y - cy;
    inside_rect || dx * dx + dy * dy <= radius * radius
}

/// The fill of the rounded rectangle writes pixel number `q` (the fill does not clip, so a point
/// left or right of the canvas lands on a neighbouring row).
pub open spec fn rounded_fill_hits(
    left: int,
    top: int,
    right: int,
    bottom: int,
    radius: int,
    q: int,
) -> bool {
    exists|x: int, y: int|
        top <= y <= bottom && left <= x <= right && rounded_inside(
            left,
            top,
            right,
            bottom,
            radius,
            x,
            y,
        ) && #[trigger] pixel_number(x, y) == q
}

/// The one-pixel frame of the rectangle (clipped to the canvas when drawn).
pub open spec fn on_outline(left: int, top: int, right: int, bottom: int, x: int, y: int) -> bool {
    (left <= x <= right && (y == top || y == bottom)) || (top <= y <= bottom && (x == left || x
        == right))
}

/// The rounded-rectangle call cannot fail: its arithmetic stays in `i32`, every filled point has
/// an `i32` byte index whose four bytes lie inside the buffer, and so has every frame point on
/// the canvas.
pub open spec fn rounded_fits(
    len: int,
    left: int,
    top: int,
    right: int,
    bottom: int,
    radius: int,
) -> bool {
    &&& rounded_arith_fits(left, top, right, bottom, radius)
    &&& forall|x: int, y: int|
        top <= y <= bottom && left <= x <= right && #[trigger] rounded_inside(
            left,
            top,
            right,
            bottom,
            radius,
            x,
            y,
        ) ==> 0 <= pixel_index(x, y) && pixel_index(x, y) + 4 <= len && fits_i32(y * 64)
            && fits_i32(pixel_index(x, y))
    &&& forall|x: int, y: int|
        in_canvas(x, y) && #[trigger] on_outline(left, top, right, bottom, x, y) ==> pixel_index(x, y)
            + 4 <= len
}

/// Byte `k` after the rounded rectangle is drawn over `old`.
pub open spec fn rounded_result(
    old: Seq<u8>,
    left: int,
    top: int,
    right: int,
    bottom: int,
    radius: int,
    fill: Seq<u8>,
    outline: Seq<u8>,
    k: int,
) -> u8 {
    if in_image(k) && on_outline(left, top, right, bottom, col_of(k), row_of(k)) {
        outline[k % 4]
    } else if rounded_fill_hits(left, top, right, bottom, radius, k / 4) {
        fill[k % 4]
    } else {
        old[k]
    }
}

/// Points of the rectangle visited by the fill before row `yc`, column `xc`.
pub open spec fn fill_visited_hits(
    left: int,
    top: int,
    right: int,
    bottom: int,
    radius: int,
    yc: int,
    xc: int,
    q: int,
) -> bool {
    exists|x: int, y: int|
        ((top <= y < yc && left <= x <= right) || (y == yc && left <= x < xc)) && rounded_inside(
            left,
            top,
            right,
            bottom,
            radius,
            x,
            y,
        ) && #[trigger] pixel_number(x, y) == q
}

fn rounded_inside_exec(
    left: i32,
    top: i32,
    right: i32,
    bottom: i32,
    radius: i32,
    x: i64,
    y: i64,
) -> (r: bool)
    requires
        rounded_arith_fits(left as int, top as int, right as int, bottom as int, radius as int),
        left <= x <= right,
        top <= y <= bottom,
    ensures
        r == rounded_inside(
            left as int,
            top as int,
            right as int,
            bottom as int,
            radius as int,
            x as int,
            y as int,
        ),
{
    let l = left as i64;
    let t = top as i64;
    let rt = right as i64;
    let b = bottom as i64;
    let rad = radius as i64;
    let inside_rect = x >= l + rad && x <= rt - rad && y >= t && y <= b || y >= t + rad && y
        <= b - rad && x >= l && x <= rt;
    let cx = if x < l + rad {
        l + rad
    } else if x > rt - rad {
        rt - rad
    } else {
        x
    };
    let cy = if y < t + rad {
        t + rad
    } else if y > b - rad {
        b - rad
    } else {
        y
    };
    let dx = x - cx;
    let dy = y - cy;
    assert(rad > 0 ==> -rad <= dx <= rad && -rad <= dy <= rad);
    assert(rad <= 0 ==> dx == 0 && dy == 0);
    assert(rad * rad <= 0x7fff_ffff);
    assert(0 <= rad * rad <= 0x7fff_ffff) by (nonlinear_arith)
        requires
            rad * rad <= 0x7fff_ffff,
    ;
    assert(0 <= dx * dx <= 0x7fff_ffff && 0 <= dy * dy <= 0x7fff_ffff && 0 <= dx * dx + dy * dy
        <= 0x7fff_ffff) by (nonlinear_arith)
        requires
            rad > 0 ==> -rad <= dx <= rad && -rad <= dy <= rad,
            rad > 0 ==> 2 * rad * rad <= 0x7fff_ffff,
            rad <= 0 ==> dx == 0 && dy == 0,
    ;
    let in_corner = dx * dx + dy * dy <= rad * rad;
    inside_rect || in_corner
}

/// Writes `fill` into the four bytes of pixel number `q` without clipping.
fn put_pixel_raw(pixels: &mut [u8], idx: usize, fill: [u8; 4])
    requires
        idx % 4 == 0,
        idx + 4 <= old(pixels)@.len(),
    ensures
        final(pixels)@.len() == old(pixels)@.len(),
        forall|k: int|
            0 <= k < old(pixels)@.len() ==> #[trigger] final(pixels)@[k] == if k / 4 == idx / 4 {
                fill@[k % 4]
            } else {
                old(pixels)@[k]
            },
{
    pixels[idx] = fill[0];
    pixels[idx + 1] = fill[1];
    pixels[idx + 2] = fill[2];
    pixels[idx + 3] = fill[3];
    proof {
        assert forall|k: int| 0 <= k < old(pixels)@.len() implies #[trigger] pixels@[k] == if k / 4
            == idx / 4 {
            fill@[k % 4]
        } else {
            old(pixels)@[k]
        } by {
            lemma_byte_of_pixel(k, (idx / 4) as int);
            assert(4 * (idx / 4) == idx);
        }
    }
}

/// Fills the rounded rectangle `left..=right` x `top..=bottom` with corner radius `radius`, then
/// draws its frame in `outline` (the frame is clipped to the canvas, the fill is not).
pub fn draw_rounded_rectangle(
    pixels: &mut [u8],
    left: i32,
    top: i32,
    right: i32,
    bottom: i32,
    radius: i32,
    fill: [u8; 4],
    outline: [u8; 4],
)
    requires
        rounded_fits(
            old(pixels)@.len() as int,
            left as int,
            top as int,
            right as int,
            bottom as int,
            radius as int,
        ),
    ensures
        final(pixels)@.len() == old(pixels)@.len(),
        forall|k: int|
            0 <= k < old(pixels)@.len() ==> #[trigger] final(pixels)@[k] == rounded_result(
                old(pixels)@,
                left as int,
                top as int,
                right as int,
                bottom as int,
                radius as int,
                fill@,
                outline@,
                k,
            ),
{
    let ghost l = left as int;
    let ghost t = top as int;
    let ghost r = right as int;
    let ghost b = bottom as int;
    let ghost rad = radius as int;
    let ghost orig = pixels@;
    let ghost len = pixels@.len();
    let mut y: i64 = top as i64;
    while y <= bottom as i64
        invariant
            rounded_fits(len as int, l, t, r, b, rad),
            l == left,
            t == top,
            r == right,
            b == bottom,
            rad == radius,
            pixels@.len() == len,
            orig.len() == len,
            top <= y,
            y <= bottom + 1 || y == top,
            forall|k: int|
                0 <= k < len ==> #[trigger] pixels@[k] == if fill_visited_hits(
                    l,
                    t,
                    r,
                    b,
                    rad,
                    y as int,
                    l,
                    k / 4,
                ) {
                    fill@[k % 4]
                } else {
                    orig[k]
                },
        decreases bottom + 1 - y,
    {
        let mut x: i64 = left as i64;
        while x <= right as i64
            invariant
                rounded_fits(len as int, l, t, r, b, rad),
                l == left,
                t == top,
                r == right,
                b == bottom,
                rad == radius,
                pixels@.len() == len,
                orig.len() == len,
                top <= y <= bottom,
                left <= x,
                x <= right + 1 || x == left,
                forall|k: int|
                    0 <= k < len ==> #[trigger] pixels@[k] == if fill_visited_hits(
                        l,
                        t,
                        r,
                        b,
                        rad,
                        y as int,
                        x as int,
                        k / 4,
                    ) {
                        fill@[k % 4]
                    } else {
                        orig[k]
                    },
            decreases right + 1 - x,
        {
            let inside = rounded_inside_exec(left, top, right, bottom, radius, x, y);
            let ghost before = pixels@;
            let ghost q0 = pixel_number(x as int, y as int);
            if inside {
                assert(0 <= pixel_index(x as int, y as int) && pixel_index(x as int, y as int) + 4
                    <= len);
                let idx: i64 = (y * 64 + x) * 4;
                let ui = idx as usize;
                assert(ui == idx);
                put_pixel_raw(pixels, ui, fill);
                assert(ui / 4 == q0);
            }
            proof {
                assert forall|k: int| 0 <= k < len implies #[trigger] pixels@[k] == if fill_visited_hits(
                    l,
                    t,
                    r,
                    b,
                    rad,
                    y as int,
                    x + 1,
                    k / 4,
                ) {
                    fill@[k % 4]
                } else {
                    orig[k]
                } by {
                    let q = k / 4;
                    if inside && q == q0 {
                        assert(pixel_number(x as int, y as int) == q);
                        assert(fill_visited_hits(l, t, r, b, rad, y as int, x + 1, q));
                    } else {
                        if fill_visited_hits(l, t, r, b, rad, y as int, x as int, q) {
                            assert(fill_visited_hits(l, t, r, b, rad, y as int, x + 1, q));
                        }
                        if fill_visited_hits(l, t, r, b, rad, y as int, x + 1, q) {
                            let (wx, wy) = choose|wx: int, wy: int|
                                ((t <= wy < y && l <= wx <= r) || (wy == y && l <= wx < x + 1))
                                    && rounded_inside(l, t, r, b, rad, wx, wy) && #[trigger] pixel_number(
                                    wx,
                                    wy,
                                ) == q;
                            if wx == x && wy == y {
                                assert(false);
                            }
                            assert(fill_visited_hits(l, t, r, b, rad, y as int, x as int, q));
                        }
                    }
                }
            }
            x = x + 1;
        }
        proof {
            assert forall|k: int| 0 <= k < len implies #[trigger] pixels@[k] == if fill_visited_hits(
                l,
                t,
                r,
                b,
                rad,
                y + 1,
                l,
                k / 4,
            ) {
                fill@[k % 4]
            } else {
                orig[k]
            } by {
                let q = k / 4;
                if fill_visited_hits(l, t, r, b, rad, y as int, r + 1, q) {
                    assert(fill_visited_hits(l, t, r, b, rad, y + 1, l, q));
                }
                if fill_visited_hits(l, t, r, b, rad, y + 1, l, q) {
                    assert(fill_visited_hits(l, t, r, b, rad, y as int, r + 1, q));
                }
            }
        }
        y = y + 1;
    }
    proof {
        assert forall|k: int| 0 <= k < len implies #[trigger] pixels@[k] == if rounded_fill_hits(
            l,
            t,
            r,
            b,
            rad,
            k / 4,
        ) {
            fill@[k % 4]
        } else {
            orig[k]
        } by {
            let q = k / 4;
            if fill_visited_hits(l, t, r, b, rad, y as int, l, q) {
                assert(rounded_fill_hits(l, t, r, b, rad, q));
            }
            if rounded_fill_hits(l, t, r, b, rad, q) {
                assert(fill_visited_hits(l, t, r, b, rad, y as int, l, q));
            }
        }
    }
    let ghost filled = pixels@;
    let mut x: i64 = left as i64;
    while x <= right as i64
        invariant
            rounded_fits(len as int, l, t, r, b, rad),
            l == left,
            t == top,
            r == right,
            b == bottom,
            pixels@.len() == len,
            filled.len() == len,
            left <= x,
                x <= right + 1 || x == left,
            forall|k: int|
                0 <= k < len ==> #[trigger] pixels@[k] == if in_image(k) && l <= col_of(k) < x
                    && (row_of(k) == t || row_of(k) == b) {
                    outline@[k % 4]
                } else {
                    filled[k]
                },
        decreases right + 1 - x,
    {
        assert(in_canvas(x as int, top as int) ==> pixel_index(x as int, top as int) + 4 <= len) by {
            assert(on_outline(l, t, r, b, x as int, t));
        }
        assert(in_canvas(x as int, bottom as int) ==> pixel_index(x as int, bottom as int) + 4
            <= len) by {
            assert(on_outline(l, t, r, b, x as int, b));
        }
        let xi = x as i32;
        assert(xi == x);
        set_pixel(pixels, xi, top, outline);
        set_pixel(pixels, xi, bottom, outline);
        x = x + 1;
    }
    let ghost rows = pixels@;
    let mut y: i64 = top as i64;
    while y <= bottom as i64
        invariant
            rounded_fits(len as int, l, t, r, b, rad),
            l == left,
            t == top,
            r == right,
            b == bottom,
            pixels@.len() == len,
            rows.len() == len,
            top <= y,
            y <= bottom + 1 || y == top,
            forall|k: int|
                0 <= k < len ==> #[trigger] pixels@[k] == if in_image(k) && t <= row_of(k) < y
                    && (col_of(k) == l || col_of(k) == r) {
                    outline@[k % 4]
                } else {
                    rows[k]
                },
        decreases bottom + 1 - y,
    {
        assert(in_canvas(left as int, y as int) ==> pixel_index(left as int, y as int) + 4 <= len) by {
            assert(on_outline(l, t, r, b, l, y as int));
        }
        assert(in_canvas(right as int, y as int) ==> pixel_index(right as int, y as int) + 4
            <= len) by {
            assert(on_outline(l, t, r, b, r, y as int));
        }
        let yi = y as i32;
        assert(yi == y);
        set_pixel(pixels, left, yi, outline);
        set_pixel(pixels, right, yi, outline);
        y = y + 1;
    }
}


/// Magnitude bound on polygon vertices within which the crossing abscissa below is also what
/// single-precision evaluation of `x1 + (y - y1) * (x2 - x1) / (y2 - y1)` rounds to: every
/// intermediate is an exact `f32`, and the rounding error of the quotient and the sum stays
/// below the distance from the exact value to the nearest rounding tie.
pub open spec fn small_vertex(p: (i32, i32)) -> bool {
    -512 <= p.0 <= 512 && -512 <= p.1 <= 512
}

pub open spec fn small_points(points: Seq<(i32, i32)>) -> bool {
    forall|i: int| 0 <= i < points.len() ==> small_vertex(#[trigger] points[i])
}

/// The `i32` differences `x2 - x1` and `y2 - y1` of the edge from `a` to `b` are in range; they
/// are only computed for an edge that is not horizontal.
pub open spec fn edge_fits(a: (i32, i32), b: (i32, i32)) -> bool {
    a.1 != b.1 ==> fits_i32(b.0 - a.0) && fits_i32(b.1 - a.1)
}

/// Every edge of the closed polygon has its differences in `i32`.
pub open spec fn edges_fit(points: Seq<(i32, i32)>) -> bool {
    forall|i: int|
        0 <= i < points.len() ==> edge_fits(
            #[trigger] points[i],
            points[(i + 1) % (points.len() as int)],
        )
}

/// Row `y` lies between the rows of two vertices.
pub open spec fn within_vertex_rows(points: Seq<(i32, i32)>, y: int) -> bool {
    exists|i: int, j: int|
        0 <= i < points.len() && 0 <= j < points.len() && (#[trigger] points[i]).1 <= y && y <= (
        #[trigger] points[j]).1
}

proof fn lemma_small_edges_fit(points: Seq<(i32, i32)>)
    requires
        small_points(points),
    ensures
        edges_fit(points),
{
    assert forall|i: int| 0 <= i < points.len() implies edge_fits(
        #[trigger] points[i],
        points[(i + 1) % (points.len() as int)],
    ) by {
        let j = (i + 1) % (points.len() as int);
        assert(0 <= j < points.len());
        assert(small_vertex(points[i]));
        assert(small_vertex(points[j]));
    }
}

/// The edge from height `y1` to height `y2` crosses scanline `y` (half-open at the upper end).
pub open spec fn edge_crosses(y1: int, y2: int, y: int) -> bool {
    (y1 <= y && y < y2) || (y2 <= y && y < y1)
}

/// `n / d` rounded to the nearest integer, halves away from zero (`d > 0`).
pub open spec fn round_div(n: int, d: int) -> int {
    if n >= 0 {
        (2 * n + d) / (2 * d)
    } else {
        -((-2 * n + d) / (2 * d))
    }
}

/// Abscissa, rounded to the nearest integer, where the edge `(x1, y1)`-`(x2, y2)` meets
/// scanline `y`.
pub open spec fn crossing_x(x1: int, y1: int, x2: int, y2: int, y: int) -> int {
    let num = x1 * (y2 - y1) + (y - y1) * (x2 - x1);
    let den = y2 - y1;
    if den > 0 {
        round_div(num, den)
    } else {
        round_div(-num, -den)
    }
}

/// Crossings of scanline `y` by the first `i` edges of the closed polygon, in edge order.
pub open spec fn crossings_upto(points: Seq<(i32, i32)>, y: int, i: nat) -> Seq<i32>
    decreases i,
{
    if i == 0 {
        Seq::empty()
    } else {
        let prev = crossings_upto(points, y, (i - 1) as nat);
        let a = points[i - 1];
        let b = points[(i as int) % (points.len() as int)];
        if edge_crosses(a.1 as int, b.1 as int, y) {
            prev.push(crossing_x(a.0 as int, a.1 as int, b.0 as int, b.1 as int, y) as i32)
        } else {
            prev
        }
    }
}

/// Crossings of scanline `y` by all edges of the closed polygon.
pub open spec fn crossings(points: Seq<(i32, i32)>, y: int) -> Seq<i32> {
    crossings_upto(points, y, points.len())
}

/// Ascending order of integers.
pub open spec fn ascending() -> spec_fn(i32, i32) -> bool {
    |a: i32, b: i32| a <= b
}

/// The `j`-th pair of `s` spans column `x`.
pub open spec fn pair_spans(s: Seq<i32>, j: int, x: int) -> bool {
    s[2 * j] <= x <= s[2 * j + 1]
}

/// Some pair of `s` (first and second, third and fourth, ...) spans column `x`.
pub open spec fn pairs_span(s: Seq<i32>, x: int) -> bool {
    exists|j: int| 0 <= j && 2 * j + 1 < s.len() && #[trigger] pair_spans(s, j, x)
}

/// The point `x`, `y` lies between the first and second, third and fourth, ... crossing of
/// scanline `y` in ascending order (even-odd filling).
pub open spec fn polygon_covers(points: Seq<(i32, i32)>, x: int, y: int) -> bool {
    pairs_span(crossings(points, y).sort_by(ascending()), x)
}

/// Filling the polygon cannot fail: the edge differences stay in `i32` and every covered canvas
/// pixel lies inside the buffer.
pub open spec fn polygon_fits(len: int, points: Seq<(i32, i32)>) -> bool {
    &&& edges_fit(points)
    &&& forall|x: int, y: int|
        in_canvas(x, y) && #[trigger] polygon_covers(points, x, y) ==> pixel_index(x, y) + 4 <= len
}

/// Sorts integers ascending. Calls `slice::sort_unstable`, which leaves the same elements in
/// ascending order; for integers that is the one sequence that `sort_by` with `<=` names.
#[verifier::external_body]
fn sort_ascending(v: &mut Vec<i32>)
    ensures
        final(v)@ == old(v)@.sort_by(ascending()),
{
    v.sort_unstable()
}

fn crossing_exec(x1: i32, y1: i32, x2: i32, y2: i32, y: i32) -> (r: i32)
    requires
        edge_crosses(y1 as int, y2 as int, y as int),
    ensures
        r == crossing_x(x1 as int, y1 as int, x2 as int, y2 as int, y as int) as i32,
{
    let dy: i128 = (y2 as i128) - (y1 as i128);
    let dx: i128 = (x2 as i128) - (x1 as i128);
    let off: i128 = (y as i128) - (y1 as i128);
    let a: i128 = x1 as i128;
    assert(-0x1_0000_0000_0000_0000 <= a * dy <= 0x1_0000_0000_0000_0000 && -0x1_0000_0000_0000_0000
        <= off * dx <= 0x1_0000_0000_0000_0000) by (nonlinear_arith)
        requires
            -0x8000_0000 <= a <= 0x8000_0000,
            -0x1_0000_0000 <= dy <= 0x1_0000_0000,
            -0x1_0000_0000 <= off <= 0x1_0000_0000,
            -0x1_0000_0000 <= dx <= 0x1_0000_0000,
    ;
    let num: i128 = a * dy + off * dx;
    let n: i128 = if dy > 0 {
        num
    } else {
        -num
    };
    let d: i128 = if dy > 0 {
        dy
    } else {
        -dy
    };
    assert(1 <= d <= 0x1_0000_0000);
    assert(-0x2_0000_0000_0000_0000 <= n <= 0x2_0000_0000_0000_0000);
    let v: i128 = if n >= 0 {
        let m: i128 = 2 * n + d;
        let dd: i128 = 2 * d;
        assert(0 <= m / dd <= m) by (nonlinear_arith)
            requires
                m >= 0,
                dd >= 2,
        ;
        m / dd
    } else {
        let m: i128 = d - 2 * n;
        let dd: i128 = 2 * d;
        assert(0 <= m / dd <= m) by (nonlinear_arith)
            requires
                m >= 0,
                dd >= 2,
        ;
        -(m / dd)
    };
    assert(v == crossing_x(x1 as int, y1 as int, x2 as int, y2 as int, y as int));
    v as i32
}

fn crossings_at(points: &[(i32, i32)], y: i32) -> (r: Vec<i32>)
    ensures
        r@ == crossings(points@, y as int),
{
    let n = points.len();
    let mut out: Vec<i32> = Vec::new();
    let mut i: usize = 0;
    while i < n
        invariant
            n == points@.len(),
            i <= n,
            out@ == crossings_upto(points@, y as int, i as nat),
        decreases n - i,
    {
        let (x1, y1) = points[i];
        let nxt = (i + 1) % n;
        let (x2, y2) = points[nxt];
        if (y1 <= y && y < y2) || (y2 <= y && y < y1) {
            let c = crossing_exec(x1, y1, x2, y2, y);
            out.push(c);
        }
        i = i + 1;
    }
    out
}

proof fn lemma_no_crossings(points: Seq<(i32, i32)>, y: int, i: nat)
    requires
        i <= points.len(),
        (forall|k: int| 0 <= k < points.len() ==> (#[trigger] points[k]).1 > y) || (forall|k: int|
            0 <= k < points.len() ==> (#[trigger] points[k]).1 <= y),
    ensures
        crossings_upto(points, y, i) == Seq::<i32>::empty(),
    decreases i,
{
    if i > 0 {
        lemma_no_crossings(points, y, (i - 1) as nat);
        let b = points[(i as int) % (points.len() as int)];
        assert(0 <= (i as int) % (points.len() as int) < points.len());
    }
}

proof fn lemma_no_cover(points: Seq<(i32, i32)>, x: int, y: int)
    requires
        (forall|k: int| 0 <= k < points.len() ==> (#[trigger] points[k]).1 > y) || (forall|k: int|
            0 <= k < points.len() ==> (#[trigger] points[k]).1 <= y),
    ensures
        !polygon_covers(points, x, y),
{
    broadcast use vstd::seq_lib::group_to_multiset_ensures;

    lemma_no_crossings(points, y, points.len());
    let e = Seq::<i32>::empty();
    assert(crossings(points, y) == e);
    e.lemma_sort_by_ensures(ascending());
    assert(e.sort_by(ascending()).to_multiset() =~= e.to_multiset());
    assert(e.to_multiset().len() == 0);
    assert(e.sort_by(ascending()).len() == 0);
}

/// A covered point lies in a row between the rows of two vertices.
proof fn lemma_cover_within_rows(points: Seq<(i32, i32)>, x: int, y: int)
    ensures
        polygon_covers(points, x, y) ==> within_vertex_rows(points, y),
{
    if !within_vertex_rows(points, y) {
        if exists|i: int| 0 <= i < points.len() && (#[trigger] points[i]).1 <= y {
            let i = choose|i: int| 0 <= i < points.len() && (#[trigger] points[i]).1 <= y;
            assert forall|k: int| 0 <= k < points.len() implies (#[trigger] points[k]).1 <= y by {
                if points[k].1 > y {
                    assert(points[i].1 <= y && y <= points[k].1);
                    assert(within_vertex_rows(points, y));
                }
            }
        }
        lemma_no_cover(points, x, y);
    }
}

/// Paints the canvas pixels of row `y` from column `x_start` to column `x_end`.
fn fill_span(pixels: &mut [u8], y: i32, x_start: i32, x_end: i32, fill: [u8; 4])
    requires
        0 <= y < 64,
        forall|x: int|
            x_start <= x <= x_end && in_canvas(x, y as int) ==> pixel_index(x, y as int) + 4 <= old(
                pixels,
            )@.len(),
    ensures
        final(pixels)@.len() == old(pixels)@.len(),
        forall|k: int|
            0 <= k < old(pixels)@.len() ==> #[trigger] final(pixels)@[k] == if in_image(k) && row_of(
                k,
            ) == y && x_start <= col_of(k) <= x_end {
                fill@[k % 4]
            } else {
                old(pixels)@[k]
            },
{
    let ghost orig = pixels@;
    let lo: i32 = if x_start > 0 {
        x_start
    } else {
        0
    };
    let hi: i32 = if x_end < 63 {
        x_end
    } else {
        63
    };
    proof {
        assert forall|k: int| 0 <= k < orig.len() implies #[trigger] pixels@[k] == if in_image(k)
            && row_of(k) == y && x_start <= col_of(k) < lo {
            fill@[k % 4]
        } else {
            orig[k]
        } by {
            if in_image(k) {
                lemma_image_coords(k);
            }
        }
    }
    let mut x = lo;
    while x <= hi
        invariant
            0 <= y < 64,
            lo == (if x_start > 0 {
                x_start
            } else {
                0
            }),
            hi == (if x_end < 63 {
                x_end
            } else {
                63
            }),
            lo <= x,
            x <= hi + 1 || x == lo,
            pixels@.len() == orig.len(),
            forall|x: int|
                x_start <= x <= x_end && in_canvas(x, y as int) ==> pixel_index(x, y as int) + 4
                    <= orig.len(),
            forall|k: int|
                0 <= k < orig.len() ==> #[trigger] pixels@[k] == if in_image(k) && row_of(k) == y
                    && x_start <= col_of(k) < x {
                    fill@[k % 4]
                } else {
                    orig[k]
                },
        decreases hi + 1 - x,
    {
        set_pixel(pixels, x, y, fill);
        x = x + 1;
    }
    proof {
        assert forall|k: int| 0 <= k < orig.len() implies #[trigger] pixels@[k] == if in_image(k)
            && row_of(k) == y && x_start <= col_of(k) <= x_end {
            fill@[k % 4]
        } else {
            orig[k]
        } by {
            if in_image(k) {
                lemma_image_coords(k);
            }
        }
    }
}

/// Paints row `y` between the first and second, third and fourth, ... value of `s`.
fn fill_scanline(pixels: &mut [u8], y: i32, s: &Vec<i32>, fill: [u8; 4])
    requires
        0 <= y < 64,
        forall|x: int|
            in_canvas(x, y as int) && #[trigger] pairs_span(s@, x) ==> pixel_index(x, y as int) + 4
                <= old(pixels)@.len(),
    ensures
        final(pixels)@.len() == old(pixels)@.len(),
        forall|k: int|
            0 <= k < old(pixels)@.len() ==> #[trigger] final(pixels)@[k] == if in_image(k) && row_of(
                k,
            ) == y && pairs_span(s@, col_of(k)) {
                fill@[k % 4]
            } else {
                old(pixels)@[k]
            },
{
    let ghost orig = pixels@;
    let n = s.len();
    let mut j: usize = 0;
    while j + 1 < n
        invariant
            0 <= y < 64,
            n == s@.len(),
            j <= n,
            j % 2 == 0,
            pixels@.len() == orig.len(),
            forall|x: int|
                in_canvas(x, y as int) && #[trigger] pairs_span(s@, x) ==> pixel_index(x, y as int)
                    + 4 <= orig.len(),
            forall|k: int|
                0 <= k < orig.len() ==> #[trigger] pixels@[k] == if in_image(k) && row_of(k) == y
                    && exists|jj: int| 0 <= jj && 2 * jj < j && #[trigger] pair_spans(s@, jj, col_of(k)) {
                    fill@[k % 4]
                } else {
                    orig[k]
                },
        decreases n - j,
    {
        let ghost jj0 = (j / 2) as int;
        assert(2 * jj0 == j);
        assert forall|x: int|
            s@[j as int] <= x <= s@[j + 1] && in_canvas(x, y as int) implies pixel_index(
            x,
            y as int,
        ) + 4 <= orig.len() by {
            assert(pair_spans(s@, jj0, x));
            assert(pairs_span(s@, x));
        }
        fill_span(pixels, y, s[j], s[j + 1], fill);
        proof {
            assert forall|k: int| 0 <= k < orig.len() implies #[trigger] pixels@[k] == if in_image(k)
                && row_of(k) == y && exists|jj: int|
                0 <= jj && 2 * jj < j + 2 && #[trigger] pair_spans(s@, jj, col_of(k)) {
                fill@[k % 4]
            } else {
                orig[k]
            } by {
                if in_image(k) && row_of(k) == y && s@[j as int] <= col_of(k) <= s@[j + 1] {
                    assert(pair_spans(s@, jj0, col_of(k)));
                }
            }
        }
        j = j + 2;
    }
    proof {
        assert forall|k: int| 0 <= k < orig.len() implies #[trigger] pixels@[k] == if in_image(k)
            && row_of(k) == y && pairs_span(s@, col_of(k)) {
            fill@[k % 4]
        } else {
            orig[k]
        } by {
            if in_image(k) && row_of(k) == y && pairs_span(s@, col_of(k)) {
                let jj = choose|jj: int|
                    0 <= jj && 2 * jj + 1 < s@.len() && #[trigger] pair_spans(s@, jj, col_of(k));
                assert(2 * jj < j);
            }
        }
    }
}

/// Fills a closed polygon with the even-odd rule, scanline by scanline over the vertex rows;
/// pixels outside the canvas are ignored. Only canvas pixels in rows between the lowest and the
/// highest vertex change, each to `fill`, so an empty polygon changes nothing. Within the vertex
/// bound of `small_points` the filled pixels are exactly the covered ones.
pub fn fill_polygon(pixels: &mut [u8], points: &[(i32, i32)], fill: [u8; 4])
    requires
        polygon_fits(old(pixels)@.len() as int, points@),
    ensures
        final(pixels)@.len() == old(pixels)@.len(),
        forall|k: int|
            0 <= k < old(pixels)@.len() ==> #[trigger] final(pixels)@[k] == old(pixels)@[k] || (
            in_image(k) && within_vertex_rows(points@, row_of(k)) && final(pixels)@[k] == fill@[k
                % 4]),
        points@.len() == 0 ==> final(pixels)@ == old(pixels)@,
        small_points(points@) ==> forall|k: int|
            0 <= k < old(pixels)@.len() ==> #[trigger] final(pixels)@[k] == if in_image(k)
                && polygon_covers(points@, col_of(k), row_of(k)) {
                fill@[k % 4]
            } else {
                old(pixels)@[k]
            },
{
    let ghost orig = pixels@;
    let n = points.len();
    let mut min_y: i32 = i32::MAX;
    let mut max_y: i32 = i32::MIN;
    let mut i: usize = 0;
    while i < n
        invariant
            n == points@.len(),
            i <= n,
            forall|k: int| 0 <= k < i ==> min_y <= (#[trigger] points@[k]).1 <= max_y,
        decreases n - i,
    {
        let p = points[i];
        if p.1 < min_y {
            min_y = p.1;
        }
        if p.1 > max_y {
            max_y = p.1;
        }
        i = i + 1;
    }
    let lo: i32 = if min_y > 0 {
        min_y
    } else {
        0
    };
    let hi: i32 = if max_y < 63 {
        max_y
    } else {
        63
    };
    proof {
        assert forall|k: int| 0 <= k < orig.len() implies #[trigger] pixels@[k] == if in_image(k)
            && row_of(k) < lo && polygon_covers(points@, col_of(k), row_of(k)) {
            fill@[k % 4]
        } else {
            orig[k]
        } by {
            if in_image(k) && row_of(k) < lo {
                lemma_image_coords(k);
                lemma_no_cover(points@, col_of(k), row_of(k));
            }
        }
    }
    let mut y = lo;
    while y <= hi
        invariant
            n == points@.len(),
            polygon_fits(orig.len() as int, points@),
            pixels@.len() == orig.len(),
            forall|k: int| 0 <= k < n ==> min_y <= (#[trigger] points@[k]).1 <= max_y,
            lo == (if min_y > 0 {
                min_y
            } else {
                0
            }),
            hi == (if max_y < 63 {
                max_y
            } else {
                63
            }),
            lo <= y,
            y <= hi + 1 || y == lo,
            forall|k: int|
                0 <= k < orig.len() ==> #[trigger] pixels@[k] == if in_image(k) && row_of(k) < y
                    && polygon_covers(points@, col_of(k), row_of(k)) {
                    fill@[k % 4]
                } else {
                    orig[k]
                },
        decreases hi + 1 - y,
    {
        let mut xs = crossings_at(points, y);
        sort_ascending(&mut xs);
        proof {
            let s = crossings(points@, y as int).sort_by(ascending());
            assert(xs@ == s);
            assert forall|x: int|
                in_canvas(x, y as int) && #[trigger] pairs_span(xs@, x) implies pixel_index(
                x,
                y as int,
            ) + 4 <= orig.len() by {
                assert(polygon_covers(points@, x, y as int));
            }
        }
        fill_scanline(pixels, y, &xs, fill);
        y = y + 1;
    }
    proof {
        assert forall|k: int| 0 <= k < orig.len() implies #[trigger] pixels@[k] == if in_image(k)
            && polygon_covers(points@, col_of(k), row_of(k)) {
            fill@[k % 4]
        } else {
            orig[k]
        } by {
            if in_image(k) && row_of(k) >= y {
                lemma_image_coords(k);
                lemma_no_cover(points@, col_of(k), row_of(k));
            }
        }
        assert forall|k: int| 0 <= k < orig.len() implies #[trigger] pixels@[k] == orig[k] || (
        in_image(k) && within_vertex_rows(points@, row_of(k)) && pixels@[k] == fill@[k % 4]) by {
            lemma_cover_within_rows(points@, col_of(k), row_of(k));
        }
        if n == 0 {
            assert(pixels@ =~= orig);
        }
    }
}


/// Vertices of the upward arrow.
pub open spec fn up_arrow() -> Seq<(i32, i32)> {
    seq![(16i32, 29i32), (28, 29), (28, 45), (35, 45), (24, 59), (12, 45), (19, 45)]
}

/// Vertices of the downward arrow.
pub open spec fn down_arrow() -> Seq<(i32, i32)> {
    seq![(48i32, 35i32), (36, 35), (36, 19), (29, 19), (40, 5), (52, 19), (45, 19)]
}

/// The point lies in one of the two arrows.
pub open spec fn arrows_cover(x: int, y: int) -> bool {
    polygon_covers(up_arrow(), x, y) || polygon_covers(down_arrow(), x, y)
}

/// Paints the upward and the downward arrow in `fill`.
pub fn draw_traffic_arrows(pixels: &mut [u8], fill: [u8; 4])
    requires
        forall|x: int, y: int|
            in_canvas(x, y) && #[trigger] arrows_cover(x, y) ==> pixel_index(x, y) + 4 <= old(
                pixels,
            )@.len(),
    ensures
        final(pixels)@.len() == old(pixels)@.len(),
        forall|k: int|
            0 <= k < old(pixels)@.len() ==> #[trigger] final(pixels)@[k] == if in_image(k)
                && arrows_cover(col_of(k), row_of(k)) {
                fill@[k % 4]
            } else {
                old(pixels)@[k]
            },
{
    let up: Vec<(i32, i32)> = vec![(16, 29), (28, 29), (28, 45), (35, 45), (24, 59), (12, 45), (19, 45)];
    let down: Vec<(i32, i32)> = vec![(48, 35), (36, 35), (36, 19), (29, 19), (40, 5), (52, 19), (45, 19)];
    proof {
        assert(up@ =~= up_arrow());
        assert(down@ =~= down_arrow());
        assert forall|i: int| 0 <= i < up@.len() implies small_vertex(#[trigger] up@[i]) by {}
        assert forall|i: int| 0 <= i < down@.len() implies small_vertex(#[trigger] down@[i]) by {}
        lemma_small_edges_fit(up@);
        lemma_small_edges_fit(down@);
        assert forall|x: int, y: int|
            in_canvas(x, y) && #[trigger] polygon_covers(up@, x, y) implies pixel_index(x, y) + 4
            <= old(pixels)@.len() by {
            assert(arrows_cover(x, y));
        }
    }
    let ghost orig = pixels@;
    fill_polygon(pixels, up.as_slice(), fill);
    proof {
        assert forall|x: int, y: int|
            in_canvas(x, y) && #[trigger] polygon_covers(down@, x, y) implies pixel_index(x, y) + 4
            <= pixels@.len() by {
            assert(arrows_cover(x, y));
        }
    }
    fill_polygon(pixels, down.as_slice(), fill);
}

/// Colour of the frame around the icon square.
pub open spec fn frame_color() -> Seq<u8> {
    seq![0xffu8, 0x48, 0x48, 0x48]
}

/// The one-pixel frame of the icon square.
pub open spec fn on_frame(x: int, y: int) -> bool {
    on_outline(5, 5, 59, 59, x, y)
}

/// Colour of pixel `x`, `y` of the icon: arrows in the foreground colour over a framed square
/// in the background colour, transparent around it.
pub open spec fn icon_color(background: Seq<u8>, foreground: Seq<u8>, x: int, y: int) -> Seq<u8> {
    if arrows_cover(x, y) {
        foreground
    } else if on_frame(x, y) {
        frame_color()
    } else if 6 <= x <= 58 && 6 <= y <= 58 {
        background
    } else {
        seq![0u8, 0, 0, 0]
    }
}

/// The square before the frame and the arrows are drawn.
pub open spec fn square_color(background: Seq<u8>, x: int, y: int) -> Seq<u8> {
    if 5 <= x <= 58 && 5 <= y <= 58 {
        background
    } else {
        seq![0u8, 0, 0, 0]
    }
}

/// The icon bitmap for the given background and foreground colours.
pub fn icon_pixels(background: [u8; 4], foreground: [u8; 4]) -> (pixels: Vec<u8>)
    ensures
        pixels@.len() == ICON_BYTES,
        forall|k: int|
            0 <= k < ICON_BYTES ==> #[trigger] pixels@[k] == icon_color(
                background@,
                foreground@,
                col_of(k),
                row_of(k),
            )[k % 4],
{
    let mut pixels: Vec<u8> = Vec::new();
    let mut y: i32 = 0;
    while y < ICON_SIZE
        invariant
            0 <= y <= 64,
            pixels@.len() == pixel_index(0, y as int),
            forall|k: int|
                0 <= k < pixels@.len() ==> #[trigger] pixels@[k] == square_color(
                    background@,
                    col_of(k),
                    row_of(k),
                )[k % 4],
        decreases 64 - y,
    {
        let mut x: i32 = 0;
        while x < ICON_SIZE
            invariant
                0 <= y < 64,
                0 <= x <= 64,
                pixels@.len() == pixel_index(x as int, y as int),
                forall|k: int|
                    0 <= k < pixels@.len() ==> #[trigger] pixels@[k] == square_color(
                        background@,
                        col_of(k),
                        row_of(k),
                    )[k % 4],
            decreases 64 - x,
        {
            let pixel = if x >= 5 && x <= 58 && y >= 5 && y <= 58 {
                background
            } else {
                [0u8, 0, 0, 0]
            };
            let ghost before = pixels@;
            pixels.push(pixel[0]);
            pixels.push(pixel[1]);
            pixels.push(pixel[2]);
            pixels.push(pixel[3]);
            proof {
                assert forall|k: int| 0 <= k < pixels@.len() implies #[trigger] pixels@[k]
                    == square_color(background@, col_of(k), row_of(k))[k % 4] by {
                    if k >= before.len() {
                        lemma_at_pixel(k, x as int, y as int);
                        assert(pixel@ == square_color(background@, x as int, y as int));
                    } else {
                        assert(pixels@[k] == before[k]);
                    }
                }
            }
            x = x + 1;
        }
        y = y + 1;
    }
    let ghost base = pixels@;
    assert(rounded_fits(16384, 5, 5, 59, 59, 14));
    let gray = argb(0xff, 0x48, 0x48, 0x48);
    draw_rounded_rectangle(pixels.as_mut_slice(), 5, 5, 59, 59, 14, background, gray);
    let ghost framed = pixels@;
    draw_traffic_arrows(pixels.as_mut_slice(), foreground);
    proof {
        assert forall|k: int| 0 <= k < ICON_BYTES implies #[trigger] pixels@[k] == icon_color(
            background@,
            foreground@,
            col_of(k),
            row_of(k),
        )[k % 4] by {
            lemma_image_coords(k);
            let x = col_of(k);
            let y = row_of(k);
            if rounded_fill_hits(5, 5, 59, 59, 14, k / 4) {
                let (wx, wy) = choose|wx: int, wy: int|
                    5 <= wy <= 59 && 5 <= wx <= 59 && rounded_inside(5, 5, 59, 59, 14, wx, wy)
                        && #[trigger] pixel_number(wx, wy) == k / 4;
                lemma_pixel_coords(k / 4, wx, wy);
                lemma_pixel_coords(k / 4, x, y);
            }
        }
    }
    pixels
}

} // verus!
