//! What drawing lights on the screen, pixel by pixel.

use crate::console::{
    abs, backspaced, char_raster, char_written, cleared, info_ok, law_line_has_no_gaps,
    law_line_joins_its_ends, lemma_pixel_byte, lemma_pixel_keeps_len, lemma_row_keeps_len,
    lemma_rows_keep_len, letter_drawn, line_drawn, line_point, line_steps, lines_filled, pixel_byte,
    pixel_set, points_lit, rect_drawn, row_set, rounded, rows_set, ConsoleView, FrameBufferInfo,
    PixelFormat,
};
use vstd::arithmetic::div_mod::lemma_fundamental_div_mod;
use vstd::prelude::*;

verus! {

/// Whether byte `b` belongs to a pixel of a region.
pub open spec fn in_region(
    info: FrameBufferInfo,
    len: nat,
    region: spec_fn(int, int) -> bool,
    b: int,
) -> bool {
    exists|p: int, q: int| region(p, q) && #[trigger] pixel_byte(info, len, p, q, b)
}

/// Whether a framebuffer has become another one by lighting the pixels of a region, and
/// nothing else.
pub open spec fn lights(
    fb: Seq<u8>,
    out: Seq<u8>,
    info: FrameBufferInfo,
    region: spec_fn(int, int) -> bool,
) -> bool {
    &&& out.len() == fb.len()
    &&& forall|b: int|
        0 <= b < fb.len() ==> #[trigger] out[b] == (if in_region(info, fb.len(), region, b) {
            255u8
        } else {
            fb[b]
        })
}

/// The columns and lines of a rectangle, or of its outline.
pub open spec fn rect_region(x: int, y: int, width: int, height: int, filled: bool) -> spec_fn(
    int,
    int,
) -> bool {
    |p: int, q: int|
        x <= p < x + width && y <= q < y + height && (filled || p == x || p == x + width - 1 || q
            == y || q == y + height - 1)
}

/// The points of a line.
pub open spec fn line_region(x0: int, y0: int, x1: int, y1: int) -> spec_fn(int, int) -> bool {
    |p: int, q: int|
        exists|k: int|
            0 <= k <= line_steps(x0, y0, x1, y1) && #[trigger] line_point(x0, y0, x1, y1, k) == (
                p,
                q,
            )
}

/// A pixel that is set has the new value in all of its bytes, and no byte of another
/// pixel changes. Its bytes begin `(y * stride + x) * bytes_per_pixel` bytes into the
/// framebuffer; there are three of them, or one in a framebuffer of grey values.
pub proof fn law_pixel_is_set(fb: Seq<u8>, info: FrameBufferInfo, x: int, y: int, v: u8, b: int)
    requires
        info_ok(info),
        0 <= x,
        0 <= y,
        0 <= b < fb.len(),
    ensures
        ({
            let off = (y * info.stride + x) * info.bytes_per_pixel;
            let n: int = match info.pixel_format {
                PixelFormat::Rgb | PixelFormat::Bgr => 3,
                PixelFormat::U8 => 1,
                PixelFormat::Unknown => 0,
            };
            let out = pixel_set(fb, info, x, y, v);
            &&& out.len() == fb.len()
            &&& out[b] == (if off + info.bytes_per_pixel <= fb.len() && off <= b < off + n {
                v
            } else {
                fb[b]
            })
        }),
{
    lemma_pixel_byte(fb, info, x, y, v, b);
    lemma_pixel_keeps_len(fb, info, x, y, v);
}

/// Two pixels of a screen have no byte in common.
pub proof fn law_pixels_are_apart(
    info: FrameBufferInfo,
    len: nat,
    p: int,
    q: int,
    x: int,
    y: int,
    b: int,
)
    requires
        info_ok(info),
        0 <= p < info.stride,
        0 <= x < info.stride,
        0 <= q,
        0 <= y,
        pixel_byte(info, len, p, q, b),
        pixel_byte(info, len, x, y, b),
    ensures
        p == x,
        q == y,
{
    let m = q * info.stride + p;
    let n = y * info.stride + x;
    let bpp = info.bytes_per_pixel as int;
    assert(m == n) by (nonlinear_arith)
        requires
            m * bpp <= b < m * bpp + bpp,
            n * bpp <= b < n * bpp + bpp,
            bpp >= 1,
    ;
    let stride = info.stride as int;
    assert(q == y) by (nonlinear_arith)
        requires
            q * stride + p == y * stride + x,
            0 <= p < stride,
            0 <= x < stride,
    ;
}

proof fn lemma_points_lit(
    fb: Seq<u8>,
    info: FrameBufferInfo,
    x0: int,
    y0: int,
    x1: int,
    y1: int,
    k: nat,
)
    requires
        info_ok(info),
        0 <= x0,
        0 <= y0,
        0 <= x1,
        0 <= y1,
        k <= line_steps(x0, y0, x1, y1) + 1,
    ensures
        points_lit(fb, info, x0, y0, x1, y1, k).len() == fb.len(),
        forall|b: int|
            0 <= b < fb.len() ==> #[trigger] points_lit(fb, info, x0, y0, x1, y1, k)[b] == (if (
            exists|i: int| 0 <= i < k && #[trigger] point_byte(info, fb.len(), x0, y0, x1, y1, i, b)) {
                255u8
            } else {
                fb[b]
            }),
    decreases k,
{
    if k > 0 {
        let before = points_lit(fb, info, x0, y0, x1, y1, (k - 1) as nat);
        let p = line_point(x0, y0, x1, y1, k - 1);
        lemma_points_lit(fb, info, x0, y0, x1, y1, (k - 1) as nat);
        lemma_point_in_box(x0, y0, x1, y1, k - 1);
        lemma_pixel_keeps_len(before, info, p.0, p.1, 255);
        assert forall|b: int| 0 <= b < fb.len() implies #[trigger] points_lit(
            fb,
            info,
            x0,
            y0,
            x1,
            y1,
            k,
        )[b] == (if (exists|i: int|
            0 <= i < k && #[trigger] point_byte(info, fb.len(), x0, y0, x1, y1, i, b)) {
            255u8
        } else {
            fb[b]
        }) by {
            lemma_pixel_byte(before, info, p.0, p.1, 255, b);
            assert(before[b] == before[b]);
            assert(point_byte(info, fb.len(), x0, y0, x1, y1, k - 1, b) == pixel_byte(
                info,
                fb.len(),
                p.0,
                p.1,
                b,
            ));
            if exists|i: int| 0 <= i < k && #[trigger] point_byte(
                info,
                fb.len(),
                x0,
                y0,
                x1,
                y1,
                i,
                b,
            ) {
                let i = choose|i: int|
                    0 <= i < k && #[trigger] point_byte(info, fb.len(), x0, y0, x1, y1, i, b);
                if i < k - 1 {
                    assert(point_byte(info, fb.len(), x0, y0, x1, y1, i, b));
                }
            }
        }
    }
}

/// Whether byte `b` belongs to point `i` of a line.
spec fn point_byte(
    info: FrameBufferInfo,
    len: nat,
    x0: int,
    y0: int,
    x1: int,
    y1: int,
    i: int,
    b: int,
) -> bool {
    let p = line_point(x0, y0, x1, y1, i);
    pixel_byte(info, len, p.0, p.1, b)
}

proof fn lemma_point_in_box(x0: int, y0: int, x1: int, y1: int, k: int)
    requires
        0 <= k <= line_steps(x0, y0, x1, y1),
    ensures
        ({
            let p = line_point(x0, y0, x1, y1, k);
            &&& x0 <= p.0 <= x1 || x1 <= p.0 <= x0
            &&& y0 <= p.1 <= y1 || y1 <= p.1 <= y0
        }),
{
    if k < line_steps(x0, y0, x1, y1) {
        law_line_has_no_gaps(x0, y0, x1, y1, k);
    } else {
        law_line_joins_its_ends(x0, y0, x1, y1);
    }
}

/// A line lights its points, and nothing else.
pub proof fn law_line_lights_its_points(
    fb: Seq<u8>,
    info: FrameBufferInfo,
    x0: int,
    y0: int,
    x1: int,
    y1: int,
)
    requires
        info_ok(info),
        0 <= x0,
        0 <= y0,
        0 <= x1,
        0 <= y1,
    ensures
        lights(fb, line_drawn(fb, info, x0, y0, x1, y1), info, line_region(x0, y0, x1, y1)),
{
    let n = line_steps(x0, y0, x1, y1);
    let region = line_region(x0, y0, x1, y1);
    let out = line_drawn(fb, info, x0, y0, x1, y1);
    lemma_points_lit(fb, info, x0, y0, x1, y1, (n + 1) as nat);
    assert forall|b: int| 0 <= b < fb.len() implies #[trigger] out[b] == (if in_region(
        info,
        fb.len(),
        region,
        b,
    ) {
        255u8
    } else {
        fb[b]
    }) by {
        if in_region(info, fb.len(), region, b) {
            let (p, q) = choose|p: int, q: int|
                region(p, q) && #[trigger] pixel_byte(info, fb.len(), p, q, b);
            let k = choose|k: int|
                0 <= k <= n && #[trigger] line_point(x0, y0, x1, y1, k) == (p, q);
            assert(point_byte(info, fb.len(), x0, y0, x1, y1, k, b));
        }
        if exists|i: int| 0 <= i < n + 1 && #[trigger] point_byte(
            info,
            fb.len(),
            x0,
            y0,
            x1,
            y1,
            i,
            b,
        ) {
            let i = choose|i: int|
                0 <= i < n + 1 && #[trigger] point_byte(info, fb.len(), x0, y0, x1, y1, i, b);
            let p = line_point(x0, y0, x1, y1, i);
            assert(region(p.0, p.1));
            assert(pixel_byte(info, fb.len(), p.0, p.1, b));
        }
    }
}

/// Point `k` of a line is `k` pixels from its start along the longer direction, and in
/// the other one no more than half a pixel off the straight line between the ends.
pub proof fn law_line_is_straight(x0: int, y0: int, x1: int, y1: int, k: int)
    requires
        0 <= k <= line_steps(x0, y0, x1, y1),
    ensures
        ({
            let p = line_point(x0, y0, x1, y1, k);
            let dx = abs(x1 - x0);
            let dy = abs(y1 - y0);
            &&& line_steps(x0, y0, x1, y1) >= dx && line_steps(x0, y0, x1, y1) >= dy
            &&& line_steps(x0, y0, x1, y1) == dx || line_steps(x0, y0, x1, y1) == dy
            &&& dx >= dy ==> abs(p.0 - x0) == k && abs(2 * (abs(p.1 - y0) * dx - k * dy)) <= dx
            &&& dx < dy ==> abs(p.1 - y0) == k && abs(2 * (abs(p.0 - x0) * dy - k * dx)) <= dy
        }),
{
    let dx = abs(x1 - x0);
    let dy = abs(y1 - y0);
    lemma_point_in_box(x0, y0, x1, y1, k);
    if k == 0 {
        assert(0 * dx == 0 && 0 * dy == 0);
    } else if dx >= dy {
        lemma_near(k * dy, dx);
        lemma_nonnegative(k, dy, dx);
    } else {
        lemma_near(k * dx, dy);
        lemma_nonnegative(k, dx, dy);
    }
}

proof fn lemma_near(m: int, d: int)
    requires
        0 < d,
    ensures
        abs(2 * (rounded(m, d) * d - m)) <= d,
{
    let q = 2 * m + d;
    let b = q / (2 * d);
    lemma_fundamental_div_mod(q, 2 * d);
    let r = q % (2 * d);
    assert((2 * d) * b == 2 * (b * d)) by (nonlinear_arith);
}

proof fn lemma_nonnegative(k: int, e: int, d: int)
    requires
        0 <= k,
        0 <= e,
        0 < d,
    ensures
        rounded(k * e, d) >= 0,
{
    let q = 2 * (k * e) + d;
    lemma_fundamental_div_mod(q, 2 * d);
    let b = q / (2 * d);
    let r = q % (2 * d);
    assert(k * e >= 0) by (nonlinear_arith)
        requires
            0 <= k,
            0 <= e,
    ;
    assert(b >= 0) by (nonlinear_arith)
        requires
            q == (2 * d) * b + r,
            q >= 0,
            0 <= r < 2 * d,
            d > 0,
    ;
}

/// The points of a horizontal line.
proof fn lemma_horizontal(x0: int, x1: int, y: int, p: int, q: int)
    requires
        x0 <= x1,
    ensures
        line_region(x0, y, x1, y)(p, q) == (x0 <= p <= x1 && q == y),
{
    let n = line_steps(x0, y, x1, y);
    assert forall|k: int| 0 <= k <= n implies #[trigger] line_point(x0, y, x1, y, k) == (
        x0 + k,
        y,
    ) by {
        if k > 0 {
            assert(k * 0 == 0);
            crate::console::lemma_rounded_zero(n);
        }
    }
    if x0 <= p <= x1 && q == y {
        assert(line_point(x0, y, x1, y, p - x0) == (p, q));
    }
}

/// The points of a vertical line.
proof fn lemma_vertical(x: int, y0: int, y1: int, p: int, q: int)
    requires
        y0 <= y1,
    ensures
        line_region(x, y0, x, y1)(p, q) == (y0 <= q <= y1 && p == x),
{
    let n = line_steps(x, y0, x, y1);
    assert forall|k: int| 0 <= k <= n implies #[trigger] line_point(x, y0, x, y1, k) == (
        x,
        y0 + k,
    ) by {
        if k > 0 {
            assert(k * 0 == 0);
            crate::console::lemma_rounded_zero(n);
        }
    }
    if y0 <= q <= y1 && p == x {
        assert(line_point(x, y0, x, y1, q - y0) == (p, q));
    }
}

/// Lighting one region after another lights both.
proof fn lemma_lights_both(
    a: Seq<u8>,
    b: Seq<u8>,
    c: Seq<u8>,
    info: FrameBufferInfo,
    r: spec_fn(int, int) -> bool,
    s: spec_fn(int, int) -> bool,
    both: spec_fn(int, int) -> bool,
)
    requires
        lights(a, b, info, r),
        lights(b, c, info, s),
        forall|p: int, q: int| #[trigger] both(p, q) == (r(p, q) || s(p, q)),
    ensures
        lights(a, c, info, both),
{
    let len = a.len();
    assert forall|i: int| 0 <= i < a.len() implies #[trigger] c[i] == (if in_region(
        info,
        len,
        both,
        i,
    ) {
        255u8
    } else {
        a[i]
    }) by {
        assert(b[i] == b[i]);
        if in_region(info, len, both, i) {
            let (p, q) = choose|p: int, q: int|
                both(p, q) && #[trigger] pixel_byte(info, len, p, q, i);
            assert(r(p, q) || s(p, q));
        } else {
            if in_region(info, len, r, i) {
                let (p, q) = choose|p: int, q: int|
                    r(p, q) && #[trigger] pixel_byte(info, len, p, q, i);
                assert(both(p, q));
            }
            if in_region(info, len, s, i) {
                let (p, q) = choose|p: int, q: int|
                    s(p, q) && #[trigger] pixel_byte(info, len, p, q, i);
                assert(both(p, q));
            }
        }
    }
}

/// A region may be described in another way.
proof fn lemma_same_region(
    a: Seq<u8>,
    b: Seq<u8>,
    info: FrameBufferInfo,
    r: spec_fn(int, int) -> bool,
    s: spec_fn(int, int) -> bool,
)
    requires
        lights(a, b, info, r),
        forall|p: int, q: int| #[trigger] r(p, q) == s(p, q),
    ensures
        lights(a, b, info, s),
{
    assert(r =~= s);
}

proof fn lemma_lines_filled(
    fb: Seq<u8>,
    info: FrameBufferInfo,
    x: int,
    y: int,
    width: int,
    k: nat,
)
    requires
        info_ok(info),
        0 <= x,
        0 <= y,
        0 < width,
    ensures
        lights(
            fb,
            lines_filled(fb, info, x, y, x + width - 1, k),
            info,
            rect_region(x, y, width, k as int, true),
        ),
    decreases k,
{
    let whole = rect_region(x, y, width, k as int, true);
    if k == 0 {
        assert forall|b: int| 0 <= b < fb.len() implies !in_region(info, fb.len(), whole, b) by {}
    } else {
        let before = lines_filled(fb, info, x, y, x + width - 1, (k - 1) as nat);
        let upper = rect_region(x, y, width, k - 1, true);
        let q = y + k - 1;
        let line = line_region(x, q, x + width - 1, q);
        lemma_lines_filled(fb, info, x, y, width, (k - 1) as nat);
        law_line_lights_its_points(before, info, x, q, x + width - 1, q);
        assert forall|a: int, b: int| #[trigger] whole(a, b) == (upper(a, b) || line(a, b)) by {
            lemma_horizontal(x, x + width - 1, q, a, b);
        }
        lemma_lights_both(
            fb,
            before,
            lines_filled(fb, info, x, y, x + width - 1, k),
            info,
            upper,
            line,
            whole,
        );
    }
}

/// The two horizontal sides, and the two vertical ones.
spec fn sides(x: int, y: int, width: int, height: int, n: int) -> spec_fn(int, int) -> bool {
    |p: int, q: int|
        {
            ||| n >= 1 && x <= p <= x + width - 1 && q == y
            ||| n >= 2 && x <= p <= x + width - 1 && q == y + height - 1
            ||| n >= 3 && y <= q <= y + height - 1 && p == x
            ||| n >= 4 && y <= q <= y + height - 1 && p == x + width - 1
        }
}

proof fn lemma_outline(
    fb: Seq<u8>,
    info: FrameBufferInfo,
    x: int,
    y: int,
    width: int,
    height: int,
)
    requires
        info_ok(info),
        0 <= x,
        0 <= y,
        0 < width,
        0 < height,
    ensures
        lights(
            fb,
            rect_drawn(fb, info, x, y, width, height, false),
            info,
            rect_region(x, y, width, height, false),
        ),
{
    let x1 = x + width - 1;
    let y1 = y + height - 1;
    let top = line_drawn(fb, info, x, y, x1, y);
    let bottom = line_drawn(top, info, x, y1, x1, y1);
    let left = line_drawn(bottom, info, x, y, x, y1);
    let right = line_drawn(left, info, x1, y, x1, y1);
    let s1 = sides(x, y, width, height, 1);
    let s2 = sides(x, y, width, height, 2);
    let s3 = sides(x, y, width, height, 3);
    let s4 = sides(x, y, width, height, 4);
    law_line_lights_its_points(fb, info, x, y, x1, y);
    law_line_lights_its_points(top, info, x, y1, x1, y1);
    law_line_lights_its_points(bottom, info, x, y, x, y1);
    law_line_lights_its_points(left, info, x1, y, x1, y1);
    assert forall|p: int, q: int| #[trigger] line_region(x, y, x1, y)(p, q) == s1(p, q) by {
        lemma_horizontal(x, x1, y, p, q);
    }
    lemma_same_region(fb, top, info, line_region(x, y, x1, y), s1);
    assert forall|p: int, q: int| #[trigger] s2(p, q) == (s1(p, q) || line_region(x, y1, x1, y1)(
        p,
        q,
    )) by {
        lemma_horizontal(x, x1, y1, p, q);
    }
    lemma_lights_both(fb, top, bottom, info, s1, line_region(x, y1, x1, y1), s2);
    assert forall|p: int, q: int| #[trigger] s3(p, q) == (s2(p, q) || line_region(x, y, x, y1)(
        p,
        q,
    )) by {
        lemma_vertical(x, y, y1, p, q);
    }
    lemma_lights_both(fb, bottom, left, info, s2, line_region(x, y, x, y1), s3);
    assert forall|p: int, q: int| #[trigger] s4(p, q) == (s3(p, q) || line_region(x1, y, x1, y1)(
        p,
        q,
    )) by {
        lemma_vertical(x1, y, y1, p, q);
    }
    lemma_lights_both(fb, left, right, info, s3, line_region(x1, y, x1, y1), s4);
    lemma_same_region(fb, right, info, s4, rect_region(x, y, width, height, false));
}

/// A rectangle lights the pixels in `width` columns from `x` on and `height` lines from
/// `y` on, or those at the edge of that area, and nothing else.
pub proof fn law_rectangle_lights_its_area(
    fb: Seq<u8>,
    info: FrameBufferInfo,
    x: int,
    y: int,
    width: int,
    height: int,
    filled: bool,
)
    requires
        info_ok(info),
        0 <= x,
        0 <= y,
        0 <= width,
        0 <= height,
    ensures
        lights(
            fb,
            rect_drawn(fb, info, x, y, width, height, filled),
            info,
            rect_region(x, y, width, height, filled),
        ),
{
    let region = rect_region(x, y, width, height, filled);
    if width == 0 || height == 0 {
        assert forall|b: int| 0 <= b < fb.len() implies !in_region(info, fb.len(), region, b) by {}
    } else if filled {
        lemma_lines_filled(fb, info, x, y, width, height as nat);
    } else {
        lemma_outline(fb, info, x, y, width, height);
    }
}

/// A pixel of the screen is lit by a rectangle that the screen's lines have room for
/// exactly when it lies in the rectangle, or on its outline. Every other pixel stays as
/// it was.
pub proof fn law_rectangle_lights_pixels(
    fb: Seq<u8>,
    info: FrameBufferInfo,
    x: int,
    y: int,
    width: int,
    height: int,
    filled: bool,
    p: int,
    q: int,
    b: int,
)
    requires
        info_ok(info),
        0 <= x,
        0 <= y,
        0 <= width,
        0 <= height,
        x + width <= info.stride,
        0 <= p < info.stride,
        0 <= q,
        0 <= b < fb.len(),
        pixel_byte(info, fb.len(), p, q, b),
    ensures
        rect_drawn(fb, info, x, y, width, height, filled)[b] == (if x <= p < x + width && y <= q < y
            + height && (filled || p == x || p == x + width - 1 || q == y || q == y + height - 1) {
            255u8
        } else {
            fb[b]
        }),
{
    let region = rect_region(x, y, width, height, filled);
    law_rectangle_lights_its_area(fb, info, x, y, width, height, filled);
    if in_region(info, fb.len(), region, b) {
        let (s, t) = choose|s: int, t: int|
            region(s, t) && #[trigger] pixel_byte(info, fb.len(), s, t, b);
        law_pixels_are_apart(info, fb.len(), p, q, s, t, b);
    } else if region(p, q) {
        assert(in_region(info, fb.len(), region, b));
    }
}

/// A row keeps what it has set.
proof fn lemma_row_values(
    fb: Seq<u8>,
    info: FrameBufferInfo,
    x: int,
    y: int,
    row: Seq<u8>,
    k: nat,
    p: int,
    q: int,
    b: int,
)
    requires
        info_ok(info),
        0 <= x,
        0 <= y,
        x + k <= info.stride,
        0 <= p < info.stride,
        0 <= q,
        0 <= b < fb.len(),
        pixel_byte(info, fb.len(), p, q, b),
    ensures
        row_set(fb, info, x, y, row, k)[b] == (if q == y && x <= p < x + k {
            row[p - x]
        } else {
            fb[b]
        }),
    decreases k,
{
    if k > 0 {
        let before = row_set(fb, info, x, y, row, (k - 1) as nat);
        lemma_row_values(fb, info, x, y, row, (k - 1) as nat, p, q, b);
        lemma_row_keeps_len(fb, info, x, y, row, (k - 1) as nat);
        lemma_pixel_byte(before, info, x + k - 1, y, row[k - 1], b);
        if pixel_byte(info, fb.len(), x + k - 1, y, b) {
            law_pixels_are_apart(info, fb.len(), p, q, x + k - 1, y, b);
        }
    }
}

proof fn lemma_rows_values(
    fb: Seq<u8>,
    info: FrameBufferInfo,
    x: int,
    y: int,
    rows: Seq<Seq<u8>>,
    k: nat,
    p: int,
    q: int,
    b: int,
)
    requires
        info_ok(info),
        0 <= x,
        0 <= y,
        x + 7 <= info.stride,
        k <= rows.len(),
        forall|i: int| 0 <= i < rows.len() ==> (#[trigger] rows[i]).len() == 7,
        0 <= p < info.stride,
        0 <= q,
        0 <= b < fb.len(),
        pixel_byte(info, fb.len(), p, q, b),
    ensures
        rows_set(fb, info, x, y, rows, k)[b] == (if y <= q < y + k && x <= p < x + 7 {
            rows[q - y][p - x]
        } else {
            fb[b]
        }),
    decreases k,
{
    if k > 0 {
        let before = rows_set(fb, info, x, y, rows, (k - 1) as nat);
        lemma_rows_values(fb, info, x, y, rows, (k - 1) as nat, p, q, b);
        lemma_rows_keep_len(fb, info, x, y, rows, (k - 1) as nat);
        lemma_row_values(before, info, x, y + k - 1, rows[k - 1], 7, p, q, b);
    }
}

/// A letter is drawn into 16 lines of 7 pixels, each with the intensity that the font
/// has there, and nothing else changes.
pub proof fn law_letter_is_drawn_with_its_raster(c: ConsoleView, ch: char, p: int, q: int, b: int)
    requires
        info_ok(c.info),
        c.x + 7 <= c.info.stride,
        0 <= p < c.info.stride,
        0 <= q,
        0 <= b < c.fb.len(),
        pixel_byte(c.info, c.fb.len(), p, q, b),
    ensures
        letter_drawn(c, ch).fb[b] == (if c.y <= q < c.y + 16 && c.x <= p < c.x + 7 {
            char_raster(ch)[q - c.y][p - c.x]
        } else {
            c.fb[b]
        }),
        letter_drawn(c, ch).x == c.x,
        letter_drawn(c, ch).y == c.y,
        letter_drawn(c, ch).info == c.info,
{
    let rows = char_raster(ch);
    lemma_rows_values(c.fb, c.info, c.x as int, c.y as int, rows, rows.len(), p, q, b);
}

/// A clear screen is dark all over and has its cursor 4 pixels from both edges.
pub proof fn law_clear_screen_is_dark(c: ConsoleView)
    ensures
        cleared(c).fb.len() == c.fb.len(),
        forall|b: int| 0 <= b < c.fb.len() ==> #[trigger] cleared(c).fb[b] == 0,
        cleared(c).x == 4,
        cleared(c).y == 4,
        cleared(c).info == c.info,
{
}

/// Where a character goes. A line feed takes the cursor to the start of a line 18 pixels
/// below, a carriage return to the start of its line. Any other character is drawn at
/// the cursor and moves it by 7 pixels. Where the line has no room for it, it goes to
/// the next one, and where the screen has no line left, to a clear screen.
pub proof fn law_characters_are_laid_out(c: ConsoleView, ch: char)
    requires
        c.x < 0x7FFF_FFFF,
        c.y < 0x7FFF_FFFF,
    ensures
        ({
            let w = char_written(c, ch);
            let wraps = c.x + 7 >= c.info.width;
            let x: int = if wraps {
                4
            } else {
                c.x as int
            };
            let y: int = if wraps {
                c.y + 18
            } else {
                c.y as int
            };
            let full = y + 20 >= c.info.height;
            &&& w.info == c.info
            &&& ch == '\n' ==> w.x == 4 && w.y == c.y + 18 && w.fb == c.fb
            &&& ch == '\r' ==> w.x == 4 && w.y == c.y && w.fb == c.fb
            &&& ch != '\n' && ch != '\r' && !full ==> w.x == x + 7 && w.y == y && w.fb
                == letter_drawn(ConsoleView { x: x as usize, y: y as usize, ..c }, ch).fb
            &&& ch != '\n' && ch != '\r' && full ==> w.x == 11 && w.y == 4 && w.fb == letter_drawn(
                cleared(c),
                ch,
            ).fb
        }),
{
}

/// Taking a character back moves the cursor 7 pixels to the left and draws a blank
/// there, as long as it does not leave the line's border.
pub proof fn law_backspace_draws_a_blank(c: ConsoleView)
    ensures
        c.x < 11 ==> backspaced(c) == c,
        c.x >= 11 ==> backspaced(c).x == c.x - 7 && backspaced(c).y == c.y && backspaced(c).fb
            == letter_drawn(ConsoleView { x: (c.x - 7) as usize, ..c }, ' ').fb,
{
}

} // verus!
