//! Drawing into a frame buffer of packed pixels, row by row.

use vstd::prelude::*;

verus! {

/// The pixel with the given channels: alpha in the top byte, then red, green
/// and blue.
pub fn pack_rgba_u8(r: u8, g: u8, b: u8, a: u8) -> (packed: u32)
    ensures
        packed == (a as u32) * 0x100_0000 + (r as u32) * 0x1_0000 + (g as u32) * 0x100 + (b as u32),
        (packed >> 24) & 0xff == a,
        (packed >> 16) & 0xff == r,
        (packed >> 8) & 0xff == g,
        packed & 0xff == b,
{
    let packed = ((a as u32) << 24) | ((r as u32) << 16) | ((g as u32) << 8) | (b as u32);
    assert(packed == (a as u32) * 0x100_0000 + (r as u32) * 0x1_0000 + (g as u32) * 0x100 + (
    b as u32) && (packed >> 24) & 0xff == a as u32 && (packed >> 16) & 0xff == r as u32 && (packed
        >> 8) & 0xff == g as u32 && packed & 0xff == b as u32) by (bit_vector)
        requires
            packed == ((a as u32) << 24) | ((r as u32) << 16) | ((g as u32) << 8) | (b as u32),
    ;
    packed
}

/// Whether a frame of `height` rows of `width` pixels, with `stride` pixels
/// from one row to the next, lies within a buffer of `len` pixels.
pub open spec fn frame_fits(len: int, width: int, height: int, stride: int) -> bool {
    &&& 0 <= width <= stride
    &&& 0 <= height
    &&& height > 0 ==> (height - 1) * stride + width <= len
}

/// Whether the pixel in column `x` of row `y` belongs to the frame.
pub open spec fn in_frame(width: int, height: int, x: int, y: int) -> bool {
    0 <= x < width && 0 <= y < height
}

/// The buffer after the pixel at `(x, y)` was set to `color`; a pixel outside
/// the frame is ignored.
pub open spec fn with_pixel(
    buf: Seq<u32>,
    width: int,
    height: int,
    stride: int,
    x: int,
    y: int,
    color: u32,
) -> Seq<u32> {
    if in_frame(width, height, x, y) {
        buf.update(y * stride + x, color)
    } else {
        buf
    }
}

/// The position in the buffer of a pixel of the frame lies within the buffer.
pub proof fn lemma_pixel_in_buffer(len: int, width: int, height: int, stride: int, x: int, y: int)
    requires
        frame_fits(len, width, height, stride),
        in_frame(width, height, x, y),
    ensures
        0 <= y * stride <= (height - 1) * stride,
        0 <= y * stride + x < len,
{
    assert(0 <= y * stride <= (height - 1) * stride) by (nonlinear_arith)
        requires
            0 <= y <= height - 1,
            0 <= stride,
    ;
}

/// Sets the pixel at `(x, y)` to `color`; does nothing if the pixel is
/// outside the frame.
pub fn put_pixel(
    buf: &mut [u32],
    width: usize,
    height: usize,
    stride: usize,
    x: i32,
    y: i32,
    color: u32,
)
    requires
        frame_fits(old(buf)@.len() as int, width as int, height as int, stride as int),
    ensures
        final(buf)@.len() == old(buf)@.len(),
        final(buf)@ == with_pixel(
            old(buf)@,
            width as int,
            height as int,
            stride as int,
            x as int,
            y as int,
            color,
        ),
{
    if x >= 0 && y >= 0 {
        let ux = x as usize;
        let uy = y as usize;
        if ux < width && uy < height {
            let len = buf.len();
            proof {
                lemma_pixel_in_buffer(
                    len as int,
                    width as int,
                    height as int,
                    stride as int,
                    ux as int,
                    uy as int,
                );
            }
            buf[uy * stride + ux] = color;
        }
    }
}

/// Whether position `i` of the buffer holds a pixel of the frame.
pub open spec fn covered(width: int, height: int, stride: int, i: int) -> bool {
    exists|x: int, y: int| #[trigger] in_frame(width, height, x, y) && i == y * stride + x
}

/// Sets every pixel of the frame to `color` and leaves the rest of the
/// buffer, such as the padding between rows, as it is.
pub fn clear(buf: &mut [u32], width: usize, height: usize, stride: usize, color: u32)
    requires
        frame_fits(old(buf)@.len() as int, width as int, height as int, stride as int),
    ensures
        final(buf)@.len() == old(buf)@.len(),
        forall|i: int|
            0 <= i < final(buf)@.len() ==> #[trigger] final(buf)@[i] == if covered(
                width as int,
                height as int,
                stride as int,
                i,
            ) {
                color
            } else {
                old(buf)@[i]
            },
{
    let len = buf.len();
    let mut y: usize = 0;
    while y < height
        invariant
            y <= height,
            len == buf@.len(),
            buf@.len() == old(buf)@.len(),
            frame_fits(len as int, width as int, height as int, stride as int),
            forall|i: int|
                0 <= i < buf@.len() ==> #[trigger] buf@[i] == if covered(
                    width as int,
                    y as int,
                    stride as int,
                    i,
                ) {
                    color
                } else {
                    old(buf)@[i]
                },
        decreases height - y,
    {
        let ghost row_start = buf@;
        proof {
            assert(0 <= y * stride <= (height - 1) * stride) by (nonlinear_arith)
                requires
                    0 <= y <= height - 1,
                    0 <= stride,
            ;
        }
        let base = y * stride;
        let mut x: usize = 0;
        while x < width
            invariant
                x <= width,
                y < height,
                base == y * stride,
                len == buf@.len(),
                buf@.len() == row_start.len(),
                frame_fits(len as int, width as int, height as int, stride as int),
                forall|i: int|
                    0 <= i < buf@.len() ==> #[trigger] buf@[i] == if base <= i < base + x {
                        color
                    } else {
                        row_start[i]
                    },
            decreases width - x,
        {
            proof {
                lemma_pixel_in_buffer(
                    len as int,
                    width as int,
                    height as int,
                    stride as int,
                    x as int,
                    y as int,
                );
            }
            buf[base + x] = color;
            x += 1;
        }
        proof {
            assert forall|i: int| 0 <= i < buf@.len() implies #[trigger] buf@[i] == if covered(
                width as int,
                y as int + 1,
                stride as int,
                i,
            ) {
                color
            } else {
                old(buf)@[i]
            } by {
                lemma_covered_next_row(width as int, y as int, stride as int, i);
            }
        }
        y += 1;
    }
}

/// The pixels of the first `rows + 1` rows are those of the first `rows`
/// rows and those of row `rows`.
pub proof fn lemma_covered_next_row(width: int, rows: int, stride: int, i: int)
    requires
        0 <= rows,
        0 <= width <= stride,
    ensures
        covered(width, rows + 1, stride, i) <==> covered(width, rows, stride, i) || (rows * stride
            <= i < rows * stride + width),
{
    if covered(width, rows + 1, stride, i) {
        let (x, y) = choose|x: int, y: int|
            #[trigger] in_frame(width, rows + 1, x, y) && i == y * stride + x;
        if y < rows {
            assert(in_frame(width, rows, x, y) && i == (y * stride) + x);
        }
    }
    if covered(width, rows, stride, i) {
        let (x, y) = choose|x: int, y: int|
            #[trigger] in_frame(width, rows, x, y) && i == y * stride + x;
        assert(in_frame(width, rows + 1, x, y) && i == (y * stride) + x);
    }
    if rows * stride <= i < rows * stride + width {
        let x = i - rows * stride;
        assert(in_frame(width, rows + 1, x, rows) && i == (rows * stride) + x);
    }
}

/// The distance between two coordinates.
pub open spec fn distance(from: int, to: int) -> int {
    if from <= to {
        to - from
    } else {
        from - to
    }
}

/// The step that leads from one coordinate towards another.
pub open spec fn direction(from: int, to: int) -> int {
    if from < to {
        1
    } else {
        -1
    }
}

/// The pixels of a line from `(x, y)` on, where `err` is the error term at
/// that point: the point itself and, unless it is the end point, the pixels
/// from the next point on. The next point is one step further along x if
/// twice the error is at least `dy`, and one step further along y if twice
/// the error is at most `dx`. `fuel` bounds the number of steps.
pub open spec fn line_from(
    x: int,
    y: int,
    err: int,
    x1: int,
    y1: int,
    dx: int,
    dy: int,
    sx: int,
    sy: int,
    fuel: nat,
) -> Seq<(int, int)>
    decreases fuel,
{
    if (x == x1 && y == y1) || fuel == 0 {
        seq![(x, y)]
    } else {
        let along_x = 2 * err >= dy;
        let along_y = 2 * err <= dx;
        let nx = if along_x {
            x + sx
        } else {
            x
        };
        let ny = if along_y {
            y + sy
        } else {
            y
        };
        let nerr = err + (if along_x {
            dy
        } else {
            0
        }) + (if along_y {
            dx
        } else {
            0
        });
        seq![(x, y)] + line_from(nx, ny, nerr, x1, y1, dx, dy, sx, sy, (fuel - 1) as nat)
    }
}

/// The pixels of the line from `(x0, y0)` to `(x1, y1)`, both ends included,
/// in the order in which they are drawn.
pub open spec fn line_points(x0: int, y0: int, x1: int, y1: int) -> Seq<(int, int)> {
    let dx = distance(x0, x1);
    let dy = -distance(y0, y1);
    line_from(
        x0,
        y0,
        dx + dy,
        x1,
        y1,
        dx,
        dy,
        direction(x0, x1),
        direction(y0, y1),
        (dx - dy) as nat,
    )
}

/// The buffer after the pixels at `points` were set to `color` one after the
/// other; points outside the frame are ignored.
pub open spec fn painted(
    buf: Seq<u32>,
    width: int,
    height: int,
    stride: int,
    points: Seq<(int, int)>,
    color: u32,
) -> Seq<u32>
    decreases points.len(),
{
    if points.len() == 0 {
        buf
    } else {
        with_pixel(
            painted(buf, width, height, stride, points.drop_last(), color),
            width,
            height,
            stride,
            points.last().0,
            points.last().1,
            color,
        )
    }
}

/// Painting two lists of points in a row is painting the joined list.
pub proof fn lemma_painted_concat(
    buf: Seq<u32>,
    width: int,
    height: int,
    stride: int,
    first: Seq<(int, int)>,
    second: Seq<(int, int)>,
    color: u32,
)
    ensures
        painted(buf, width, height, stride, first + second, color) == painted(
            painted(buf, width, height, stride, first, color),
            width,
            height,
            stride,
            second,
            color,
        ),
    decreases second.len(),
{
    if second.len() > 0 {
        assert((first + second).drop_last() =~= first + second.drop_last());
        lemma_painted_concat(buf, width, height, stride, first, second.drop_last(), color);
    }
}

/// The largest distance along one axis that a line may span.
pub const MAX_SPAN: i32 = 0x1fff_ffff;

/// Draws the line from `(x0, y0)` to `(x1, y1)`, both ends included, by the
/// integer line algorithm with an error term; pixels outside the frame are
/// skipped.
pub fn draw_line(
    buf: &mut [u32],
    width: usize,
    height: usize,
    stride: usize,
    x0: i32,
    y0: i32,
    x1: i32,
    y1: i32,
    color: u32,
)
    requires
        frame_fits(old(buf)@.len() as int, width as int, height as int, stride as int),
        distance(x0 as int, x1 as int) <= MAX_SPAN,
        distance(y0 as int, y1 as int) <= MAX_SPAN,
    ensures
        final(buf)@.len() == old(buf)@.len(),
        final(buf)@ == painted(
            old(buf)@,
            width as int,
            height as int,
            stride as int,
            line_points(x0 as int, y0 as int, x1 as int, y1 as int),
            color,
        ),
{
    let dx: i32 = if x0 <= x1 {
        x1 - x0
    } else {
        x0 - x1
    };
    let sx: i32 = if x0 < x1 {
        1
    } else {
        -1
    };
    let dy: i32 = if y0 <= y1 {
        y0 - y1
    } else {
        y1 - y0
    };
    let sy: i32 = if y0 < y1 {
        1
    } else {
        -1
    };
    let mut err: i32 = dx + dy;
    let mut x: i32 = x0;
    let mut y: i32 = y0;
    let ghost all = line_points(x0 as int, y0 as int, x1 as int, y1 as int);
    let ghost mut done: Seq<(int, int)> = Seq::empty();
    let ghost mut kx: int = 0;
    let ghost mut ky: int = 0;
    loop
        invariant_except_break
            buf@ == painted(old(buf)@, width as int, height as int, stride as int, done, color),
            done + line_from(
                x as int,
                y as int,
                err as int,
                x1 as int,
                y1 as int,
                dx as int,
                dy as int,
                sx as int,
                sy as int,
                ((dx - kx) + (-dy - ky)) as nat,
            ) == all,
        invariant
            buf@.len() == old(buf)@.len(),
            frame_fits(buf@.len() as int, width as int, height as int, stride as int),
            dx == distance(x0 as int, x1 as int),
            dy == -distance(y0 as int, y1 as int),
            sx == direction(x0 as int, x1 as int),
            sy == direction(y0 as int, y1 as int),
            0 <= dx <= MAX_SPAN,
            -MAX_SPAN <= dy <= 0,
            0 <= kx <= dx,
            0 <= ky <= -dy,
            x == x0 + sx * kx,
            y == y0 + sy * ky,
            err == dx + dy + kx * dy + ky * dx,
            2 * dy <= err <= 2 * dx,
        ensures
            buf@ == painted(old(buf)@, width as int, height as int, stride as int, all, color),
        decreases (dx - kx) + (-dy - ky),
    {
        let ghost fuel = ((dx - kx) + (-dy - ky)) as nat;
        let ghost before = buf@;
        put_pixel(buf, width, height, stride, x, y, color);
        proof {
            let here = seq![(x as int, y as int)];
            lemma_painted_concat(
                old(buf)@,
                width as int,
                height as int,
                stride as int,
                done,
                here,
                color,
            );
            assert(painted(before, width as int, height as int, stride as int, here, color)
                == with_pixel(
                painted(
                    before,
                    width as int,
                    height as int,
                    stride as int,
                    here.drop_last(),
                    color,
                ),
                width as int,
                height as int,
                stride as int,
                here.last().0,
                here.last().1,
                color,
            ));
        }
        if x == x1 && y == y1 {
            break ;
        }
        let e2 = 2 * err;
        let ghost old_x = x as int;
        let ghost old_y = y as int;
        let ghost old_kx = kx;
        if e2 >= dy {
            proof {
                // a step along x is taken only while x has not arrived
                if kx == dx {
                    assert(2 * (dx + dy + kx * dy + ky * dx) < dy) by (nonlinear_arith)
                        requires
                            kx == dx,
                            0 <= ky < -dy,
                            0 <= dx,
                    ;
                }
                assert((kx + 1) * dy == kx * dy + dy) by (nonlinear_arith);
                kx = kx + 1;
            }
            err += dy;
            x += sx;
        }
        if e2 <= dx {
            proof {
                // a step along y is taken only while y has not arrived
                if ky == -dy {
                    assert(2 * (dx + dy + old_kx * dy + ky * dx) > dx) by (nonlinear_arith)
                        requires
                            ky == -dy,
                            0 <= old_kx < dx,
                            dy <= 0,
                    ;
                }
                assert((ky + 1) * dx == ky * dx + dx) by (nonlinear_arith);
                ky = ky + 1;
            }
            err += dx;
            y += sy;
        }
        proof {
            let here = seq![(old_x, old_y)];
            done = done + here;
            lemma_same_fuel(
                x as int,
                y as int,
                err as int,
                x1 as int,
                y1 as int,
                dx as int,
                dy as int,
                sx as int,
                sy as int,
                (fuel - 1) as nat,
                ((dx - kx) + (-dy - ky)) as nat,
                kx,
                ky,
                x0 as int,
                y0 as int,
            );
        }
    }
}

/// Fuel beyond the number of steps that are left does not change the pixels
/// of a line.
pub proof fn lemma_same_fuel(
    x: int,
    y: int,
    err: int,
    x1: int,
    y1: int,
    dx: int,
    dy: int,
    sx: int,
    sy: int,
    more: nat,
    fuel: nat,
    kx: int,
    ky: int,
    x0: int,
    y0: int,
)
    requires
        dx == distance(x0, x1),
        dy == -distance(y0, y1),
        sx == direction(x0, x1),
        sy == direction(y0, y1),
        0 <= kx <= dx,
        0 <= ky <= -dy,
        x == x0 + sx * kx,
        y == y0 + sy * ky,
        err == dx + dy + kx * dy + ky * dx,
        fuel == (dx - kx) + (-dy - ky),
        more >= fuel,
    ensures
        line_from(x, y, err, x1, y1, dx, dy, sx, sy, more) == line_from(
            x,
            y,
            err,
            x1,
            y1,
            dx,
            dy,
            sx,
            sy,
            fuel,
        ),
    decreases fuel,
{
    if !(x == x1 && y == y1) {
        let along_x = 2 * err >= dy;
        let along_y = 2 * err <= dx;
        if along_x && kx == dx {
            assert(2 * (dx + dy + kx * dy + ky * dx) < dy) by (nonlinear_arith)
                requires
                    kx == dx,
                    0 <= ky < -dy,
                    0 <= dx,
            ;
        }
        if along_y && ky == -dy {
            assert(2 * (dx + dy + kx * dy + ky * dx) > dx) by (nonlinear_arith)
                requires
                    ky == -dy,
                    0 <= kx < dx,
                    dy <= 0,
            ;
        }
        let nkx = if along_x {
            kx + 1
        } else {
            kx
        };
        let nky = if along_y {
            ky + 1
        } else {
            ky
        };
        let nx = if along_x {
            x + sx
        } else {
            x
        };
        let ny = if along_y {
            y + sy
        } else {
            y
        };
        let nerr = err + (if along_x {
            dy
        } else {
            0
        }) + (if along_y {
            dx
        } else {
            0
        });
        assert(nerr == dx + dy + nkx * dy + nky * dx) by (nonlinear_arith)
            requires
                err == dx + dy + kx * dy + ky * dx,
                nerr == err + (if along_x {
                    dy
                } else {
                    0
                }) + (if along_y {
                    dx
                } else {
                    0
                }),
                nkx == (if along_x {
                    kx + 1
                } else {
                    kx
                }),
                nky == (if along_y {
                    ky + 1
                } else {
                    ky
                }),
        ;
        let nfuel = ((dx - nkx) + (-dy - nky)) as nat;
        lemma_same_fuel(
            nx,
            ny,
            nerr,
            x1,
            y1,
            dx,
            dy,
            sx,
            sy,
            (more - 1) as nat,
            nfuel,
            nkx,
            nky,
            x0,
            y0,
        );
        lemma_same_fuel(
            nx,
            ny,
            nerr,
            x1,
            y1,
            dx,
            dy,
            sx,
            sy,
            (fuel - 1) as nat,
            nfuel,
            nkx,
            nky,
            x0,
            y0,
        );
    }
}

/// The pixels of the outline of the rectangle with the corner `(x, y)`, the
/// width `w` and the height `h`: the top edge, the bottom edge, the left edge
/// and the right edge, in this order.
pub open spec fn outline_points(x: int, y: int, w: int, h: int) -> Seq<(int, int)> {
    let x1 = x + w - 1;
    let y1 = y + h - 1;
    line_points(x, y, x1, y) + line_points(x, y1, x1, y1) + line_points(x, y, x, y1) + line_points(
        x1,
        y,
        x1,
        y1,
    )
}

/// Draws the outline of the rectangle with the corner `(x, y)`, the width `w`
/// and the height `h`. A rectangle without width or height is not drawn.
pub fn draw_rect_outline(
    buf: &mut [u32],
    width: usize,
    height: usize,
    stride: usize,
    x: i32,
    y: i32,
    w: i32,
    h: i32,
    color: u32,
)
    requires
        frame_fits(old(buf)@.len() as int, width as int, height as int, stride as int),
        w > 0 && h > 0 ==> w - 1 <= MAX_SPAN && h - 1 <= MAX_SPAN && x + w <= i32::MAX && y + h
            <= i32::MAX,
    ensures
        final(buf)@.len() == old(buf)@.len(),
        final(buf)@ == if w <= 0 || h <= 0 {
            old(buf)@
        } else {
            painted(
                old(buf)@,
                width as int,
                height as int,
                stride as int,
                outline_points(x as int, y as int, w as int, h as int),
                color,
            )
        },
{
    if w <= 0 || h <= 0 {
        return ;
    }
    let x0 = x;
    let y0 = y;
    let x1 = x + w - 1;
    let y1 = y + h - 1;
    let ghost top = line_points(x0 as int, y0 as int, x1 as int, y0 as int);
    let ghost bottom = line_points(x0 as int, y1 as int, x1 as int, y1 as int);
    let ghost left = line_points(x0 as int, y0 as int, x0 as int, y1 as int);
    let ghost right = line_points(x1 as int, y0 as int, x1 as int, y1 as int);
    draw_line(buf, width, height, stride, x0, y0, x1, y0, color);
    draw_line(buf, width, height, stride, x0, y1, x1, y1, color);
    draw_line(buf, width, height, stride, x0, y0, x0, y1, color);
    draw_line(buf, width, height, stride, x1, y0, x1, y1, color);
    proof {
        let wi = width as int;
        let hi = height as int;
        let si = stride as int;
        lemma_painted_concat(old(buf)@, wi, hi, si, top, bottom, color);
        lemma_painted_concat(old(buf)@, wi, hi, si, top + bottom, left, color);
        lemma_painted_concat(old(buf)@, wi, hi, si, top + bottom + left, right, color);
    }
}

/// Whether a frame of `height` rows of `width` pixels, `stride` pixels apart,
/// lies within a buffer of `len` pixels.
pub fn frame_is_valid(len: usize, width: usize, height: usize, stride: usize) -> (r: bool)
    ensures
        r == frame_fits(len as int, width as int, height as int, stride as int),
{
    if width > stride {
        return false;
    }
    if height == 0 {
        return true;
    }
    match (height - 1).checked_mul(stride) {
        Some(rows) => match rows.checked_add(width) {
            Some(needed) => needed <= len,
            None => false,
        },
        None => {
            false
        },
    }
}

/// Whether the outline of the rectangle with the corner `(x, y)`, the width
/// `w` and the height `h` can be drawn without leaving the range of the
/// coordinates.
pub fn rect_is_drawable(x: i32, y: i32, w: i32, h: i32) -> (r: bool)
    ensures
        r == (w > 0 && h > 0 ==> w - 1 <= MAX_SPAN && h - 1 <= MAX_SPAN && x + w <= i32::MAX && y
            + h <= i32::MAX),
{
    if w <= 0 || h <= 0 {
        return true;
    }
    w - 1 <= MAX_SPAN && h - 1 <= MAX_SPAN && x <= i32::MAX - w && y <= i32::MAX - h
}

/// One channel of `over` laid over the same channel of `under` with the
/// coverage `alpha`, where 255 is full coverage.
pub open spec fn mixed(over: int, under: int, alpha: int) -> int {
    (over * alpha + under * (255 - alpha)) / 255
}

/// The channel of a packed pixel that stands `shift` bits from the right.
pub open spec fn channel_of(pixel: u32, shift: u32) -> int {
    ((pixel >> shift) & 0xff) as int
}

/// The opaque pixel that results when the colour `over` is laid over the
/// pixel `under` with the coverage `alpha`: red, green and blue are mixed
/// channel by channel.
pub fn blend_over(over: u32, under: u32, alpha: u8) -> (pixel: u32)
    ensures
        channel_of(pixel, 24) == 255,
        channel_of(pixel, 16) == mixed(channel_of(over, 16), channel_of(under, 16), alpha as int),
        channel_of(pixel, 8) == mixed(channel_of(over, 8), channel_of(under, 8), alpha as int),
        channel_of(pixel, 0) == mixed(channel_of(over, 0), channel_of(under, 0), alpha as int),
{
    let r = mix_channel(channel_at(over, 16), channel_at(under, 16), alpha);
    let g = mix_channel(channel_at(over, 8), channel_at(under, 8), alpha);
    let b = mix_channel(channel_at(over, 0), channel_at(under, 0), alpha);
    let pixel = pack_rgba_u8(r, g, b, 255);
    assert(channel_of(pixel, 0) == (pixel & 0xff) as int) by {
        assert(pixel >> 0u32 == pixel) by (bit_vector);
    }
    pixel
}

/// The channel of a packed pixel that stands `shift` bits from the right.
pub fn channel_at(pixel: u32, shift: u32) -> (c: u8)
    requires
        shift < 32,
    ensures
        c == channel_of(pixel, shift),
{
    let c = (pixel >> shift) & 0xff;
    assert(c <= 0xff) by (bit_vector)
        requires
            c == (pixel >> shift) & 0xff,
    ;
    c as u8
}

/// One channel laid over another with the coverage `alpha`.
pub fn mix_channel(over: u8, under: u8, alpha: u8) -> (c: u8)
    ensures
        c == mixed(over as int, under as int, alpha as int),
{
    let a = alpha as u16;
    let inv = 255 - a;
    assert(over * a + under * inv <= 255 * 255) by (nonlinear_arith)
        requires
            0 <= over <= 255,
            0 <= under <= 255,
            0 <= a <= 255,
            inv == 255 - a,
    ;
    let sum = over as u16 * a + under as u16 * inv;
    (sum / 255) as u8
}

} // verus!
