//! Drawing into a band of pixels: RGB565, two bytes a pixel, high byte first, row after
//! row. Whatever lies outside the band is left out.
use vstd::prelude::*;
use crate::font;
use crate::font::{for_each_pixel, MAX_TEXT_CHARS};
use crate::text::{chars_of, string_of};
use crate::wrap::SUB_W;

verus! {

/// Rows between the top of a band and the top of its text.
pub const TEXT_TOP: i128 = 2;

/// Columns beyond this, either way, are not asked for.
pub const FARTHEST: i128 = 0x1000000000000000000000;

/// The high byte of a colour.
pub open spec fn hi(c: u16) -> u8 {
    (c / 256) as u8
}

/// The low byte of a colour.
pub open spec fn lo(c: u16) -> u8 {
    (c % 256) as u8
}

/// Rows of a band that is `stride` pixels wide.
pub open spec fn rows(len: int, stride: int) -> int {
    len / (stride * 2)
}

/// Whether a point lies in a band.
pub open spec fn inside(len: int, stride: int, x: int, y: int) -> bool {
    0 <= x < stride && 0 <= y < rows(len, stride)
}

/// Where the bytes of a point lie.
pub open spec fn offset(stride: int, x: int, y: int) -> int {
    (y * stride + x) * 2
}

/// The colour of a point of a band.
pub open spec fn pixel(b: Seq<u8>, stride: int, x: int, y: int) -> u16 {
    (b[offset(stride, x, y)] * 256 + b[offset(stride, x, y) + 1]) as u16
}

/// A band with one point set.
pub open spec fn with_point(b: Seq<u8>, stride: int, x: int, y: int, c: u16) -> Seq<u8> {
    if inside(b.len() as int, stride, x, y) {
        b.update(offset(stride, x, y), hi(c)).update(offset(stride, x, y) + 1, lo(c))
    } else {
        b
    }
}

/// A band with several points set.
pub open spec fn with_points(b: Seq<u8>, stride: int, pts: Seq<(int, int)>, c: u16) -> Seq<u8>
    decreases pts.len(),
{
    if pts.len() == 0 {
        b
    } else {
        with_point(with_points(b, stride, pts.drop_last(), c), stride, pts.last().0, pts.last().1, c)
    }
}

/// A band of `n` bytes in one colour.
pub open spec fn plain_band(n: nat, c: u16) -> Seq<u8> {
    Seq::new(
        n,
        |i: int|
            if i % 2 == 0 {
                hi(c)
            } else {
                lo(c)
            },
    )
}

// ---------- facts about points ----------

proof fn lemma_offset(len: int, stride: int, x: int, y: int)
    requires
        stride > 0,
        inside(len, stride, x, y),
    ensures
        0 <= offset(stride, x, y),
        offset(stride, x, y) + 1 < len,
        offset(stride, x, y) % 2 == 0,
{
    let r = rows(len, stride);
    assert(r * (stride * 2) <= len) by (nonlinear_arith)
        requires
            r == len / (stride * 2),
            stride > 0,
    ;
    assert((y * stride + x) * 2 + 2 <= r * (stride * 2)) by (nonlinear_arith)
        requires
            0 <= x < stride,
            0 <= y < r,
            stride > 0,
    ;
    assert(0 <= y * stride) by (nonlinear_arith)
        requires
            0 <= y,
            stride > 0,
    ;
}

proof fn lemma_offsets_differ(stride: int, x: int, y: int, p: int, q: int)
    requires
        0 <= x < stride,
        0 <= p < stride,
        x != p || y != q,
    ensures
        y * stride + x != q * stride + p,
{
    if y == q {
    } else if y < q {
        assert(y * stride + stride <= q * stride) by (nonlinear_arith)
            requires
                y < q,
                stride > 0,
        ;
    } else {
        assert(q * stride + stride <= y * stride) by (nonlinear_arith)
            requires
                q < y,
                stride > 0,
        ;
    }
}

proof fn lemma_color_bytes(c: u16)
    ensures
        (hi(c) * 256 + lo(c)) as u16 == c,
{
}

/// Setting a point gives it its colour and leaves every other point alone.
pub proof fn lemma_point(b: Seq<u8>, stride: int, x: int, y: int, c: u16, p: int, q: int)
    requires
        stride > 0,
        inside(b.len() as int, stride, p, q),
    ensures
        with_point(b, stride, x, y, c).len() == b.len(),
        pixel(with_point(b, stride, x, y, c), stride, p, q) == (if (x, y) == (p, q) {
            c
        } else {
            pixel(b, stride, p, q)
        }),
{
    lemma_offset(b.len() as int, stride, p, q);
    lemma_color_bytes(c);
    if inside(b.len() as int, stride, x, y) {
        lemma_offset(b.len() as int, stride, x, y);
        if (x, y) != (p, q) {
            lemma_offsets_differ(stride, x, y, p, q);
        }
    }
}

/// After several points have been set, those have the colour and the others are as they
/// were.
pub proof fn lemma_points(b: Seq<u8>, stride: int, pts: Seq<(int, int)>, c: u16, p: int, q: int)
    requires
        stride > 0,
        inside(b.len() as int, stride, p, q),
    ensures
        with_points(b, stride, pts, c).len() == b.len(),
        pixel(with_points(b, stride, pts, c), stride, p, q) == (if pts.contains((p, q)) {
            c
        } else {
            pixel(b, stride, p, q)
        }),
    decreases pts.len(),
{
    if pts.len() > 0 {
        let front = pts.drop_last();
        lemma_points(b, stride, front, c, p, q);
        lemma_point(
            with_points(b, stride, front, c),
            stride,
            pts.last().0,
            pts.last().1,
            c,
            p,
            q,
        );
        if front.contains((p, q)) {
            let k = choose|k: int| 0 <= k < front.len() && front[k] == (p, q);
            assert(pts[k] == (p, q));
        }
        if pts.contains((p, q)) && pts.last() != (p, q) {
            let k = choose|k: int| 0 <= k < pts.len() && pts[k] == (p, q);
            assert(front[k] == (p, q));
        }
        if pts.last() == (p, q) {
            assert(pts[pts.len() - 1] == (p, q));
        }
    }
}

/// A band keeps its size.
pub proof fn lemma_points_len(b: Seq<u8>, stride: int, pts: Seq<(int, int)>, c: u16)
    requires
        stride > 0,
    ensures
        with_points(b, stride, pts, c).len() == b.len(),
    decreases pts.len(),
{
    if pts.len() > 0 {
        lemma_points_len(b, stride, pts.drop_last(), c);
        if inside(b.len() as int, stride, pts.last().0, pts.last().1) {
            lemma_offset(b.len() as int, stride, pts.last().0, pts.last().1);
        }
    }
}

/// A band in one colour has that colour everywhere.
pub proof fn lemma_plain_band(n: nat, stride: int, c: u16, p: int, q: int)
    requires
        stride > 0,
        inside(n as int, stride, p, q),
    ensures
        pixel(plain_band(n, c), stride, p, q) == c,
{
    lemma_offset(n as int, stride, p, q);
    lemma_color_bytes(c);
}

// ---------- drawing ----------

/// Fills a band with one colour.
pub fn fill_color(band: &mut [u8], color: u16)
    ensures
        final(band)@.len() == old(band)@.len(),
        forall|k: int|
            0 <= k < old(band)@.len() / 2 * 2 ==> #[trigger] final(band)@[k] == plain_band(
                old(band)@.len(),
                color,
            )[k],
        old(band)@.len() % 2 == 1 ==> final(band)@.last() == old(band)@.last(),
        old(band)@.len() % 2 == 0 ==> final(band)@ == plain_band(old(band)@.len(), color),
{
    let h: u8 = (color / 256) as u8;
    let l: u8 = (color % 256) as u8;
    let total = band.len();
    let n = total / 2;
    let ghost len = band@.len();
    let mut i: usize = 0;
    while i < n
        invariant
            i <= n,
            n == total / 2,
            total == len,
            len == old(band)@.len(),
            band@.len() == len,
            h == hi(color),
            l == lo(color),
            forall|k: int| 0 <= k < 2 * i ==> #[trigger] band@[k] == plain_band(len, color)[k],
            len % 2 == 1 ==> band@.last() == old(band)@.last(),
        decreases n - i,
    {
        band[i * 2] = h;
        band[i * 2 + 1] = l;
        i = i + 1;
    }
    if total % 2 == 0 {
        assert(band@ =~= plain_band(len, color));
    }
}

/// Sets one point.
pub fn put(band: &mut [u8], stride: usize, x: i128, y: i128, color: u16)
    requires
        0 < stride <= 0x7fffffff,
    ensures
        final(band)@ == with_point(old(band)@, stride as int, x as int, y as int, color),
{
    if x < 0 || y < 0 {
        return;
    }
    let n = band.len();
    let rows_here = n / (stride * 2);
    if y >= rows_here as i128 || x >= stride as i128 {
        return;
    }
    proof {
        lemma_offset(n as int, stride as int, x as int, y as int);
        assert(0 <= y * stride <= offset(stride as int, x as int, y as int)) by (nonlinear_arith)
            requires
                y >= 0,
                x >= 0,
                stride > 0,
                offset(stride as int, x as int, y as int) == (y * stride + x) * 2,
        ;
    }
    let o = (y as usize * stride + x as usize) * 2;
    band[o] = (color / 256) as u8;
    band[o + 1] = (color % 256) as u8;
}

/// Pixels of a text moved to where it stands in the band.
pub open spec fn moved(pixels: Seq<(i32, i32)>, shift: int) -> Seq<(int, int)> {
    pixels.map_values(|p: (i32, i32)| (p.0 + shift, p.1 + TEXT_TOP))
}

/// Sets the given pixels of a text whose origin stands in column `shift`.
pub fn plot_pixels(band: &mut [u8], w: usize, pixels: &[(i32, i32)], color: u16, shift: i128)
    requires
        0 < w <= 0x7fffffff,
        -FARTHEST <= shift <= FARTHEST,
    ensures
        final(band)@ == with_points(old(band)@, w as int, moved(pixels@, shift as int), color),
{
    let ghost pts = moved(pixels@, shift as int);
    let n = pixels.len();
    let mut i: usize = 0;
    assert(pts.take(0) =~= Seq::<(int, int)>::empty());
    while i < n
        invariant
            i <= n == pixels@.len(),
            0 < w <= 0x7fffffff,
            -FARTHEST <= shift <= FARTHEST,
            pts == moved(pixels@, shift as int),
            band@ == with_points(old(band)@, w as int, pts.take(i as int), color),
        decreases n - i,
    {
        let x = pixels[i].0 as i128 + shift;
        let y = pixels[i].1 as i128 + TEXT_TOP;
        put(band, w, x, y, color);
        proof {
            let upto = pts.take(i + 1);
            assert(upto.drop_last() =~= pts.take(i as int));
            assert(upto.last() == pts[i as int]);
        }
        i = i + 1;
    }
    assert(pts.take(n as int) =~= pts);
}

/// The part of a text that is drawn.
pub open spec fn drawn_part(t: Seq<char>) -> Seq<char> {
    if t.len() > MAX_TEXT_CHARS {
        t.take(MAX_TEXT_CHARS as int)
    } else {
        t
    }
}

/// A band with a text drawn into it, its origin in column `shift`.
pub open spec fn with_text(b: Seq<u8>, w: int, t: Seq<char>, c: u16, shift: int) -> Seq<u8> {
    if t.len() == 0 {
        b
    } else {
        with_points(b, w, moved(font::text_pixels(drawn_part(t), SUB_W), shift), c)
    }
}

/// Draws a text into a band.
pub fn raster(band: &mut [u8], w: usize, text: &str, color: u16, shift: i128)
    requires
        0 < w <= 0x7fffffff,
        -FARTHEST <= shift <= FARTHEST,
    ensures
        final(band)@ == with_text(old(band)@, w as int, text@, color, shift as int),
{
    if text.is_empty() {
        return;
    }
    let chars = chars_of(text);
    let pixels = if chars.len() > MAX_TEXT_CHARS {
        let part = string_of(chars.as_slice(), 0, MAX_TEXT_CHARS);
        assert(part@ =~= drawn_part(text@));
        for_each_pixel(part.as_str(), SUB_W)
    } else {
        for_each_pixel(text, SUB_W)
    };
    plot_pixels(band, w, pixels.as_slice(), color, shift);
}

/// The points of a rectangle, row after row.
pub open spec fn rect_points(x: int, y: int, rw: nat, rh: nat) -> Seq<(int, int)> {
    Seq::new(rw * rh, |k: int| (x + k % (rw as int), y + k / (rw as int)))
}

/// Fills a rectangle.
pub fn fill_rect(band: &mut [u8], stride: usize, x: i32, y: i32, rw: u32, rh: u32, c: u16)
    requires
        0 < stride <= 0x7fffffff,
    ensures
        final(band)@ == with_points(
            old(band)@,
            stride as int,
            rect_points(x as int, y as int, rw as nat, rh as nat),
            c,
        ),
{
    let ghost pts = rect_points(x as int, y as int, rw as nat, rh as nat);
    assert(0 <= rw * rh <= 0xffffffff * 0xffffffff) by (nonlinear_arith)
        requires
            rw <= 0xffffffff,
            rh <= 0xffffffff,
    ;
    let n: u64 = rw as u64 * rh as u64;
    let mut k: u64 = 0;
    assert(pts.take(0) =~= Seq::<(int, int)>::empty());
    while k < n
        invariant
            k <= n,
            n == rw * rh,
            0 < stride <= 0x7fffffff,
            pts == rect_points(x as int, y as int, rw as nat, rh as nat),
            pts.len() == n,
            band@ == with_points(old(band)@, stride as int, pts.take(k as int), c),
        decreases n - k,
    {
        proof {
            assert(rw > 0) by (nonlinear_arith)
                requires
                    k < rw * rh,
                    rh >= 0,
                    rw >= 0,
                    k >= 0,
            ;
            assert(0 <= k / (rw as u64) < rh) by (nonlinear_arith)
                requires
                    k < rw * rh,
                    rw > 0,
            ;
        }
        let px = x as i64 + (k % rw as u64) as i64;
        let py = y as i64 + (k / rw as u64) as i64;
        put(band, stride, px as i128, py as i128, c);
        proof {
            let upto = pts.take(k + 1);
            assert(upto.drop_last() =~= pts.take(k as int));
            assert(upto.last() == pts[k as int]);
        }
        k = k + 1;
    }
    assert(pts.take(n as int) =~= pts);
}

// ---------- straight lines ----------

/// How far a line of `minor` over `major` has moved aside after `k` steps: the nearest
/// whole number, the lower one in the middle between two.
pub open spec fn aside(k: int, major: int, minor: int) -> int {
    (2 * k * minor + major - 1) / (2 * major)
}

pub open spec fn magnitude(a: int) -> int {
    if a < 0 {
        -a
    } else {
        a
    }
}

/// One in the direction of `a`, and backwards where there is none.
pub open spec fn direction(a: int) -> int {
    if a > 0 {
        1
    } else {
        -1
    }
}

/// Point `k` of the line from one point to another: one step at a time along the longer
/// way, aside as the slope asks.
pub open spec fn line_point(x0: int, y0: int, x1: int, y1: int, k: int) -> (int, int) {
    let dx = magnitude(x1 - x0);
    let dy = magnitude(y1 - y0);
    if dx >= dy {
        (x0 + direction(x1 - x0) * k, y0 + direction(y1 - y0) * aside(k, dx, dy))
    } else {
        (x0 + direction(x1 - x0) * aside(k, dy, dx), y0 + direction(y1 - y0) * k)
    }
}

/// The points of a line, both ends included.
pub open spec fn line_points(x0: int, y0: int, x1: int, y1: int) -> Seq<(int, int)> {
    let dx = magnitude(x1 - x0);
    let dy = magnitude(y1 - y0);
    if dx == 0 && dy == 0 {
        seq![(x0, y0)]
    } else {
        Seq::new(
            ((if dx >= dy {
                dx
            } else {
                dy
            }) + 1) as nat,
            |k: int| line_point(x0, y0, x1, y1, k),
        )
    }
}

/// What `aside` means: `k * minor / major` to the nearest whole number.
proof fn lemma_aside(k: int, major: int, minor: int)
    requires
        0 <= k,
        0 < major,
        0 <= minor,
    ensures
        2 * k * minor - major <= 2 * aside(k, major, minor) * major,
        2 * aside(k, major, minor) * major < 2 * k * minor + major,
        0 <= aside(k, major, minor),
{
    let n = 2 * k * minor + major - 1;
    let d = 2 * major;
    let a = n / d;
    assert(2 * k * minor >= 0) by (nonlinear_arith)
        requires
            k >= 0,
            minor >= 0,
    ;
    assert(n == d * (n / d) + n % d && 0 <= n % d < d) by (nonlinear_arith)
        requires
            d > 0,
    ;
    assert(d * a == 2 * a * major) by (nonlinear_arith)
        requires
            d == 2 * major,
    ;
    assert(a >= 0) by (nonlinear_arith)
        requires
            n >= 0,
            d > 0,
            a == n / d,
    ;
}

/// The whole number nearest to a slope is the only one there.
proof fn lemma_aside_unique(k: int, major: int, minor: int, a: int)
    requires
        0 <= k,
        0 < major,
        0 <= minor,
        2 * k * minor - major <= 2 * a * major,
        2 * a * major < 2 * k * minor + major,
    ensures
        a == aside(k, major, minor),
{
    lemma_aside(k, major, minor);
    let b = aside(k, major, minor);
    if a < b {
        assert(2 * a * major + 2 * major <= 2 * b * major) by (nonlinear_arith)
            requires
                a < b,
                major > 0,
        ;
    }
    if b < a {
        assert(2 * b * major + 2 * major <= 2 * a * major) by (nonlinear_arith)
            requires
                b < a,
                major > 0,
        ;
    }
}

/// One step of the error term along the longer way: the line moves aside exactly where
/// twice the error falls short, and never needs to wait.
proof fn lemma_line_step(k: int, major: int, minor: int, a: int, err: int)
    requires
        0 <= k < major,
        0 <= minor <= major,
        a == aside(k, major, minor),
        err == (1 + a) * major - (1 + k) * minor,
    ensures
        2 * err > -minor,
        -2 * major <= err <= 2 * major,
        2 * err < major ==> aside(k + 1, major, minor) == a + 1,
        2 * err >= major ==> aside(k + 1, major, minor) == a,
        err - minor == (1 + a) * major - (1 + (k + 1)) * minor,
        err - minor + major == (1 + (a + 1)) * major - (1 + (k + 1)) * minor,
{
    lemma_aside(k, major, minor);
    assert((1 + a) * major == major + a * major) by (nonlinear_arith);
    assert((1 + k) * minor == minor + k * minor) by (nonlinear_arith);
    assert((1 + (k + 1)) * minor == 2 * minor + k * minor) by (nonlinear_arith);
    assert((1 + (a + 1)) * major == 2 * major + a * major) by (nonlinear_arith);
    assert(2 * k * minor == 2 * (k * minor)) by (nonlinear_arith);
    assert(2 * a * major == 2 * (a * major)) by (nonlinear_arith);
    assert(2 * (k + 1) * minor == 2 * (k * minor) + 2 * minor) by (nonlinear_arith);
    assert(2 * (a + 1) * major == 2 * (a * major) + 2 * major) by (nonlinear_arith);
    if minor == major {
        lemma_aside_unique(k, major, minor, k);
    }
    if 2 * err < major {
        lemma_aside_unique(k + 1, major, minor, a + 1);
    } else {
        lemma_aside_unique(k + 1, major, minor, a);
    }
}

proof fn lemma_line_ends(major: int, minor: int)
    requires
        0 < major,
        0 <= minor,
    ensures
        aside(0, major, minor) == 0,
        aside(major, major, minor) == minor,
{
    assert(2 * 0 * minor == 0 && 2 * 0 * major == 0) by (nonlinear_arith);
    lemma_aside_unique(0, major, minor, 0);
    assert(2 * major * minor == 2 * minor * major) by (nonlinear_arith);
    lemma_aside_unique(major, major, minor, minor);
}

/// A line begins and ends where it should.
pub proof fn law_line_ends(x0: int, y0: int, x1: int, y1: int)
    ensures
        line_points(x0, y0, x1, y1).first() == (x0, y0),
        line_points(x0, y0, x1, y1).last() == (x1, y1),
{
    let dx = magnitude(x1 - x0);
    let dy = magnitude(y1 - y0);
    if dx >= dy && dx > 0 {
        lemma_line_ends(dx, dy);
        assert(direction(x1 - x0) * dx == x1 - x0);
        assert(direction(y1 - y0) * dy == y1 - y0);
    } else if dx < dy {
        lemma_line_ends(dy, dx);
        assert(direction(x1 - x0) * dx == x1 - x0);
        assert(direction(y1 - y0) * dy == y1 - y0);
    }
}

/// Draws a straight line.
#[verifier::rlimit(40)]
pub fn draw_line(band: &mut [u8], stride: usize, x0: i32, y0: i32, x1: i32, y1: i32, c: u16)
    requires
        0 < stride <= 0x7fffffff,
    ensures
        final(band)@ == with_points(
            old(band)@,
            stride as int,
            line_points(x0 as int, y0 as int, x1 as int, y1 as int),
            c,
        ),
{
    let ex: i64 = x1 as i64 - x0 as i64;
    let ey: i64 = y1 as i64 - y0 as i64;
    let dx: i64 = if ex < 0 {
        -ex
    } else {
        ex
    };
    let dy: i64 = if ey < 0 {
        -ey
    } else {
        ey
    };
    let sx: i64 = if ex > 0 {
        1
    } else {
        -1
    };
    let sy: i64 = if ey > 0 {
        1
    } else {
        -1
    };
    let ghost pts = line_points(x0 as int, y0 as int, x1 as int, y1 as int);
    let ghost major = if dx >= dy {
        dx as int
    } else {
        dy as int
    };
    let ghost minor = if dx >= dy {
        dy as int
    } else {
        dx as int
    };
    let mut x: i64 = x0 as i64;
    let mut y: i64 = y0 as i64;
    let mut err: i64 = dx - dy;
    // Steps taken along x and along y.
    let ghost mut a: int = 0;
    let ghost mut b: int = 0;
    let ghost mut k: int = 0;
    assert(pts.take(0) =~= Seq::<(int, int)>::empty());
    proof {
        if major > 0 {
            lemma_line_ends(major, minor);
        }
        assert((1 + b) * dx == dx) by (nonlinear_arith)
            requires
                b == 0,
        ;
        assert((1 + a) * dy == dy) by (nonlinear_arith)
            requires
                a == 0,
        ;
    }
    loop
        invariant_except_break
            band@ == with_points(old(band)@, stride as int, pts.take(k), c),
        invariant
            0 < stride <= 0x7fffffff,
            ex == x1 - x0,
            ey == y1 - y0,
            dx == magnitude(ex as int),
            dy == magnitude(ey as int),
            sx == direction(ex as int),
            sy == direction(ey as int),
            major == (if dx >= dy {
                dx as int
            } else {
                dy as int
            }),
            minor == (if dx >= dy {
                dy as int
            } else {
                dx as int
            }),
            0 <= minor <= major <= 0x100000000,
            pts == line_points(x0 as int, y0 as int, x1 as int, y1 as int),
            pts.len() == major + 1,
            0 <= k <= major,
            major == 0 ==> a == 0 && b == 0,
            major > 0 && dx >= dy ==> a == k && b == aside(k, major, minor),
            major > 0 && dx < dy ==> b == k && a == aside(k, major, minor),
            0 <= a <= dx,
            0 <= b <= dy,
            x == x0 + sx * a,
            y == y0 + sy * b,
            err == (1 + b) * dx - (1 + a) * dy,
            major == 0 ==> aside(0, 1, 0) == 0,
            major > 0 ==> aside(major, major, minor) == minor,
        ensures
            band@ == with_points(old(band)@, stride as int, pts, c),
        decreases major - k,
    {
        put(band, stride, x as i128, y as i128, c);
        proof {
            assert(pts[k] == (x as int, y as int));
            let upto = pts.take(k + 1);
            assert(upto.drop_last() =~= pts.take(k));
            assert(upto.last() == pts[k]);
        }
        if x == x1 as i64 && y == y1 as i64 {
            proof {
                assert(k == major);
                assert(pts.take(k + 1) =~= pts);
            }
            break;
        }
        proof {
            if dx >= dy {
                lemma_line_step(k, major, minor, b, err as int);
                lemma_aside_bounded(k + 1, major, minor);
            } else {
                assert(-err == (1 + a) * major - (1 + k) * minor);
                lemma_line_step(k, major, minor, a, -err as int);
                lemma_aside_bounded(k + 1, major, minor);
            }
        }
        let e2 = 2 * err;
        if e2 > -dy {
            err = err - dy;
            x = x + sx;
            proof {
                a = a + 1;
            }
        }
        if e2 < dx {
            err = err + dx;
            y = y + sy;
            proof {
                b = b + 1;
            }
        }
        proof {
            k = k + 1;
        }
    }
}

proof fn lemma_aside_bounded(k: int, major: int, minor: int)
    requires
        0 <= k <= major,
        0 < major,
        0 <= minor,
    ensures
        0 <= aside(k, major, minor) <= minor,
{
    lemma_aside(k, major, minor);
    let a = aside(k, major, minor);
    if a > minor {
        assert(2 * k * minor <= 2 * major * minor) by (nonlinear_arith)
            requires
                k <= major,
                minor >= 0,
        ;
        assert(2 * a * major >= 2 * minor * major + 2 * major) by (nonlinear_arith)
            requires
                a >= minor + 1,
                major > 0,
        ;
        assert(2 * major * minor == 2 * minor * major) by (nonlinear_arith);
    }
}

/// A point is two bytes, the high one first; points follow each other along a row, and rows
/// follow each other.
pub proof fn law_high_byte_first(b: Seq<u8>, stride: int, x: int, y: int, c: u16)
    requires
        stride > 0,
        0 <= x < stride,
        0 <= y,
        (y * stride + x) * 2 + 1 < b.len(),
        y < b.len() / (stride * 2) as nat,
    ensures
        ({
            let w = with_point(b, stride, x, y, c);
            let at = (y * stride + x) * 2;
            &&& w[at] == (c / 256) as u8
            &&& w[at + 1] == (c % 256) as u8
            &&& forall|k: int| 0 <= k < b.len() && k != at && k != at + 1 ==> #[trigger] w[k] == b[k]
        }),
{
    lemma_offset(b.len() as int, stride, x, y);
}

/// What lies outside a band is left out.
pub proof fn law_outside_is_left_out(b: Seq<u8>, stride: int, x: int, y: int, c: u16)
    requires
        x < 0 || x >= stride || y < 0 || y >= b.len() as int / (stride * 2),
    ensures
        with_point(b, stride, x, y, c) == b,
{
}

/// A rectangle is all points between its edges and no others.
pub proof fn law_rectangle(x: int, y: int, rw: nat, rh: nat, p: int, q: int)
    requires
        rw > 0,
    ensures
        rect_points(x, y, rw, rh).contains((p, q)) <==> x <= p < x + rw && y <= q < y + rh,
{
    let pts = rect_points(x, y, rw, rh);
    let w = rw as int;
    if x <= p < x + rw && y <= q < y + rh {
        let k = (q - y) * w + (p - x);
        assert(0 <= k < w * rh && k % w == p - x && k / w == q - y) by (nonlinear_arith)
            requires
                k == (q - y) * w + (p - x),
                0 <= p - x < w,
                0 <= q - y < rh,
        ;
        assert(pts[k] == (p, q));
    }
    if pts.contains((p, q)) {
        let k = choose|k: int| 0 <= k < pts.len() && pts[k] == (p, q);
        assert(0 <= k % w < w && 0 <= k / w < rh) by (nonlinear_arith)
            requires
                0 <= k < w * rh,
                w > 0,
        ;
    }
}

/// Every point of a line lies as near to the straight line between its ends as a point can,
/// and the line goes one step along its longer way from point to point.
pub proof fn law_line_is_straight(x0: int, y0: int, x1: int, y1: int, k: int)
    requires
        0 <= k < line_points(x0, y0, x1, y1).len(),
        x0 != x1 || y0 != y1,
    ensures
        ({
            let (x, y) = line_points(x0, y0, x1, y1)[k];
            let dx = magnitude(x1 - x0);
            let dy = magnitude(y1 - y0);
            let a = magnitude(x - x0);
            let b = magnitude(y - y0);
            &&& dx >= dy ==> a == k && 2 * k * dy - dx <= 2 * b * dx <= 2 * k * dy + dx
            &&& dx < dy ==> b == k && 2 * k * dx - dy <= 2 * a * dy <= 2 * k * dx + dy
            &&& line_points(x0, y0, x1, y1).len() == 1 + if dx >= dy {
                dx
            } else {
                dy
            }
        }),
{
    let dx = magnitude(x1 - x0);
    let dy = magnitude(y1 - y0);
    if dx >= dy {
        lemma_aside(k, dx, dy);
        let b = aside(k, dx, dy);
        assert(magnitude(direction(x1 - x0) * k) == k);
        assert(magnitude(direction(y1 - y0) * b) == b);
    } else {
        lemma_aside(k, dy, dx);
        let a = aside(k, dy, dx);
        assert(magnitude(direction(x1 - x0) * a) == a);
        assert(magnitude(direction(y1 - y0) * k) == k);
    }
}

/// A text is drawn where it is asked for, two rows below the top of its band.
pub proof fn law_text_is_moved(pixels: Seq<(i32, i32)>, shift: int, i: int)
    requires
        0 <= i < pixels.len(),
    ensures
        moved(pixels, shift).len() == pixels.len(),
        moved(pixels, shift)[i] == (pixels[i].0 + shift, pixels[i].1 + 2),
{
}

} // verus!
