//! The program's icon: a dark rounded square, two brackets, and two overlapping
//! dots with a bright lens where they meet.
//!
//! The drawing is on a square of 512 units. Each pixel is sampled at sixteen points.
//! All lengths are kept in units times the size of the icon, where every sample
//! point is a whole number.

use vstd::prelude::*;

verus! {

/// A colour: red, green and blue.
#[derive(Clone, Copy, Debug, PartialEq, Eq, Structural)]
pub struct Rgb {
    pub r: u8,
    pub g: u8,
    pub b: u8,
}

/// The place of sample point `s` of four in pixel `p`.
pub open spec fn place(p: int, s: int) -> int {
    (8 * p + 2 * s + 1) * 64
}

/// `(x, y)` lies within `r` of `(cx, cy)`.
pub open spec fn in_disc(size: int, x: int, y: int, cx: int, cy: int, r: int) -> bool {
    let dx = x - cx * size;
    let dy = y - cy * size;
    dx * dx + dy * dy <= r * size * (r * size)
}

/// How far `v` is outside of `lo` to `hi`.
pub open spec fn outside(v: int, lo: int, hi: int) -> int {
    if v < lo {
        lo - v
    } else if v > hi {
        v - hi
    } else {
        0
    }
}

/// `(x, y)` lies within `r` of the box from `(x0, y0)` to `(x1, y1)`.
pub open spec fn near_box(
    size: int,
    x: int,
    y: int,
    x0: int,
    y0: int,
    x1: int,
    y1: int,
    r: int,
) -> bool {
    let dx = outside(x, x0 * size, x1 * size);
    let dy = outside(y, y0 * size, y1 * size);
    dx * dx + dy * dy <= r * size * (r * size)
}

/// The two brackets: strokes 28 wide with round ends.
pub open spec fn on_brackets(size: int, x: int, y: int) -> bool {
    ||| near_box(size, x, y, 96, 148, 150, 148, 14)
    ||| near_box(size, x, y, 96, 148, 96, 364, 14)
    ||| near_box(size, x, y, 96, 364, 150, 364, 14)
    ||| near_box(size, x, y, 362, 148, 416, 148, 14)
    ||| near_box(size, x, y, 416, 148, 416, 364, 14)
    ||| near_box(size, x, y, 362, 364, 416, 364, 14)
}

/// The rounded square: its corners have a radius of 112.
pub open spec fn in_square(size: int, x: int, y: int) -> bool {
    near_box(size, x, y, 112, 112, 400, 400, 112)
}

/// The colour at a point, if there is any. What is drawn later lies on top.
pub open spec fn colour_at(size: int, x: int, y: int, with_bg: bool) -> Option<Rgb> {
    let purple = in_disc(size, x, y, 196, 256, 82);
    let yellow = in_disc(size, x, y, 316, 256, 82);
    if purple && yellow {
        Some(Rgb { r: 244, g: 247, b: 250 })
    } else if yellow {
        Some(Rgb { r: 255, g: 214, b: 10 })
    } else if purple {
        Some(Rgb { r: 139, g: 92, b: 246 })
    } else if on_brackets(size, x, y) {
        Some(Rgb { r: 232, g: 236, b: 243 })
    } else if with_bg && in_square(size, x, y) {
        Some(Rgb { r: 18, g: 18, b: 24 })
    } else {
        None
    }
}

/// What some sample points of a pixel add up to.
pub struct Mix {
    pub r: nat,
    pub g: nat,
    pub b: nat,
    /// How many of them are covered.
    pub n: nat,
}

/// What the first `k` of the sixteen sample points of a pixel add up to.
pub open spec fn mixed(size: int, x: int, y: int, with_bg: bool, k: nat) -> Mix
    decreases k,
{
    if k == 0 {
        Mix { r: 0, g: 0, b: 0, n: 0 }
    } else {
        let m = mixed(size, x, y, with_bg, (k - 1) as nat);
        match colour_at(size, place(x, (k - 1) % 4), place(y, (k - 1) / 4), with_bg) {
            Some(c) => Mix {
                r: m.r + c.r as nat,
                g: m.g + c.g as nat,
                b: m.b + c.b as nat,
                n: m.n + 1,
            },
            None => m,
        }
    }
}

/// A mean, rounded to the nearest, half up; 0 of nothing.
pub open spec fn mean(sum: nat, n: nat) -> int {
    if n == 0 {
        0
    } else {
        (2 * sum + n) as int / (2 * n as int)
    }
}

/// A pixel: its colour, and how much of it is covered.
pub open spec fn pixel(size: int, x: int, y: int, with_bg: bool) -> Seq<u8> {
    let m = mixed(size, x, y, with_bg, 16);
    seq![
        mean(m.r, m.n) as u8,
        mean(m.g, m.n) as u8,
        mean(m.b, m.n) as u8,
        mean((m.n * 255) as nat, 16) as u8,
    ]
}

/// The icon is at most this large.
pub const MAX_SIZE: u32 = 32_767;

fn square(v: i64) -> (r: i64)
    requires
        -0x7FFF_FFFF <= v <= 0x7FFF_FFFF,
    ensures
        r == v * v,
        0 <= r <= 0x3FFF_FFFF_0000_0001,
{
    assert(0 <= v * v <= 0x7FFF_FFFF * 0x7FFF_FFFF) by (nonlinear_arith)
        requires
            -0x7FFF_FFFF <= v <= 0x7FFF_FFFF,
    ;
    v * v
}

fn disc(size: i64, x: i64, y: i64, cx: i64, cy: i64, r: i64) -> (res: bool)
    requires
        0 <= size <= MAX_SIZE,
        0 <= x <= 0x1000_0000,
        0 <= y <= 0x1000_0000,
        0 <= cx <= 512,
        0 <= cy <= 512,
        0 <= r <= 512,
    ensures
        res == in_disc(size as int, x as int, y as int, cx as int, cy as int, r as int),
{
    assert(0 <= cx * size <= 512 * 32_767 && 0 <= cy * size <= 512 * 32_767 && 0 <= r * size <= 512
        * 32_767) by (nonlinear_arith)
        requires
            0 <= size <= 32_767,
            0 <= cx <= 512,
            0 <= cy <= 512,
            0 <= r <= 512,
    ;
    square(x - cx * size) + square(y - cy * size) <= square(r * size)
}

fn outside_of(v: i64, lo: i64, hi: i64) -> (r: i64)
    requires
        0 <= v <= 0x1000_0000,
        0 <= lo <= 0x1000_0000,
        0 <= hi <= 0x1000_0000,
    ensures
        r == outside(v as int, lo as int, hi as int),
        0 <= r <= 0x1000_0000,
{
    if v < lo {
        lo - v
    } else if v > hi {
        v - hi
    } else {
        0
    }
}

fn near(size: i64, x: i64, y: i64, x0: i64, y0: i64, x1: i64, y1: i64, r: i64) -> (res: bool)
    requires
        0 <= size <= MAX_SIZE,
        0 <= x <= 0x1000_0000,
        0 <= y <= 0x1000_0000,
        0 <= x0 <= 512,
        0 <= y0 <= 512,
        0 <= x1 <= 512,
        0 <= y1 <= 512,
        0 <= r <= 512,
    ensures
        res == near_box(
            size as int,
            x as int,
            y as int,
            x0 as int,
            y0 as int,
            x1 as int,
            y1 as int,
            r as int,
        ),
{
    assert(0 <= x0 * size <= 512 * 32_767 && 0 <= y0 * size <= 512 * 32_767) by (nonlinear_arith)
        requires
            0 <= size <= 32_767,
            0 <= x0 <= 512,
            0 <= y0 <= 512,
    ;
    assert(0 <= x1 * size <= 512 * 32_767 && 0 <= y1 * size <= 512 * 32_767) by (nonlinear_arith)
        requires
            0 <= size <= 32_767,
            0 <= x1 <= 512,
            0 <= y1 <= 512,
    ;
    assert(0 <= r * size <= 512 * 32_767) by (nonlinear_arith)
        requires
            0 <= size <= 32_767,
            0 <= r <= 512,
    ;
    let dx: i64 = outside_of(x, x0 * size, x1 * size);
    let dy: i64 = outside_of(y, y0 * size, y1 * size);
    square(dx) + square(dy) <= square(r * size)
}

fn brackets(size: i64, x: i64, y: i64) -> (res: bool)
    requires
        0 <= size <= MAX_SIZE,
        0 <= x <= 0x1000_0000,
        0 <= y <= 0x1000_0000,
    ensures
        res == on_brackets(size as int, x as int, y as int),
{
    near(size, x, y, 96, 148, 150, 148, 14) || near(size, x, y, 96, 148, 96, 364, 14) || near(
        size,
        x,
        y,
        96,
        364,
        150,
        364,
        14,
    ) || near(size, x, y, 362, 148, 416, 148, 14) || near(size, x, y, 416, 148, 416, 364, 14)
        || near(size, x, y, 362, 364, 416, 364, 14)
}

fn sample(size: i64, x: i64, y: i64, with_bg: bool) -> (r: Option<Rgb>)
    requires
        0 <= size <= MAX_SIZE,
        0 <= x <= 0x1000_0000,
        0 <= y <= 0x1000_0000,
    ensures
        r == colour_at(size as int, x as int, y as int, with_bg),
{
    let purple = disc(size, x, y, 196, 256, 82);
    let yellow = disc(size, x, y, 316, 256, 82);
    if purple && yellow {
        Some(Rgb { r: 244, g: 247, b: 250 })
    } else if yellow {
        Some(Rgb { r: 255, g: 214, b: 10 })
    } else if purple {
        Some(Rgb { r: 139, g: 92, b: 246 })
    } else if brackets(size, x, y) {
        Some(Rgb { r: 232, g: 236, b: 243 })
    } else if with_bg && near(size, x, y, 112, 112, 400, 400, 112) {
        Some(Rgb { r: 18, g: 18, b: 24 })
    } else {
        None
    }
}

fn mean_of(sum: u32, n: u32) -> (r: u8)
    requires
        n <= 16,
        sum <= 255 * n,
    ensures
        r == mean(sum as nat, n as nat),
{
    if n == 0 {
        0
    } else {
        let q: u32 = (2 * sum + n) / (2 * n);
        assert(q <= 255) by (nonlinear_arith)
            requires
                q == (2 * sum + n) / (2 * n),
                sum <= 255 * n,
                n > 0,
        ;
        q as u8
    }
}

/// The bytes of pixel `i`, counted along the rows.
pub open spec fn shows(out: Seq<u8>, size: int, with_bg: bool, i: int) -> bool {
    out.subrange(4 * i, 4 * i + 4) == pixel(size, i % size, i / size, with_bg)
}

/// The icon: `size` rows of `size` pixels, four bytes each, red, green, blue and how
/// much is covered. Without `with_bg` dots and brackets stand on nothing.
pub fn rgba(size: u32, with_bg: bool) -> (r: Vec<u8>)
    requires
        size <= MAX_SIZE,
    ensures
        r@.len() == 4 * size * size,
        forall|i: int| 0 <= i < size * size ==> #[trigger] shows(r@, size as int, with_bg, i),
{
    let mut out: Vec<u8> = Vec::new();
    assert(0 <= size * size <= 32_767 * 32_767) by (nonlinear_arith)
        requires
            0 <= size <= 32_767,
    ;
    let n: u32 = size * size;
    let mut i: u32 = 0;
    while i < n
        invariant
            size <= MAX_SIZE,
            n == size * size,
            n <= 1_073_676_289,
            i <= n,
            out@.len() == 4 * i,
            forall|j: int| 0 <= j < i ==> #[trigger] shows(out@, size as int, with_bg, j),
        decreases n - i,
    {
        assert(size > 0) by (nonlinear_arith)
            requires
                n == size * size,
                n > 0,
                size >= 0,
        ;
        let x: i64 = (i % size) as i64;
        let y: i64 = (i / size) as i64;
        assert(y < size) by (nonlinear_arith)
            requires
                i < size * size,
                size > 0,
                y == i / size,
        ;
        let mut r: u32 = 0;
        let mut g: u32 = 0;
        let mut b: u32 = 0;
        let mut covered: u32 = 0;
        let mut k: i64 = 0;
        while k < 16
            invariant
                0 <= k <= 16,
                0 <= x < size <= MAX_SIZE,
                0 <= y < size,
                covered <= k,
                r <= 255 * covered,
                g <= 255 * covered,
                b <= 255 * covered,
                mixed(size as int, x as int, y as int, with_bg, k as nat) == (Mix {
                    r: r as nat,
                    g: g as nat,
                    b: b as nat,
                    n: covered as nat,
                }),
            decreases 16 - k,
        {
            let px: i64 = (8 * x + 2 * (k % 4) + 1) * 64;
            let py: i64 = (8 * y + 2 * (k / 4) + 1) * 64;
            match sample(size as i64, px, py, with_bg) {
                Some(c) => {
                    r = r + c.r as u32;
                    g = g + c.g as u32;
                    b = b + c.b as u32;
                    covered = covered + 1;
                },
                None => {},
            }
            k = k + 1;
        }
        let ghost before = out@;
        out.push(mean_of(r, covered));
        out.push(mean_of(g, covered));
        out.push(mean_of(b, covered));
        let alpha: u32 = (2 * (covered * 255) + 16) / 32;
        out.push(alpha as u8);
        i = i + 1;
        proof {
            assert forall|j: int| 0 <= j < i implies #[trigger] shows(
                out@,
                size as int,
                with_bg,
                j,
            ) by {
                if j < i - 1 {
                    assert(shows(before, size as int, with_bg, j));
                    assert(out@.subrange(4 * j, 4 * j + 4) =~= before.subrange(4 * j, 4 * j + 4));
                } else {
                    assert(out@.subrange(4 * j, 4 * j + 4) =~= pixel(
                        size as int,
                        x as int,
                        y as int,
                        with_bg,
                    ));
                }
            }
        }
    }
    assert(4 * n == 4 * size * size) by (nonlinear_arith)
        requires
            n == size * size,
    ;
    out
}

/// The drawing is the same in a mirror: brackets and square look alike from both sides.
pub proof fn law_drawing_is_symmetric(size: int, x: int, y: int)
    requires
        size >= 0,
    ensures
        in_square(size, 512 * size - x, y) == in_square(size, x, y),
        on_brackets(size, 512 * size - x, y) == on_brackets(size, x, y),
        in_disc(size, 512 * size - x, y, 316, 256, 82) == in_disc(size, x, y, 196, 256, 82),
{
    let m = 512 * size - x;
    assert(outside(m, 112 * size, 400 * size) == outside(x, 112 * size, 400 * size));
    assert(outside(m, 96 * size, 150 * size) == outside(x, 362 * size, 416 * size));
    assert(outside(m, 362 * size, 416 * size) == outside(x, 96 * size, 150 * size));
    assert(outside(m, 96 * size, 96 * size) == outside(x, 416 * size, 416 * size));
    assert(outside(m, 416 * size, 416 * size) == outside(x, 96 * size, 96 * size));
    let a = m - 316 * size;
    let b = x - 196 * size;
    assert(a == -b);
    assert(a * a == b * b) by (nonlinear_arith)
        requires
            a == -b,
    ;
}

/// A mean is the nearest whole number: it is no more than half away, and of two as near the
/// greater.
pub proof fn law_a_mean_is_the_nearest(sum: nat, n: nat)
    requires
        n > 0,
    ensures
        -(n as int) < 2 * (mean(sum, n) * n - sum) <= n,
{
    let (s, m, q) = (sum as int, n as int, mean(sum, n));
    assert(q * (2 * m) <= 2 * s + m < (q + 1) * (2 * m)) by (nonlinear_arith)
        requires
            q == (2 * s + m) / (2 * m),
            m > 0,
            s >= 0,
    ;
    assert(2 * (q * m) == q * (2 * m) && (q + 1) * (2 * m) == q * (2 * m) + 2 * m)
        by (nonlinear_arith);
}

/// The sixteen points lie evenly within their pixel, and the points of a mirrored pixel are
/// the mirrored points.
pub proof fn law_points_lie_evenly(size: int, p: int, s: int)
    requires
        0 <= s < 4,
        0 <= p < size,
    ensures
        512 * p < place(p, s) < 512 * (p + 1),
        s < 3 ==> place(p, s + 1) - place(p, s) == 128,
        place(p, 0) - 512 * p == 64,
        place(size - 1 - p, 3 - s) == 512 * size - place(p, s),
{
}

proof fn lemma_mirror(size: int, v: int, lo: int, hi: int)
    requires
        lo <= hi,
        size >= 0,
    ensures
        outside(512 * size - v, lo * size, hi * size) == outside(
            v,
            (512 - hi) * size,
            (512 - lo) * size,
        ),
{
    assert((512 - hi) * size == 512 * size - hi * size && (512 - lo) * size == 512 * size - lo
        * size) by (nonlinear_arith);
    assert(lo * size <= hi * size) by (nonlinear_arith)
        requires
            lo <= hi,
            size >= 0,
    ;
}

/// The icon's frame is the same seen in a mirror, from the side and from above, and the two
/// dots change places: where one of them is, the other is in the mirror.
pub proof fn law_the_icon_is_symmetric(size: int, x: int, y: int)
    requires
        size >= 0,
    ensures
        on_brackets(size, 512 * size - x, y) == on_brackets(size, x, y),
        on_brackets(size, x, 512 * size - y) == on_brackets(size, x, y),
        in_square(size, 512 * size - x, y) == in_square(size, x, y),
        in_square(size, x, 512 * size - y) == in_square(size, x, y),
        in_disc(size, 512 * size - x, y, 196, 256, 82) == in_disc(size, x, y, 316, 256, 82),
        in_disc(size, x, 512 * size - y, 196, 256, 82) == in_disc(size, x, y, 196, 256, 82),
{
    lemma_mirror(size, x, 96, 150);
    lemma_mirror(size, x, 96, 96);
    lemma_mirror(size, x, 362, 416);
    lemma_mirror(size, x, 416, 416);
    lemma_mirror(size, x, 112, 400);
    lemma_mirror(size, y, 148, 148);
    lemma_mirror(size, y, 364, 364);
    lemma_mirror(size, y, 148, 364);
    lemma_mirror(size, y, 112, 400);
    let (a, b) = (512 * size - x - 196 * size, x - 316 * size);
    assert(a == -b);
    assert(a * a == b * b) by (nonlinear_arith)
        requires
            a == -b,
    ;
    let (c, d) = (512 * size - y - 256 * size, y - 256 * size);
    assert(c == -d);
    assert(c * c == d * d) by (nonlinear_arith)
        requires
            c == -d,
    ;
}

/// A pixel none of whose points is covered is empty, and one all of whose points are covered
/// is full.
pub proof fn law_cover_goes_from_none_to_all(size: int, x: int, y: int, with_bg: bool)
    ensures
        ({
            let m = mixed(size, x, y, with_bg, 16);
            let p = pixel(size, x, y, with_bg);
            &&& m.n == 0 ==> p[3] == 0
            &&& m.n == 16 ==> p[3] == 255
            &&& m.n <= 16
        }),
{
    lemma_cover(size, x, y, with_bg, 16);
}

proof fn lemma_cover(size: int, x: int, y: int, with_bg: bool, k: nat)
    ensures
        mixed(size, x, y, with_bg, k).n <= k,
    decreases k,
{
    if k > 0 {
        lemma_cover(size, x, y, with_bg, (k - 1) as nat);
    }
}

} // verus!
