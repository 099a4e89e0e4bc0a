//! Background masks: the coverage map the segmenter produces and the two
//! integer passes that consume it.
//!
//! The mask is never stored as an edited bitmap; the threshold and the
//! compositing step each read it and produce something new.

use vstd::prelude::*;

verus! {

/// A single-channel coverage map: 255 is fully subject, 0 fully background.
#[derive(Debug, Clone, PartialEq)]
pub struct AlphaMask {
    pub width: u32,
    pub height: u32,
    pub data: Vec<u8>,
}

/// What a brush stroke does to the mask.
#[derive(Debug, Clone, Copy, PartialEq, Eq, Structural)]
pub enum BrushMode {
    /// Paint subject back in, where the model cut too much away.
    Keep,
    /// Erase to background, where the model kept too much.
    Erase,
}

impl AlphaMask {
    /// One byte per texel, row by row.
    pub open spec fn wf(&self) -> bool {
        self.data.len() == self.width * self.height
    }

    /// The buffer holds at least every texel of the grid; any bytes beyond
    /// are never read.
    pub open spec fn covers(&self) -> bool {
        self.width * self.height <= self.data.len()
    }

    /// The texel at `(x, y)`, or 0 outside the mask.
    pub open spec fn texel(&self, x: int, y: int) -> u8 {
        if 0 <= x < self.width && 0 <= y < self.height {
            self.data@[y * self.width + x]
        } else {
            0
        }
    }

    /// A mask over `data`, or `None` when the buffer does not hold exactly
    /// `width * height` bytes.
    pub fn new(width: u32, height: u32, data: Vec<u8>) -> (r: Option<Self>)
        ensures
            r is Some <==> data.len() == width * height,
            r matches Some(m) ==> m.width == width && m.height == height && m.data@ == data@,
    {
        proof {
            assert(0 <= width * height <= u32::MAX * u32::MAX) by (nonlinear_arith);
        }
        if data.len() as u64 != width as u64 * height as u64 {
            return None;
        }
        Some(Self { width, height, data })
    }

    /// A mask of one uniform value.
    pub fn filled(width: u32, height: u32, value: u8) -> (m: Self)
        requires
            width * height <= usize::MAX,
        ensures
            m.width == width,
            m.height == height,
            m.data@ == Seq::new((width * height) as nat, |_i: int| value),
            m.wf(),
    {
        proof {
            assert(0 <= width * height) by (nonlinear_arith);
        }
        let n = width as usize * height as usize;
        let mut data: Vec<u8> = Vec::with_capacity(n);
        let mut i: usize = 0;
        while i < n
            invariant
                i <= n,
                data@ == Seq::new(i as nat, |_i: int| value),
            decreases n - i,
        {
            data.push(value);
            i += 1;
        }
        Self { width, height, data }
    }

    /// The texel at `(x, y)`; anything outside the mask reads as background.
    pub fn at(&self, x: u32, y: u32) -> (v: u8)
        requires
            self.covers(),
        ensures
            v == self.texel(x as int, y as int),
    {
        if x >= self.width || y >= self.height {
            return 0;
        }
        proof {
            lemma_index_in_grid(x as int, y as int, self.width as int, self.height as int);
        }
        self.data[y as usize * self.width as usize + x as usize]
    }
}

/// A row-major index stays inside a `w * h` grid.
pub proof fn lemma_index_in_grid(x: int, y: int, w: int, h: int)
    requires
        0 <= x < w,
        0 <= y < h,
    ensures
        0 <= y * w + x < w * h,
        y * w + x + 1 <= w * h,
{
    assert(y * w + x < w * h) by (nonlinear_arith)
        requires
            0 <= x < w,
            0 <= y < h,
    ;
    assert(0 <= y * w) by (nonlinear_arith)
        requires
            0 <= y,
            0 <= w,
    ;
}

/// Rounds `a / b` to the nearest integer, halves upwards, for `a >= 0`.
///
/// The mask arithmetic is done in exact integers with this rounding, so a
/// value that is exactly halfway between two bytes goes up; floating-point
/// arithmetic on the same formula can fall just short of the half and go
/// down.
pub open spec fn round_div(a: int, b: int) -> int {
    (2 * a + b) / (2 * b)
}

/// Where a coverage value lands once `threshold` is treated as the boundary.
///
/// The map sends `threshold` to the middle of the range and stretches each
/// side linearly: values below it are scaled into `0..127.5`, values at or
/// above it into `127.5..255`, rounded to the nearest byte, an exact half
/// upwards. Coverage 0 is certain background and stays 0 whatever the
/// threshold, threshold 0 included.
pub open spec fn threshold_curve(v: int, t: int) -> int {
    if v == 0 {
        0
    } else if v < t {
        round_div(255 * v, 2 * t)
    } else if t < 255 {
        round_div(255 * (255 + v - 2 * t), 2 * (255 - t))
    } else {
        255
    }
}

proof fn lemma_threshold_curve_bounds(v: int, t: int)
    requires
        0 <= v <= 255,
        0 <= t <= 255,
    ensures
        0 <= threshold_curve(v, t) <= 255,
{
    if v == 0 {
    } else if v < t {
        assert(0 <= (2 * (255 * v) + 2 * t) / (2 * (2 * t)) <= 255) by (nonlinear_arith)
            requires
                0 <= v < t,
                t <= 255,
        ;
    } else if t < 255 {
        assert(0 <= (2 * (255 * (255 + v - 2 * t)) + 2 * (255 - t)) / (2 * (2 * (255 - t)))
            <= 255) by (nonlinear_arith)
            requires
                0 <= t <= v,
                v <= 255,
                t < 255,
        ;
    }
}

/// The threshold curve for one byte.
fn threshold_byte(v: u8, t: u8) -> (r: u8)
    ensures
        r == threshold_curve(v as int, t as int),
{
    proof {
        lemma_threshold_curve_bounds(v as int, t as int);
    }
    let v32 = v as u32;
    let t32 = t as u32;
    if v32 == 0 {
        0
    } else if v32 < t32 {
        let r = (2 * (255 * v32) + 2 * t32) / (2 * (2 * t32));
        r as u8
    } else if t32 < 255 {
        let r = (2 * (255 * (255 + v32 - 2 * t32)) + 2 * (255 - t32)) / (2 * (2 * (255 - t32)));
        r as u8
    } else {
        255
    }
}

/// Push mask values away from the middle, tightening or loosening the edge.
///
/// `threshold` is the coverage treated as the boundary: raising it trims a
/// halo of background that the model left attached, lowering it recovers hair
/// the model cut away. 128 is the model's own decision and changes nothing.
pub fn apply_threshold(mask: &AlphaMask, threshold: u8) -> (r: AlphaMask)
    ensures
        r.width == mask.width,
        r.height == mask.height,
        r.data.len() == mask.data.len(),
        forall|i: int|
            0 <= i < mask.data.len() ==> #[trigger] r.data@[i] == threshold_curve(
                mask.data@[i] as int,
                threshold as int,
            ),
{
    if threshold == 128 {
        proof {
            assert forall|i: int| 0 <= i < mask.data.len() implies #[trigger] mask.data@[i]
                == threshold_curve(mask.data@[i] as int, 128) by {
                law_neutral_threshold_changes_nothing(mask.data@[i] as int);
            }
        }
        return AlphaMask { width: mask.width, height: mask.height, data: copy_bytes(&mask.data) };
    }
    let n = mask.data.len();
    let mut data: Vec<u8> = Vec::with_capacity(n);
    let mut i: usize = 0;
    while i < n
        invariant
            i <= n,
            n == mask.data.len(),
            data.len() == i,
            forall|j: int|
                0 <= j < i ==> #[trigger] data@[j] == threshold_curve(
                    mask.data@[j] as int,
                    threshold as int,
                ),
        decreases n - i,
    {
        data.push(threshold_byte(mask.data[i], threshold));
        i += 1;
    }
    AlphaMask { width: mask.width, height: mask.height, data }
}

/// A byte-for-byte copy.
fn copy_bytes(v: &Vec<u8>) -> (r: Vec<u8>)
    ensures
        r@ == v@,
{
    let mut out: Vec<u8> = Vec::with_capacity(v.len());
    let mut i: usize = 0;
    while i < v.len()
        invariant
            i <= v.len(),
            out@ == v@.subrange(0, i as int),
        decreases v.len() - i,
    {
        out.push(v[i]);
        i += 1;
        proof {
            assert(out@ =~= v@.subrange(0, i as int));
        }
    }
    proof {
        assert(out@ =~= v@);
    }
    out
}

/// Threshold 128 leaves every coverage value exactly where it was.
pub proof fn law_neutral_threshold_changes_nothing(v: int)
    requires
        0 <= v <= 255,
    ensures
        threshold_curve(v, 128) == v,
{
    if v < 128 {
        assert((2 * (255 * v) + 2 * 128int) / (2 * (2 * 128int)) == v) by (nonlinear_arith)
            requires
                0 <= v < 128,
        ;
    } else {
        assert((2 * (255 * (255 + v - 2 * 128int)) + 2 * (255 - 128int)) / (2 * (2 * (255 - 128int)))
            == v) by (nonlinear_arith)
            requires
                128 <= v <= 255,
        ;
    }
}

/// Whatever the threshold, certain background stays background and certain
/// subject stays subject.
pub proof fn law_threshold_keeps_the_extremes(t: int)
    requires
        0 <= t <= 255,
    ensures
        threshold_curve(0, t) == 0,
        threshold_curve(255, t) == 255,
{
    if t < 255 {
        assert((2 * (255 * (255 + 255 - 2 * t)) + 2 * (255 - t)) / (2 * (2 * (255 - t))) == 255)
            by (nonlinear_arith)
            requires
                0 <= t < 255,
        ;
    }
}


/// `round_div(a, b)` is the integer nearest `a / b`, an exact half going up:
/// `a / b - 1/2 <= q < a / b + 1/2`, scaled by `2 * b`.
proof fn lemma_round_div_is_nearest(a: int, b: int)
    requires
        b > 0,
    ensures
        2 * b * round_div(a, b) <= 2 * a + b,
        2 * a + b < 2 * b * round_div(a, b) + 2 * b,
{
    let q = round_div(a, b);
    vstd::arithmetic::div_mod::lemma_fundamental_div_mod(2 * a + b, 2 * b);
    vstd::arithmetic::div_mod::lemma_mod_bound(2 * a + b, 2 * b);
    assert(2 * b * q == (2 * b) * ((2 * a + b) / (2 * b)));
}

/// Each side of the threshold is stretched linearly and rounded to the
/// nearest byte, an exact half upwards: below the threshold `t`, coverage
/// `v` lands on the byte nearest `255 v / 2t`; from the threshold up, on the
/// byte nearest `255 (255 + v - 2t) / 2(255 - t)`, so `t` itself lands on
/// the middle and 255 on 255. Coverage 0 stays 0.
pub proof fn law_threshold_stretches_each_side(v: int, t: int)
    requires
        0 <= v <= 255,
        0 <= t <= 255,
    ensures
        v == 0 ==> threshold_curve(v, t) == 0,
        0 < v < t ==> 4 * t * threshold_curve(v, t) <= 510 * v + 2 * t < 4 * t * threshold_curve(
            v,
            t,
        ) + 4 * t,
        0 < v && t <= v && t < 255 ==> 4 * (255 - t) * threshold_curve(v, t) <= 510 * (255 + v - 2
            * t) + 2 * (255 - t) < 4 * (255 - t) * threshold_curve(v, t) + 4 * (255 - t),
        t == 255 && v == 255 ==> threshold_curve(v, t) == 255,
{
    if 0 < v < t {
        lemma_round_div_is_nearest(255 * v, 2 * t);
    } else if 0 < v && t <= v && t < 255 {
        lemma_round_div_is_nearest(255 * (255 + v - 2 * t), 2 * (255 - t));
    }
}

/// More coverage never comes out as less: the curve keeps the order of the
/// values it is given. From a threshold of 128 up the stretch above it is
/// steep enough that distinct values there stay distinct, and from 127 down
/// so is the stretch below it.
pub proof fn law_threshold_keeps_the_order(v1: int, v2: int, t: int)
    requires
        0 <= v1 <= v2 <= 255,
        0 <= t <= 255,
    ensures
        threshold_curve(v1, t) <= threshold_curve(v2, t),
        128 <= t <= v1 < v2 ==> threshold_curve(v1, t) < threshold_curve(v2, t),
        0 < v1 < v2 < t <= 127 ==> threshold_curve(v1, t) < threshold_curve(v2, t),
{
    law_threshold_stretches_each_side(v1, t);
    law_threshold_stretches_each_side(v2, t);
    lemma_threshold_curve_bounds(v1, t);
    lemma_threshold_curve_bounds(v2, t);
    let q1 = threshold_curve(v1, t);
    let q2 = threshold_curve(v2, t);
    if v1 == 0 {
    } else if v2 < t {
        assert(q1 <= q2) by (nonlinear_arith)
            requires
                4 * t * q1 <= 510 * v1 + 2 * t,
                510 * v2 + 2 * t < 4 * t * q2 + 4 * t,
                v1 <= v2,
                t > 0,
        ;
        if t <= 127 && v1 < v2 {
            assert(q1 < q2) by (nonlinear_arith)
                requires
                    4 * t * q1 <= 510 * v1 + 2 * t,
                    510 * v2 + 2 * t < 4 * t * q2 + 4 * t,
                    v1 < v2,
                    0 < t <= 127,
            ;
        }
    } else if t <= v1 {
        if t < 255 {
            let d = 255 - t;
            assert(q1 <= q2) by (nonlinear_arith)
                requires
                    4 * d * q1 <= 510 * (255 + v1 - 2 * t) + 2 * d,
                    510 * (255 + v2 - 2 * t) + 2 * d < 4 * d * q2 + 4 * d,
                    v1 <= v2,
                    d > 0,
            ;
            if 128 <= t && v1 < v2 {
                assert(q1 < q2) by (nonlinear_arith)
                    requires
                        4 * d * q1 <= 510 * (255 + v1 - 2 * t) + 2 * d,
                        510 * (255 + v2 - 2 * t) + 2 * d < 4 * d * q2 + 4 * d,
                        v1 < v2,
                        0 < d <= 127,
                ;
            }
        }
    } else {
        // v1 below the threshold, v2 at or above it: the first lands below
        // the middle, the second on or above it.
        assert(q1 <= 127) by (nonlinear_arith)
            requires
                4 * t * q1 <= 510 * v1 + 2 * t,
                0 < v1 < t,
        ;
        if t < 255 {
            let d = 255 - t;
            assert(q2 >= 128) by (nonlinear_arith)
                requires
                    510 * (255 + v2 - 2 * t) + 2 * d < 4 * d * q2 + 4 * d,
                    t <= v2,
                    d == 255 - t,
                    d > 0,
            ;
        }
    }
}

/// A stretched mask is interpolated, not stepped. The centre of pixel `x`
/// of a `w`-pixel row lies `(2x + 1) mw - w` halves-of-a-`w`th of a texel
/// past the centre of the mask's first texel (held to the first and last
/// centres); that puts it between texel `i` and texel `i + 1`, a fraction
/// `fx / 2w` of the way along, and likewise between rows `j` and `j + 1`
/// at `fy / 2h`. The coverage sampled there is the weighted mean of those
/// four texels, each weighted by how near the pixel centre is to it, rounded
/// to the nearest byte. A 2 by 1 mask of 0 and 255 over 4 by 1 pixels
/// samples 0, 64, 191 and 255.
pub proof fn law_stretched_mask_interpolates(m: AlphaMask, x: int, y: int, w: int, h: int)
    requires
        m.width >= 1,
        m.height >= 1,
        0 <= x < w,
        0 <= y < h,
    ensures
        ({
            let mw = m.width as int;
            let mh = m.height as int;
            let ux = (2 * x + 1) * mw - w;
            let uy = (2 * y + 1) * mh - h;
            let px = if ux < 0 {
                0
            } else if ux > (mw - 1) * (2 * w) {
                (mw - 1) * (2 * w)
            } else {
                ux
            };
            let py = if uy < 0 {
                0
            } else if uy > (mh - 1) * (2 * h) {
                (mh - 1) * (2 * h)
            } else {
                uy
            };
            let i = px / (2 * w);
            let fx = px % (2 * w);
            let j = py / (2 * h);
            let fy = py % (2 * h);
            mask_sample(m, x, y, w, h) == round_div(
                m.texel(i, j) * (2 * w - fx) * (2 * h - fy) + m.texel(i + 1, j) * fx * (2 * h - fy)
                    + m.texel(i, j + 1) * (2 * w - fx) * fy + m.texel(i + 1, j + 1) * fx * fy,
                4 * w * h,
            )
        }),
{
    let mw = m.width as int;
    let mh = m.height as int;
    let px = axis_pos(x, mw, w);
    let py = axis_pos(y, mh, h);
    assert(0 <= px <= (mw - 1) * (2 * w)) by (nonlinear_arith)
        requires
            px == axis_pos(x, mw, w),
            mw >= 1,
            w >= 1,
    ;
    assert(0 <= py <= (mh - 1) * (2 * h)) by (nonlinear_arith)
        requires
            py == axis_pos(y, mh, h),
            mh >= 1,
            h >= 1,
    ;
    lemma_axis_split(px, mw, w);
    lemma_axis_split(py, mh, h);
    let i = px / (2 * w);
    let fx = px % (2 * w);
    let j = py / (2 * h);
    let fy = py % (2 * h);
    let i1 = next_index(i, mw);
    let j1 = next_index(j, mh);
    let a = m.texel(i, j) as int;
    let b = m.texel(i1, j) as int;
    let c = m.texel(i, j1) as int;
    let dd = m.texel(i1, j1) as int;
    let b2 = m.texel(i + 1, j) as int;
    let c2 = m.texel(i, j + 1) as int;
    let d2 = m.texel(i + 1, j + 1) as int;
    if i + 1 >= mw {
        lemma_last_texel_is_exact(px, mw, w);
    }
    if j + 1 >= mh {
        lemma_last_texel_is_exact(py, mh, h);
    }
    assert(fx == 0 || (b == b2 && (fy == 0 || dd == d2)));
    assert(fy == 0 || (c == c2 && (fx == 0 || dd == d2)));
    assert(a * (2 * w - fx) * (2 * h - fy) + b * fx * (2 * h - fy) + c * (2 * w - fx) * fy + dd * fx
        * fy == a * (2 * w - fx) * (2 * h - fy) + b2 * fx * (2 * h - fy) + c2 * (2 * w - fx) * fy
        + d2 * fx * fy) by (nonlinear_arith)
        requires
            fx == 0 || (b == b2 && (fy == 0 || dd == d2)),
            fy == 0 || (c == c2 && (fx == 0 || dd == d2)),
    ;
    assert((2 * w) * (2 * h) == 4 * w * h) by (nonlinear_arith);
}

/// Position along one axis of the destination pixel `i`, in mask texels,
/// clamped to the mask and scaled by `2 * dst` so it stays an integer.
///
/// Destination pixels are sampled at their centres, `i + 0.5`, mapped into
/// the mask where the first texel's centre is at 0.5; clamping makes the edge
/// texels repeat instead of fading to zero.
pub open spec fn axis_pos(i: int, src: int, dst: int) -> int {
    let nu = (2 * i + 1) * src - dst;
    if nu < 0 {
        0
    } else if nu > (src - 1) * (2 * dst) {
        (src - 1) * (2 * dst)
    } else {
        nu
    }
}

/// The neighbouring texel index, clamped to the last one.
pub open spec fn next_index(i: int, len: int) -> int {
    if i + 1 < len {
        i + 1
    } else {
        len - 1
    }
}

/// Bilinear coverage of the mask under destination pixel `(x, y)` of a
/// `w * h` image the mask is stretched over, rounded to a byte.
///
/// Sample positions and weights are exact fractions, not floating-point
/// approximations, and an exact half rounds upwards; a single-precision
/// evaluation of the same interpolation can land one lower on such halves.
pub open spec fn mask_sample(m: AlphaMask, x: int, y: int, w: int, h: int) -> int {
    let d = 2 * w;
    let e = 2 * h;
    let px = axis_pos(x, m.width as int, w);
    let py = axis_pos(y, m.height as int, h);
    let x0 = px / d;
    let fx = px % d;
    let y0 = py / e;
    let fy = py % e;
    let x1 = next_index(x0, m.width as int);
    let y1 = next_index(y0, m.height as int);
    let n = m.texel(x0, y0) * (d - fx) * (e - fy) + m.texel(x1, y0) * fx * (e - fy) + m.texel(
        x0,
        y1,
    ) * (d - fx) * fy + m.texel(x1, y1) * fx * fy;
    round_div(n, d * e)
}

/// One colour channel with the background let in where coverage is low:
/// `bg + (subject - bg) * coverage / 255`, computed exactly and rounded to
/// the nearest byte, an exact half upwards.
pub open spec fn blend(subject: int, bg: int, coverage: int) -> int {
    round_div(bg * (255 - coverage) + subject * coverage, 255)
}

/// What byte `i` of a `w * h` RGBA buffer holds after compositing: colour
/// channels are blended towards the background by the mask, alpha and
/// anything past the image are left alone.
pub open spec fn composited(
    old: Seq<u8>,
    i: int,
    w: int,
    h: int,
    m: AlphaMask,
    bg: [u8; 3],
) -> int {
    if i < w * h * 4 && i % 4 < 3 {
        blend(old[i] as int, bg@[i % 4] as int, mask_sample(m, (i / 4) % w, (i / 4) / w, w, h))
    } else {
        old[i] as int
    }
}

proof fn lemma_axis_split(pos: int, src: int, dst: int)
    requires
        src >= 1,
        dst >= 1,
        0 <= pos <= (src - 1) * (2 * dst),
    ensures
        0 <= pos / (2 * dst) < src,
        0 <= pos % (2 * dst) < 2 * dst,
{
    assert(0 <= pos / (2 * dst) < src) by (nonlinear_arith)
        requires
            src >= 1,
            dst >= 1,
            0 <= pos <= (src - 1) * (2 * dst),
    ;
}

/// At the last texel the position sits exactly on its centre, so the
/// neighbour past the edge gets no weight.
proof fn lemma_last_texel_is_exact(pos: int, src: int, dst: int)
    requires
        src >= 1,
        dst >= 1,
        0 <= pos <= (src - 1) * (2 * dst),
        pos / (2 * dst) == src - 1,
    ensures
        pos % (2 * dst) == 0,
{
    vstd::arithmetic::div_mod::lemma_fundamental_div_mod(pos, 2 * dst);
    vstd::arithmetic::div_mod::lemma_mod_bound(pos, 2 * dst);
    assert(pos % (2 * dst) == 0) by (nonlinear_arith)
        requires
            pos == (2 * dst) * (src - 1) + pos % (2 * dst),
            pos <= (src - 1) * (2 * dst),
            pos % (2 * dst) >= 0,
    ;
}

proof fn lemma_weights(a: int, b: int, c: int, d: int, fx: int, fy: int, dd: int, ee: int)
    requires
        0 <= a <= 255,
        0 <= b <= 255,
        0 <= c <= 255,
        0 <= d <= 255,
        0 <= fx < dd,
        0 <= fy < ee,
    ensures
        0 <= a * (dd - fx) <= 255 * dd,
        0 <= b * fx <= 255 * dd,
        0 <= c * (dd - fx) <= 255 * dd,
        0 <= d * fx <= 255 * dd,
        0 <= a * (dd - fx) * (ee - fy) <= 255 * dd * ee,
        0 <= b * fx * (ee - fy) <= 255 * dd * ee,
        0 <= c * (dd - fx) * fy <= 255 * dd * ee,
        0 <= d * fx * fy <= 255 * dd * ee,
        0 <= a * (dd - fx) * (ee - fy) + b * fx * (ee - fy) + c * (dd - fx) * fy + d * fx * fy
            <= 255 * (dd * ee),
{
    assert(0 <= a * (dd - fx) <= 255 * dd) by (nonlinear_arith)
        requires
            0 <= a <= 255,
            0 <= fx < dd,
    ;
    assert(0 <= b * fx <= 255 * dd) by (nonlinear_arith)
        requires
            0 <= b <= 255,
            0 <= fx < dd,
    ;
    assert(0 <= c * (dd - fx) <= 255 * dd) by (nonlinear_arith)
        requires
            0 <= c <= 255,
            0 <= fx < dd,
    ;
    assert(0 <= d * fx <= 255 * dd) by (nonlinear_arith)
        requires
            0 <= d <= 255,
            0 <= fx < dd,
    ;
    assert(0 <= a * (dd - fx) * (ee - fy) <= 255 * dd * ee) by (nonlinear_arith)
        requires
            0 <= a <= 255,
            0 <= fx < dd,
            0 <= fy < ee,
    ;
    assert(0 <= b * fx * (ee - fy) <= 255 * dd * ee) by (nonlinear_arith)
        requires
            0 <= b <= 255,
            0 <= fx < dd,
            0 <= fy < ee,
    ;
    assert(0 <= c * (dd - fx) * fy <= 255 * dd * ee) by (nonlinear_arith)
        requires
            0 <= c <= 255,
            0 <= fx < dd,
            0 <= fy < ee,
    ;
    assert(0 <= d * fx * fy <= 255 * dd * ee) by (nonlinear_arith)
        requires
            0 <= d <= 255,
            0 <= fx < dd,
            0 <= fy < ee,
    ;
    assert(a * (dd - fx) * (ee - fy) + b * fx * (ee - fy) + c * (dd - fx) * fy + d * fx * fy
        <= 255 * (dd * ee)) by (nonlinear_arith)
        requires
            0 <= a <= 255,
            0 <= b <= 255,
            0 <= c <= 255,
            0 <= d <= 255,
            0 <= fx < dd,
            0 <= fy < ee,
    ;
}

/// Clamped, scaled position along one axis (see [`axis_pos`]).
fn axis_position(i: u32, src: u32, dst: u32) -> (p: u128)
    requires
        src >= 1,
        dst >= 1,
        i < dst,
    ensures
        p == axis_pos(i as int, src as int, dst as int),
        p <= (src - 1) * (2 * dst),
{
    proof {
        assert(0 <= (2 * i + 1) * src <= (2 * 0xffff_ffffint + 1) * 0xffff_ffffint)
            by (nonlinear_arith)
            requires
                i <= 0xffff_ffff,
                src <= 0xffff_ffff,
        ;
        assert(0 <= (src - 1) * (2 * dst) <= 0xffff_ffffint * (2 * 0xffff_ffffint))
            by (nonlinear_arith)
            requires
                1 <= src <= 0xffff_ffff,
                1 <= dst <= 0xffff_ffff,
        ;
    }
    let nu: i128 = (2 * (i as i128) + 1) * (src as i128) - (dst as i128);
    let cap: i128 = ((src as i128) - 1) * (2 * (dst as i128));
    if nu < 0 {
        0
    } else if nu > cap {
        cap as u128
    } else {
        nu as u128
    }
}

/// Bilinear coverage under one destination pixel (see [`mask_sample`]).
fn sample_stretched(m: &AlphaMask, x: u32, y: u32, w: u32, h: u32) -> (s: u8)
    requires
        m.covers(),
        m.width >= 1,
        m.height >= 1,
        x < w,
        y < h,
    ensures
        s == mask_sample(*m, x as int, y as int, w as int, h as int),
{
    let d: u128 = 2 * (w as u128);
    let e: u128 = 2 * (h as u128);
    let px = axis_position(x, m.width, w);
    let py = axis_position(y, m.height, h);
    proof {
        lemma_axis_split(px as int, m.width as int, w as int);
        lemma_axis_split(py as int, m.height as int, h as int);
    }
    let x0 = px / d;
    let fx = px % d;
    let y0 = py / e;
    let fy = py % e;
    let x1 = if x0 + 1 < m.width as u128 { x0 + 1 } else { m.width as u128 - 1 };
    let y1 = if y0 + 1 < m.height as u128 { y0 + 1 } else { m.height as u128 - 1 };
    let a00 = m.at(x0 as u32, y0 as u32) as u128;
    let a10 = m.at(x1 as u32, y0 as u32) as u128;
    let a01 = m.at(x0 as u32, y1 as u32) as u128;
    let a11 = m.at(x1 as u32, y1 as u32) as u128;
    proof {
        lemma_weights(
            a00 as int,
            a10 as int,
            a01 as int,
            a11 as int,
            fx as int,
            fy as int,
            d as int,
            e as int,
        );
        assert(d * e <= 0x2_0000_0000int * 0x2_0000_0000int) by (nonlinear_arith)
            requires
                1 <= d <= 0x2_0000_0000,
                1 <= e <= 0x2_0000_0000,
        ;
        assert(255 * d * e == 255 * (d * e)) by (nonlinear_arith);
        assert(a00 * (d - fx) * (e - fy) <= 255 * d * 0x2_0000_0000int) by (nonlinear_arith)
            requires
                0 <= a00 * (d - fx) <= 255 * d,
                0 <= e - fy <= 0x2_0000_0000,
        ;
        assert(a10 * fx * (e - fy) <= 255 * d * 0x2_0000_0000int) by (nonlinear_arith)
            requires
                0 <= a10 * fx <= 255 * d,
                0 <= e - fy <= 0x2_0000_0000,
        ;
        assert(a01 * (d - fx) * fy <= 255 * d * 0x2_0000_0000int) by (nonlinear_arith)
            requires
                0 <= a01 * (d - fx) <= 255 * d,
                0 <= fy <= 0x2_0000_0000,
        ;
        assert(a11 * fx * fy <= 255 * d * 0x2_0000_0000int) by (nonlinear_arith)
            requires
                0 <= a11 * fx <= 255 * d,
                0 <= fy <= 0x2_0000_0000,
        ;
        assert(0 <= (2 * (a00 * (d - fx) * (e - fy) + a10 * fx * (e - fy) + a01 * (d - fx) * fy
            + a11 * fx * fy) + d * e) / (2 * (d * e)) <= 255) by (nonlinear_arith)
            requires
                0 <= a00 * (d - fx) * (e - fy) + a10 * fx * (e - fy) + a01 * (d - fx) * fy + a11
                    * fx * fy <= 255 * (d * e),
                d >= 1,
                e >= 1,
        ;
    }
    let n = a00 * (d - fx) * (e - fy) + a10 * fx * (e - fy) + a01 * (d - fx) * fy + a11 * fx * fy;
    let de = d * e;
    proof {
        assert(d * e >= 1) by (nonlinear_arith)
            requires
                d >= 1,
                e >= 1,
        ;
    }
    ((2 * n + de) / (2 * de)) as u8
}

/// One colour channel blended towards the background (see [`blend`]).
fn blend_channel(subject: u8, bg: u8, coverage: u8) -> (r: u8)
    ensures
        r == blend(subject as int, bg as int, coverage as int),
{
    proof {
        assert(0 <= bg * (255 - coverage) + subject * coverage <= 255 * 255) by (nonlinear_arith)
            requires
                0 <= bg <= 255,
                0 <= subject <= 255,
                0 <= coverage <= 255,
        ;
    }
    let p = (bg as u32) * (255 - coverage as u32) + (subject as u32) * (coverage as u32);
    ((2 * p + 255) / 510) as u8
}

/// Replace the background with a flat colour, using the mask as coverage.
///
/// `rgba` is modified in place. The mask is normally much smaller than the
/// image, so it is stretched over it and sampled bilinearly; nearest neighbour
/// would show the magnification as stair-steps along the hair and chin.
pub fn composite_background(
    rgba: &mut [u8],
    width: u32,
    height: u32,
    mask: &AlphaMask,
    background: [u8; 3],
)
    requires
        mask.covers(),
        width * height * 4 <= old(rgba)@.len(),
    ensures
        final(rgba)@.len() == old(rgba)@.len(),
        (mask.width == 0 || mask.height == 0 || width == 0 || height == 0) ==> final(rgba)@
            == old(rgba)@,
        !(mask.width == 0 || mask.height == 0 || width == 0 || height == 0) ==> forall|i: int|
            0 <= i < old(rgba)@.len() ==> #[trigger] final(rgba)@[i] == composited(
                old(rgba)@,
                i,
                width as int,
                height as int,
                *mask,
                background,
            ),
{
    if mask.width == 0 || mask.height == 0 || width == 0 || height == 0 {
        return;
    }
    let ghost old_px = rgba@;
    proof {
        assert(0 <= width * height) by (nonlinear_arith)
            requires
                0 <= width,
                0 <= height,
        ;
    }
    let len = rgba.len();
    proof {
        assert(width * height <= width * height * 4);
        assert(width * height * 4 <= len);
    }
    let total = width as usize * height as usize;
    let mut p: usize = 0;
    while p < total
        invariant
            p <= total,
            total == width * height,
            total * 4 <= old_px.len(),
            len == old_px.len(),
            rgba@.len() == old_px.len(),
            mask.covers(),
            mask.width >= 1,
            mask.height >= 1,
            width >= 1,
            height >= 1,
            forall|i: int|
                0 <= i < old_px.len() ==> #[trigger] rgba@[i] == (if i < p * 4 {
                    composited(old_px, i, width as int, height as int, *mask, background)
                } else {
                    old_px[i] as int
                }),
        decreases total - p,
    {
        proof {
            assert((p as int) / (width as int) < height as int) by (nonlinear_arith)
                requires
                    0 <= p < width * height,
                    width >= 1,
            ;
        }
        let x = (p % width as usize) as u32;
        let y = (p / width as usize) as u32;
        let coverage = sample_stretched(mask, x, y, width, height);
        let base = p * 4;
        let mut c: usize = 0;
        while c < 3
            invariant
                c <= 3,
                base == p * 4,
                p < total,
                total == width * height,
                total * 4 <= old_px.len(),
                rgba@.len() == old_px.len(),
                x == (p as int) % (width as int),
                y == (p as int) / (width as int),
                coverage == mask_sample(*mask, x as int, y as int, width as int, height as int),
                forall|i: int|
                    0 <= i < old_px.len() ==> #[trigger] rgba@[i] == (if i < p * 4 || (p * 4 <= i
                        < p * 4 + c) {
                        composited(old_px, i, width as int, height as int, *mask, background)
                    } else {
                        old_px[i] as int
                    }),
            decreases 3 - c,
        {
            let i = base + c;
            let v = blend_channel(rgba[i], background[c], coverage);
            rgba[i] = v;
            proof {
                assert(i / 4 == p && i % 4 == c);
            }
            c += 1;
        }
        proof {
            assert forall|i: int| 0 <= i < old_px.len() implies #[trigger] rgba@[i] == (if i < (p
                + 1) * 4 {
                composited(old_px, i, width as int, height as int, *mask, background)
            } else {
                old_px[i] as int
            }) by {
                if i == p * 4 + 3 {
                    assert(i % 4 == 3);
                }
            }
        }
        p += 1;
    }
}


/// The strokes applied on top of an automatic mask, oldest first.
///
/// What a stroke holds (its path, radius and feather) is up to the caller;
/// the list only keeps their order, which is all that undo needs.
#[verifier::reject_recursive_types(S)]
pub struct MaskEdits<S> {
    pub strokes: Vec<S>,
}

impl<S> MaskEdits<S> {
    /// No strokes.
    pub fn new() -> (r: Self)
        ensures
            r.strokes@.len() == 0,
    {
        MaskEdits { strokes: Vec::new() }
    }

    /// Whether there is nothing to undo.
    pub fn is_empty(&self) -> (r: bool)
        ensures
            r == (self.strokes@.len() == 0),
    {
        self.strokes.len() == 0
    }

    /// Add a stroke after all the others.
    pub fn push(&mut self, stroke: S)
        ensures
            final(self).strokes@ == old(self).strokes@.push(stroke),
    {
        self.strokes.push(stroke);
    }

    /// Remove the most recent stroke and hand it back. This is the whole undo
    /// implementation.
    pub fn undo(&mut self) -> (r: Option<S>)
        ensures
            old(self).strokes@.len() == 0 ==> r is None && final(self).strokes@ == old(
                self,
            ).strokes@,
            old(self).strokes@.len() > 0 ==> r == Some(old(self).strokes@.last())
                && final(self).strokes@ == old(self).strokes@.drop_last(),
    {
        self.strokes.pop()
    }

    /// Forget every stroke.
    pub fn clear(&mut self)
        ensures
            final(self).strokes@.len() == 0,
    {
        self.strokes.clear();
    }
}

/// Undo takes back exactly the stroke that was added last, and leaves the
/// strokes as they were before it.
pub proof fn law_undo_takes_back_the_last_stroke<S>(before: Seq<S>, stroke: S)
    ensures
        before.push(stroke).len() > 0,
        before.push(stroke).last() == stroke,
        before.push(stroke).drop_last() == before,
{
    assert(before.push(stroke).drop_last() =~= before);
}

/// How many of `data` lie above `limit`.
pub open spec fn count_above(data: Seq<u8>, limit: u8) -> nat
    decreases data.len(),
{
    if data.len() == 0 {
        0
    } else {
        count_above(data.drop_last(), limit) + if data.last() > limit {
            1nat
        } else {
            0nat
        }
    }
}

/// Texels more subject than background: coverage above the midpoint 128.
pub fn subject_texels(mask: &AlphaMask) -> (n: usize)
    ensures
        n == count_above(mask.data@, 128),
{
    let mut n: usize = 0;
    let mut i: usize = 0;
    while i < mask.data.len()
        invariant
            i <= mask.data@.len(),
            n == count_above(mask.data@.take(i as int), 128),
            n <= i,
        decreases mask.data@.len() - i,
    {
        proof {
            assert(mask.data@.take(i as int + 1).drop_last() =~= mask.data@.take(i as int));
        }
        if mask.data[i] > 128 {
            n += 1;
        }
        i += 1;
    }
    proof {
        assert(mask.data@.take(i as int) =~= mask.data@);
    }
    n
}

/// The mask texel that covers pixel `(x, y)` of a `width` by `height` image,
/// by nearest-texel scaling.
pub open spec fn covering_texel(mask: AlphaMask, x: int, y: int, width: int, height: int) -> u8 {
    mask.texel(x * mask.width / width, y * mask.height / height)
}

/// Whether pixel `(x, y)` of a `width` by `height` photo is clear background:
/// its covering texel has coverage of at most 32, well away from the soft
/// edge where subject and background blend.
pub fn is_clear_background(mask: &AlphaMask, x: u32, y: u32, width: u32, height: u32) -> (r: bool)
    requires
        mask.covers(),
        x < width,
        y < height,
    ensures
        r == (covering_texel(*mask, x as int, y as int, width as int, height as int) <= 32),
{
    proof {
        assert(0 <= x * mask.width <= u32::MAX * u32::MAX) by (nonlinear_arith)
            requires
                x <= u32::MAX,
                mask.width <= u32::MAX,
        ;
        assert(0 <= y * mask.height <= u32::MAX * u32::MAX) by (nonlinear_arith)
            requires
                y <= u32::MAX,
                mask.height <= u32::MAX,
        ;
        assert((x * mask.width) / (width as int) <= mask.width) by (nonlinear_arith)
            requires
                x < width,
                0 <= mask.width,
        ;
        assert((y * mask.height) / (height as int) <= mask.height) by (nonlinear_arith)
            requires
                y < height,
                0 <= mask.height,
        ;
    }
    let mx = (x as u64 * mask.width as u64 / width as u64) as u32;
    let my = (y as u64 * mask.height as u64 / height as u64) as u32;
    mask.at(mx, my) <= 32
}


/// Full coverage keeps the subject's colour and none lets the background
/// through unchanged.
pub proof fn law_blend_at_the_extremes(subject: int, bg: int)
    requires
        0 <= subject <= 255,
        0 <= bg <= 255,
    ensures
        blend(subject, bg, 255) == subject,
        blend(subject, bg, 0) == bg,
{
    assert((2 * (bg * 0 + subject * 255) + 255) / (2 * 255int) == subject) by (nonlinear_arith)
        requires
            0 <= subject <= 255,
    ;
    assert((2 * (bg * 255 + subject * 0) + 255) / (2 * 255int) == bg) by (nonlinear_arith)
        requires
            0 <= bg <= 255,
    ;
}

/// Whether every texel of `m` holds `v`.
pub open spec fn uniform(m: AlphaMask, v: u8) -> bool {
    forall|i: int| 0 <= i < m.data@.len() ==> #[trigger] m.data@[i] == v
}

/// A uniform mask stays uniform however far it is stretched: every pixel
/// samples exactly the one value, with no fringe at the edges.
pub proof fn law_uniform_mask_samples_uniformly(m: AlphaMask, v: u8, x: int, y: int, w: int, h: int)
    requires
        m.covers(),
        m.width >= 1,
        m.height >= 1,
        uniform(m, v),
        0 <= x < w,
        0 <= y < h,
    ensures
        mask_sample(m, x, y, w, h) == v,
{
    let d = 2 * w;
    let e = 2 * h;
    let px = axis_pos(x, m.width as int, w);
    let py = axis_pos(y, m.height as int, h);
    assert(0 <= px <= (m.width - 1) * (2 * w)) by (nonlinear_arith)
        requires
            px == axis_pos(x, m.width as int, w),
            m.width >= 1,
            w >= 1,
            0 <= x < w,
    {
        assert((2 * x + 1) * m.width - w >= 0 - w);
        assert((m.width - 1) * (2 * w) >= 0);
    }
    assert(0 <= py <= (m.height - 1) * (2 * h)) by (nonlinear_arith)
        requires
            py == axis_pos(y, m.height as int, h),
            m.height >= 1,
            h >= 1,
            0 <= y < h,
    {
        assert((m.height - 1) * (2 * h) >= 0);
    }
    lemma_axis_split(px, m.width as int, w);
    lemma_axis_split(py, m.height as int, h);
    let x0 = px / d;
    let fx = px % d;
    let y0 = py / e;
    let fy = py % e;
    let x1 = next_index(x0, m.width as int);
    let y1 = next_index(y0, m.height as int);
    assert forall|a: int, b: int| 0 <= a < m.width && 0 <= b < m.height implies m.texel(a, b) == v by {
        lemma_index_in_grid(a, b, m.width as int, m.height as int);
    }
    assert(m.texel(x0, y0) == v);
    assert(m.texel(x1, y0) == v);
    assert(m.texel(x0, y1) == v);
    assert(m.texel(x1, y1) == v);
    let vi = v as int;
    assert(vi * (d - fx) * (e - fy) + vi * fx * (e - fy) + vi * (d - fx) * fy + vi * fx * fy == vi * (
    d * e)) by (nonlinear_arith);
    assert(d * e >= 1) by (nonlinear_arith)
        requires
            d >= 2,
            e >= 2,
    ;
    assert((2 * (vi * (d * e)) + d * e) / (2 * (d * e)) == vi) by (nonlinear_arith)
        requires
            d * e >= 1,
            0 <= vi,
    ;
}

/// Compositing with a mask that is all subject changes nothing, and with one
/// that is all background paints every colour channel in the background
/// colour; alpha is never touched.
pub proof fn law_composite_extremes(
    old: Seq<u8>,
    i: int,
    w: int,
    h: int,
    m: AlphaMask,
    bg: [u8; 3],
)
    requires
        m.covers(),
        m.width >= 1,
        m.height >= 1,
        w >= 1,
        h >= 1,
        0 <= i < old.len(),
    ensures
        uniform(m, 255) ==> composited(old, i, w, h, m, bg) == old[i],
        uniform(m, 0) && i < w * h * 4 && i % 4 < 3 ==> composited(old, i, w, h, m, bg) == bg@[i
            % 4],
        i % 4 == 3 ==> composited(old, i, w, h, m, bg) == old[i],
{
    if i < w * h * 4 && i % 4 < 3 {
        let p = i / 4;
        assert(0 <= p < w * h);
        assert(0 <= p % w < w) by (nonlinear_arith)
            requires
                w >= 1,
                p >= 0,
        ;
        assert(0 <= p / w < h) by (nonlinear_arith)
            requires
                w >= 1,
                0 <= p < w * h,
        ;
        law_blend_at_the_extremes(old[i] as int, bg@[i % 4] as int);
        if uniform(m, 255) {
            law_uniform_mask_samples_uniformly(m, 255, p % w, p / w, w, h);
        }
        if uniform(m, 0) {
            law_uniform_mask_samples_uniformly(m, 0, p % w, p / w, w, h);
        }
    }
}


impl<S> Default for MaskEdits<S> {
    fn default() -> (r: Self)
        ensures
            r.strokes@.len() == 0,
    {
        MaskEdits::new()
    }
}


/// Raising the threshold above neutral never adds coverage, and lowering it
/// below neutral never takes any away: the first trims an edge, the second
/// recovers faint detail, and neither can do the other's job.
pub proof fn law_threshold_moves_coverage_one_way(v: int, t: int)
    requires
        0 <= v <= 255,
        0 <= t <= 255,
    ensures
        t >= 128 ==> threshold_curve(v, t) <= v,
        t <= 128 ==> threshold_curve(v, t) >= v,
{
    if t == 128 {
        law_neutral_threshold_changes_nothing(v);
    } else if v < t {
        if t >= 128 {
            assert((2 * (255 * v) + 2 * t) / (2 * (2 * t)) <= v) by (nonlinear_arith)
                requires
                    0 <= v < t,
                    128 <= t <= 255,
            ;
        } else {
            assert((2 * (255 * v) + 2 * t) / (2 * (2 * t)) >= v) by (nonlinear_arith)
                requires
                    0 <= v < t,
                    1 <= t < 128,
            ;
        }
    } else if t < 255 {
        if t >= 128 {
            assert((2 * (255 * (255 + v - 2 * t)) + 2 * (255 - t)) / (2 * (2 * (255 - t))) <= v) by (
            nonlinear_arith)
                requires
                    128 <= t <= v,
                    v <= 255,
                    t < 255,
            ;
        } else {
            assert((2 * (255 * (255 + v - 2 * t)) + 2 * (255 - t)) / (2 * (2 * (255 - t))) >= v) by (
            nonlinear_arith)
                requires
                    0 <= t <= v,
                    v <= 255,
                    t < 128,
            ;
        }
    }
}

} // verus!
