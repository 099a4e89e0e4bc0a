//! The pixel side of rendering a sheet: a BGRA raster, the rectangles drawn
//! into it, the photo copied into each placement and the cutting frame drawn
//! around it.
//!
//! Positions arrive here already in whole device pixels; everything below
//! works on those integers only.

use vstd::prelude::*;
use crate::mask::lemma_index_in_grid;
use crate::resample::ImageBuf;

verus! {

/// A BGRA raster, top-down, 4 bytes per pixel.
///
/// BGRA because that is what the Windows blitter expects from a 32-bit DIB;
/// converting once here beats converting per pixel at print time.
pub struct Raster {
    pub width_px: u32,
    pub height_px: u32,
    pub pixels: Vec<u8>,
}

/// Where a photo lands in the raster, in whole pixels.
#[derive(Debug, Clone, Copy, PartialEq, Eq, Structural)]
pub struct PixelRect {
    pub x: u32,
    pub y: u32,
    pub width: u32,
    pub height: u32,
}

/// The grey the cutting guides are drawn in: a 22% grey, visible on paper but
/// far enough from black that an inaccurate cut leaves no dark edge.
pub const CUT_MARK_GREY: u8 = 198;

/// What a region pass does to each byte of a pixel.
#[derive(Debug, Clone, Copy)]
pub enum PixelOp {
    /// Overwrite the whole pixel with this BGRA value.
    Fill([u8; 4]),
    /// Darken the colour channels towards this grey, never lighten; alpha
    /// stays as it is.
    Darken(u8),
}

/// Column of the pixel that byte `i` belongs to, in a raster `w` pixels wide.
pub open spec fn pixel_x(i: int, w: int) -> int {
    (i / 4) % w
}

/// Row of the pixel that byte `i` belongs to, in a raster `w` pixels wide.
pub open spec fn pixel_y(i: int, w: int) -> int {
    (i / 4) / w
}

/// First byte of pixel `(x, y)`.
pub open spec fn pixel_offset(x: int, y: int, w: int) -> int {
    (y * w + x) * 4
}

/// `a + b`, stopping at the largest `u32`.
pub open spec fn sat_add(a: int, b: int) -> int {
    if a + b > u32::MAX {
        u32::MAX as int
    } else {
        a + b
    }
}

/// `a - b`, stopping at zero.
pub open spec fn sat_sub(a: int, b: int) -> int {
    if a - b < 0 {
        0
    } else {
        a - b
    }
}

/// The new value of byte `c` of a pixel whose old value was `old`.
pub open spec fn op_byte(op: PixelOp, c: int, old: u8) -> u8 {
    match op {
        PixelOp::Fill(bgra) => bgra@[c],
        PixelOp::Darken(grey) => if c < 3 {
            if old < grey {
                old
            } else {
                grey
            }
        } else {
            old
        },
    }
}

/// Whether pixel `(x, y)` lies in the half-open box `[x0, x1) x [y0, y1)`.
pub open spec fn in_box(x: int, y: int, x0: int, x1: int, y0: int, y1: int) -> bool {
    x0 <= x < x1 && y0 <= y < y1
}

/// Whether pixel `(x, y)` lies inside placement `r`, its far edges saturating.
pub open spec fn in_rect(x: int, y: int, r: PixelRect) -> bool {
    in_box(
        x,
        y,
        r.x as int,
        sat_add(r.x as int, r.width as int),
        r.y as int,
        sat_add(r.y as int, r.height as int),
    )
}

/// Whether pixel `(x, y)` lies in the cutting frame around `at`: the band
/// `thick_x` pixels wide left and right and `thick_y` high above and below,
/// corners included, the photograph itself excluded. Empty when the
/// placement is.
pub open spec fn in_cut_frame(x: int, y: int, at: PixelRect, thick_x: int, thick_y: int) -> bool {
    at.width > 0 && at.height > 0 && in_box(
        x,
        y,
        sat_sub(at.x as int, thick_x),
        sat_add(sat_add(at.x as int, at.width as int), thick_x),
        sat_sub(at.y as int, thick_y),
        sat_add(sat_add(at.y as int, at.height as int), thick_y),
    ) && !in_rect(x, y, at)
}

/// The photo pixel, as `(column, row)`, that lands at offset `(col, row)`
/// inside a `target_w`-wide placement, turning it a quarter clockwise when
/// `rotate` is set. Coordinates past the photo's edge repeat its last pixel.
pub open spec fn source_pixel(
    col: int,
    row: int,
    target_w: int,
    photo_w: int,
    photo_h: int,
    rotate: bool,
) -> (int, int) {
    let cap = |v: int, len: int| if v < len - 1 {
        v
    } else {
        len - 1
    };
    if rotate {
        (cap(row, photo_w), cap(target_w - 1 - col, photo_h))
    } else {
        (cap(col, photo_w), cap(row, photo_h))
    }
}

/// Byte `c` of the destination pixel copied from RGBA photo pixel `(sx, sy)`:
/// red and blue swap places for BGRA, alpha is opaque.
pub open spec fn blit_byte(photo: Seq<u8>, photo_w: int, sx: int, sy: int, c: int) -> u8 {
    let si = pixel_offset(sx, sy, photo_w);
    if c == 0 {
        photo[si + 2]
    } else if c == 1 {
        photo[si + 1]
    } else if c == 2 {
        photo[si]
    } else {
        255
    }
}

proof fn lemma_pixel_coords(x: int, y: int, w: int, c: int)
    requires
        0 <= x < w,
        0 <= y,
        0 <= c < 4,
    ensures
        ((y * w + x) * 4 + c) / 4 == y * w + x,
        ((y * w + x) * 4 + c) % 4 == c,
        pixel_x((y * w + x) * 4 + c, w) == x,
        pixel_y((y * w + x) * 4 + c, w) == y,
{
    assert(0 <= y * w) by (nonlinear_arith)
        requires
            0 <= y,
            0 <= w,
    ;
    assert(((y * w + x) * 4 + c) / 4 == y * w + x);
    assert(((y * w + x) * 4 + c) % 4 == c);
    assert((y * w + x) % w == x && (y * w + x) / w == y) by (nonlinear_arith)
        requires
            0 <= x < w,
            0 <= y,
    ;
}

/// A byte index of a `w * h` raster belongs to a pixel inside it, and that
/// pixel's bytes start at `pixel_offset`.
proof fn lemma_byte_in_raster(i: int, w: int, h: int)
    requires
        0 <= i < w * h * 4,
        w >= 0,
        h >= 0,
    ensures
        w > 0,
        0 <= pixel_x(i, w) < w,
        0 <= pixel_y(i, w) < h,
        i == pixel_offset(pixel_x(i, w), pixel_y(i, w), w) + i % 4,
{
    assert(w > 0) by (nonlinear_arith)
        requires
            0 <= i < w * h * 4,
            w >= 0,
            h >= 0,
    ;
    let p = i / 4;
    assert(p < w * h);
    assert(p == (p / w) * w + p % w) by (nonlinear_arith)
        requires
            w > 0,
    ;
    assert(0 <= p / w < h) by (nonlinear_arith)
        requires
            0 <= p < w * h,
            w > 0,
    ;
    assert(p / w * w == (p / w) * w);
    assert((p / w) * w + p % w == p);
}

impl Raster {
    /// Four bytes per pixel, row by row.
    pub open spec fn wf(&self) -> bool {
        self.pixels.len() == self.width_px * self.height_px * 4
    }

    /// A white sheet of the given size.
    pub fn white(width_px: u32, height_px: u32) -> (r: Self)
        requires
            width_px * height_px * 4 <= usize::MAX,
        ensures
            r.width_px == width_px,
            r.height_px == height_px,
            r.wf(),
            forall|i: int| 0 <= i < r.pixels.len() ==> #[trigger] r.pixels@[i] == 0xFF,
    {
        proof {
            assert(0 <= width_px * height_px) by (nonlinear_arith)
                requires
                    0 <= width_px,
                    0 <= height_px,
            ;
        }
        let n = width_px as usize * height_px as usize * 4;
        let mut pixels: Vec<u8> = Vec::with_capacity(n);
        let mut i: usize = 0;
        while i < n
            invariant
                i <= n,
                pixels.len() == i,
                forall|j: int| 0 <= j < i ==> #[trigger] pixels@[j] == 0xFF,
            decreases n - i,
        {
            pixels.push(0xFF);
            i += 1;
        }
        Self { width_px, height_px, pixels }
    }

    /// First byte of pixel `(x, y)`.
    fn offset(&self, x: u32, y: u32) -> (o: usize)
        requires
            self.wf(),
            x < self.width_px,
            y < self.height_px,
        ensures
            o == pixel_offset(x as int, y as int, self.width_px as int),
            o + 4 <= self.pixels.len(),
    {
        proof {
            lemma_index_in_grid(x as int, y as int, self.width_px as int, self.height_px as int);
            assert((y * self.width_px + x + 1) * 4 <= self.width_px * self.height_px * 4)
                by (nonlinear_arith)
                requires
                    y * self.width_px + x + 1 <= self.width_px * self.height_px,
            ;
        }
        (y as usize * self.width_px as usize + x as usize) * 4
    }

    /// Apply `op` to pixel `(x, y)`. Out-of-bounds pixels are dropped rather
    /// than panicking, because rounding at the edge of a placement can land
    /// one pixel over.
    fn apply(&mut self, x: u32, y: u32, op: PixelOp)
        requires
            old(self).wf(),
        ensures
            final(self).wf(),
            final(self).width_px == old(self).width_px,
            final(self).height_px == old(self).height_px,
            forall|i: int|
                0 <= i < old(self).pixels.len() ==> #[trigger] final(self).pixels@[i] == if x
                    < old(self).width_px && y < old(self).height_px && pixel_offset(
                    x as int,
                    y as int,
                    old(self).width_px as int,
                ) <= i < pixel_offset(x as int, y as int, old(self).width_px as int) + 4 {
                    op_byte(op, i % 4, old(self).pixels@[i])
                } else {
                    old(self).pixels@[i]
                },
    {
        if x >= self.width_px || y >= self.height_px {
            return;
        }
        let o = self.offset(x, y);
        let ghost w = self.width_px as int;
        proof {
            lemma_pixel_coords(x as int, y as int, w, 0);
            lemma_pixel_coords(x as int, y as int, w, 1);
            lemma_pixel_coords(x as int, y as int, w, 2);
            lemma_pixel_coords(x as int, y as int, w, 3);
        }
        match op {
            PixelOp::Fill(bgra) => {
                self.pixels[o] = bgra[0];
                self.pixels[o + 1] = bgra[1];
                self.pixels[o + 2] = bgra[2];
                self.pixels[o + 3] = bgra[3];
            },
            PixelOp::Darken(grey) => {
                let b = self.pixels[o];
                self.pixels[o] = if b < grey { b } else { grey };
                let g = self.pixels[o + 1];
                self.pixels[o + 1] = if g < grey { g } else { grey };
                let r = self.pixels[o + 2];
                self.pixels[o + 2] = if r < grey { r } else { grey };
            },
        }
    }

    /// Write one pixel, dropping writes that fall outside the raster.
    fn put(&mut self, x: u32, y: u32, bgra: [u8; 4])
        requires
            old(self).wf(),
        ensures
            final(self).wf(),
            final(self).width_px == old(self).width_px,
            final(self).height_px == old(self).height_px,
            forall|i: int|
                0 <= i < old(self).pixels.len() ==> #[trigger] final(self).pixels@[i] == if x
                    < old(self).width_px && y < old(self).height_px && pixel_offset(
                    x as int,
                    y as int,
                    old(self).width_px as int,
                ) <= i < pixel_offset(x as int, y as int, old(self).width_px as int) + 4 {
                    bgra@[i % 4]
                } else {
                    old(self).pixels@[i]
                },
    {
        self.apply(x, y, PixelOp::Fill(bgra));
    }

    /// Apply `op` to every pixel of the box `[x0, x1) x [y0, y1)` that lies
    /// inside the raster.
    pub fn apply_box(&mut self, x0: u32, x1: u32, y0: u32, y1: u32, op: PixelOp)
        requires
            old(self).wf(),
        ensures
            final(self).wf(),
            final(self).width_px == old(self).width_px,
            final(self).height_px == old(self).height_px,
            forall|i: int|
                0 <= i < old(self).pixels.len() ==> #[trigger] final(self).pixels@[i] == if in_box(
                    pixel_x(i, old(self).width_px as int),
                    pixel_y(i, old(self).width_px as int),
                    x0 as int,
                    x1 as int,
                    y0 as int,
                    y1 as int,
                ) {
                    op_byte(op, i % 4, old(self).pixels@[i])
                } else {
                    old(self).pixels@[i]
                },
    {
        let ghost old_px = self.pixels@;
        let ghost w = self.width_px as int;
        let ghost h = self.height_px as int;
        let ye = if y1 < self.height_px { y1 } else { self.height_px };
        let xe = if x1 < self.width_px { x1 } else { self.width_px };
        let mut y = y0;
        while y < ye
            invariant
                self.wf(),
                self.width_px == w,
                self.height_px == h,
                self.pixels.len() == old_px.len(),
                old_px.len() == w * h * 4,
                ye <= h,
                ye <= y1,
                xe <= w,
                xe <= x1,
                xe == x1 || xe == w,
                ye == y1 || ye == h,
                y0 <= y,
                y >= ye ==> y == y0 || y == ye,
                forall|i: int|
                    0 <= i < old_px.len() ==> #[trigger] self.pixels@[i] == if in_box(
                        pixel_x(i, w),
                        pixel_y(i, w),
                        x0 as int,
                        x1 as int,
                        y0 as int,
                        y as int,
                    ) {
                        op_byte(op, i % 4, old_px[i])
                    } else {
                        old_px[i]
                    },
            decreases ye - y,
        {
            let mut x = x0;
            while x < xe
                invariant
                    self.wf(),
                    self.width_px == w,
                    self.height_px == h,
                    self.pixels.len() == old_px.len(),
                    old_px.len() == w * h * 4,
                    y0 <= y < ye,
                    ye <= h,
                    xe <= w,
                    xe <= x1,
                    xe == x1 || xe == w,
                    x0 <= x,
                    x >= xe ==> x == x0 || x == xe,
                    forall|i: int|
                        0 <= i < old_px.len() ==> #[trigger] self.pixels@[i] == if in_box(
                            pixel_x(i, w),
                            pixel_y(i, w),
                            x0 as int,
                            x1 as int,
                            y0 as int,
                            y as int,
                        ) || in_box(
                            pixel_x(i, w),
                            pixel_y(i, w),
                            x0 as int,
                            x as int,
                            y as int,
                            y + 1,
                        ) {
                            op_byte(op, i % 4, old_px[i])
                        } else {
                            old_px[i]
                        },
                decreases xe - x,
            {
                let ghost before = self.pixels@;
                self.apply(x, y, op);
                proof {
                    assert forall|i: int| 0 <= i < old_px.len() implies #[trigger] self.pixels@[i]
                        == if in_box(
                        pixel_x(i, w),
                        pixel_y(i, w),
                        x0 as int,
                        x1 as int,
                        y0 as int,
                        y as int,
                    ) || in_box(pixel_x(i, w), pixel_y(i, w), x0 as int, x + 1, y as int, y + 1) {
                        op_byte(op, i % 4, old_px[i])
                    } else {
                        old_px[i]
                    } by {
                        lemma_byte_in_raster(i, w, h);
                        let o = pixel_offset(x as int, y as int, w);
                        if o <= i < o + 4 {
                            lemma_pixel_coords(x as int, y as int, w, i - o);
                        } else {
                            if pixel_x(i, w) == x && pixel_y(i, w) == y {
                                assert(i == o + i % 4);
                            }
                        }
                    }
                }
                x += 1;
            }
            proof {
                assert forall|i: int| 0 <= i < old_px.len() implies #[trigger] self.pixels@[i]
                    == if in_box(
                    pixel_x(i, w),
                    pixel_y(i, w),
                    x0 as int,
                    x1 as int,
                    y0 as int,
                    y + 1,
                ) {
                    op_byte(op, i % 4, old_px[i])
                } else {
                    old_px[i]
                } by {
                    lemma_byte_in_raster(i, w, h);
                }
            }
            y += 1;
        }
        proof {
            assert forall|i: int| 0 <= i < old_px.len() implies #[trigger] self.pixels@[i]
                == if in_box(
                pixel_x(i, w),
                pixel_y(i, w),
                x0 as int,
                x1 as int,
                y0 as int,
                y1 as int,
            ) {
                op_byte(op, i % 4, old_px[i])
            } else {
                old_px[i]
            } by {
                lemma_byte_in_raster(i, w, h);
            }
        }
    }
}

/// Byte `i` of a `w`-wide raster after drawing the cutting frame around
/// `at`: colour channels inside the frame darkened to at most
/// [`CUT_MARK_GREY`], everything else untouched.
pub open spec fn cut_frame_byte(old: Seq<u8>, i: int, w: int, at: PixelRect, thick_x: int, thick_y: int) -> u8 {
    if in_cut_frame(pixel_x(i, w), pixel_y(i, w), at, thick_x, thick_y) {
        op_byte(PixelOp::Darken(CUT_MARK_GREY), i % 4, old[i])
    } else {
        old[i]
    }
}

/// Byte `i` of a `w`-wide raster after copying `photo` into placement `at`.
pub open spec fn blit_result(old: Seq<u8>, i: int, w: int, photo: ImageBuf, at: PixelRect, rotate: bool) -> u8 {
    let x = pixel_x(i, w);
    let y = pixel_y(i, w);
    if photo.width > 0 && photo.height > 0 && in_rect(x, y, at) {
        let (sx, sy) = source_pixel(
            x - at.x,
            y - at.y,
            at.width as int,
            photo.width as int,
            photo.height as int,
            rotate,
        );
        blit_byte(photo.pixels@, photo.width as int, sx, sy, i % 4)
    } else {
        old[i]
    }
}

/// A placement shows the photo upright, or turned a quarter clockwise when
/// `rotate` is set, and never mirrored. Pixel `(col, row)` of the placement
/// shows photo pixel `(col, row)` upright; turned, it shows photo column
/// `row` and photo row `width - 1 - col`, so the photo's left edge runs
/// along the placement's top and its top edge down the right. Either way a
/// coordinate past the photo's edge repeats its last pixel, and the pixel
/// is written as BGRA: blue, green, red, then an opaque alpha.
pub proof fn law_blit_turns_without_mirroring(
    old: Seq<u8>,
    w: int,
    photo: ImageBuf,
    at: PixelRect,
    rotate: bool,
    x: int,
    y: int,
    c: int,
)
    requires
        0 <= x < w,
        0 <= y,
        0 <= c < 4,
        photo.width > 0,
        photo.height > 0,
        in_rect(x, y, at),
    ensures
        ({
            let pw = photo.width as int;
            let ph = photo.height as int;
            let col = x - at.x;
            let row = y - at.y;
            let along = if rotate {
                row
            } else {
                col
            };
            let down = if rotate {
                at.width - 1 - col
            } else {
                row
            };
            let sx = if along < pw {
                along
            } else {
                pw - 1
            };
            let sy = if down < ph {
                down
            } else {
                ph - 1
            };
            let p = (sy * pw + sx) * 4;
            blit_result(old, (y * w + x) * 4 + c, w, photo, at, rotate) == if c == 0 {
                photo.pixels@[p + 2]
            } else if c == 1 {
                photo.pixels@[p + 1]
            } else if c == 2 {
                photo.pixels@[p]
            } else {
                255u8
            }
        }),
{
    lemma_pixel_coords(x, y, w, c);
}

/// Fill placement `r` with one colour, clipped to the raster.
///
/// Used for the calibration square and for checking a layout on plain paper.
pub fn fill_placement(raster: &mut Raster, r: PixelRect, fill: [u8; 4])
    requires
        old(raster).wf(),
    ensures
        final(raster).wf(),
        final(raster).width_px == old(raster).width_px,
        final(raster).height_px == old(raster).height_px,
        forall|i: int|
            0 <= i < old(raster).pixels.len() ==> #[trigger] final(raster).pixels@[i] == if in_rect(
                pixel_x(i, old(raster).width_px as int),
                pixel_y(i, old(raster).width_px as int),
                r,
            ) {
                fill@[i % 4]
            } else {
                old(raster).pixels@[i]
            },
{
    raster.apply_box(r.x, r.x.saturating_add(r.width), r.y, r.y.saturating_add(r.height), PixelOp::Fill(fill));
}

/// Draw a cutting frame immediately outside one photograph.
///
/// A closed rectangle around the picture, `thick_x` pixels wide at the sides
/// and `thick_y` high above and below, rather than lines across the sheet.
/// The band sits entirely outside the placement, so trimming along its inner
/// edge removes the guide with the waste and nothing is written over the
/// picture. Darkens towards the guide grey, never lightens.
pub fn draw_cut_frame(raster: &mut Raster, at: PixelRect, thick_x: u32, thick_y: u32)
    requires
        old(raster).wf(),
    ensures
        final(raster).wf(),
        final(raster).width_px == old(raster).width_px,
        final(raster).height_px == old(raster).height_px,
        forall|i: int|
            0 <= i < old(raster).pixels.len() ==> #[trigger] final(raster).pixels@[i]
                == cut_frame_byte(
                old(raster).pixels@,
                i,
                old(raster).width_px as int,
                at,
                thick_x as int,
                thick_y as int,
            ),
{
    if at.width == 0 || at.height == 0 {
        return;
    }
    let ghost old_px = raster.pixels@;
    let ghost w = raster.width_px as int;
    let outer_left = at.x.saturating_sub(thick_x);
    let outer_top = at.y.saturating_sub(thick_y);
    let inner_right = at.x.saturating_add(at.width);
    let inner_bottom = at.y.saturating_add(at.height);
    let outer_right = inner_right.saturating_add(thick_x);
    let outer_bottom = inner_bottom.saturating_add(thick_y);
    let op = PixelOp::Darken(CUT_MARK_GREY);
    // Top and bottom bands run the full width of the frame, so the corners
    // are filled and the rectangle closes.
    raster.apply_box(outer_left, outer_right, outer_top, at.y, op);
    raster.apply_box(outer_left, outer_right, inner_bottom, outer_bottom, op);
    // Left and right bands span only the photograph's height.
    raster.apply_box(outer_left, at.x, at.y, inner_bottom, op);
    raster.apply_box(inner_right, outer_right, at.y, inner_bottom, op);
    proof {
        assert forall|i: int| 0 <= i < old_px.len() implies #[trigger] raster.pixels@[i]
            == cut_frame_byte(old_px, i, w, at, thick_x as int, thick_y as int) by {
            let c = i % 4;
            let g = CUT_MARK_GREY;
            let b = old_px[i];
            assert(op_byte(op, c, op_byte(op, c, b)) == op_byte(op, c, b));
        }
    }
}

/// Copy a resampled photo into one placement, turning it a quarter
/// clockwise when `rotate` is set. RGBA becomes BGRA on the way.
pub fn blit(dst: &mut Raster, photo: &ImageBuf, at: &PixelRect, rotate: bool)
    requires
        old(dst).wf(),
        photo.wf(),
        at.x + at.width <= u32::MAX,
        at.y + at.height <= u32::MAX,
    ensures
        final(dst).wf(),
        final(dst).width_px == old(dst).width_px,
        final(dst).height_px == old(dst).height_px,
        forall|i: int|
            0 <= i < old(dst).pixels.len() ==> #[trigger] final(dst).pixels@[i] == blit_result(
                old(dst).pixels@,
                i,
                old(dst).width_px as int,
                *photo,
                *at,
                rotate,
            ),
{
    if photo.width == 0 || photo.height == 0 {
        return;
    }
    let ghost old_px = dst.pixels@;
    let ghost w = dst.width_px as int;
    let ghost h = dst.height_px as int;
    let mut row: u32 = 0;
    while row < at.height
        invariant
            dst.wf(),
            dst.width_px == w,
            dst.height_px == h,
            old_px.len() == w * h * 4,
            photo.wf(),
            photo.width > 0,
            photo.height > 0,
            at.x + at.width <= u32::MAX,
            at.y + at.height <= u32::MAX,
            row <= at.height,
            forall|i: int|
                0 <= i < old_px.len() ==> #[trigger] dst.pixels@[i] == if pixel_y(i, w) < at.y
                    + row {
                    blit_result(old_px, i, w, *photo, *at, rotate)
                } else {
                    old_px[i]
                },
        decreases at.height - row,
    {
        let mut col: u32 = 0;
        while col < at.width
            invariant
                dst.wf(),
                dst.width_px == w,
                dst.height_px == h,
                old_px.len() == w * h * 4,
                photo.wf(),
                photo.width > 0,
                photo.height > 0,
                at.x + at.width <= u32::MAX,
                at.y + at.height <= u32::MAX,
                row < at.height,
                col <= at.width,
                forall|i: int|
                    0 <= i < old_px.len() ==> #[trigger] dst.pixels@[i] == if pixel_y(i, w) < at.y
                        + row || (pixel_y(i, w) == at.y + row && pixel_x(i, w) < at.x + col) {
                        blit_result(old_px, i, w, *photo, *at, rotate)
                    } else {
                        old_px[i]
                    },
            decreases at.width - col,
        {
            let sx = if rotate {
                if row < photo.width - 1 { row } else { photo.width - 1 }
            } else {
                if col < photo.width - 1 { col } else { photo.width - 1 }
            };
            let sy = if rotate {
                let back = at.width - 1 - col;
                if back < photo.height - 1 { back } else { photo.height - 1 }
            } else {
                if row < photo.height - 1 { row } else { photo.height - 1 }
            };
            proof {
                lemma_index_in_grid(sx as int, sy as int, photo.width as int, photo.height as int);
                assert((sy * photo.width + sx + 1) * 4 <= photo.width * photo.height * 4)
                    by (nonlinear_arith)
                    requires
                        sy * photo.width + sx + 1 <= photo.width * photo.height,
                ;
            }
            let si = (sy as usize * photo.width as usize + sx as usize) * 4;
            let bgra = [photo.pixels[si + 2], photo.pixels[si + 1], photo.pixels[si], 255u8];
            let ghost before = dst.pixels@;
            dst.put(at.x + col, at.y + row, bgra);
            proof {
                assert forall|i: int| 0 <= i < old_px.len() implies #[trigger] dst.pixels@[i]
                    == if pixel_y(i, w) < at.y + row || (pixel_y(i, w) == at.y + row && pixel_x(
                    i,
                    w,
                ) < at.x + col + 1) {
                    blit_result(old_px, i, w, *photo, *at, rotate)
                } else {
                    old_px[i]
                } by {
                    lemma_byte_in_raster(i, w, h);
                    let tx = (at.x + col) as int;
                    let ty = (at.y + row) as int;
                    if tx < w && ty < h {
                        let o = pixel_offset(tx, ty, w);
                        if o <= i < o + 4 {
                            lemma_pixel_coords(tx, ty, w, i - o);
                        } else if pixel_x(i, w) == tx && pixel_y(i, w) == ty {
                            assert(i == o + i % 4);
                        }
                    }
                }
            }
            col += 1;
        }
        proof {
            assert forall|i: int| 0 <= i < old_px.len() implies #[trigger] dst.pixels@[i]
                == if pixel_y(i, w) < at.y + row + 1 {
                blit_result(old_px, i, w, *photo, *at, rotate)
            } else {
                old_px[i]
            } by {
                lemma_byte_in_raster(i, w, h);
            }
        }
        row += 1;
    }
    proof {
        assert forall|i: int| 0 <= i < old_px.len() implies #[trigger] dst.pixels@[i]
            == blit_result(old_px, i, w, *photo, *at, rotate) by {
            lemma_byte_in_raster(i, w, h);
        }
    }
}


/// The cutting frame never writes over the photograph, never lightens a
/// pixel, and never touches alpha.
pub proof fn law_cut_frame_spares_the_photo(
    old: Seq<u8>,
    i: int,
    w: int,
    at: PixelRect,
    thick_x: int,
    thick_y: int,
)
    requires
        0 <= i < old.len(),
    ensures
        in_rect(pixel_x(i, w), pixel_y(i, w), at) ==> cut_frame_byte(old, i, w, at, thick_x, thick_y)
            == old[i],
        cut_frame_byte(old, i, w, at, thick_x, thick_y) <= old[i],
        i % 4 == 3 ==> cut_frame_byte(old, i, w, at, thick_x, thick_y) == old[i],
        in_cut_frame(pixel_x(i, w), pixel_y(i, w), at, thick_x, thick_y) && i % 4 < 3 ==> cut_frame_byte(
            old,
            i,
            w,
            at,
            thick_x,
            thick_y,
        ) <= CUT_MARK_GREY,
{
}

} // verus!
