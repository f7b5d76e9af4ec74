//! Gray8 canvas model.
//!
//! One unsigned 8-bit luma sample per pixel; rows are top-to-bottom, each
//! exactly `width` samples tightly packed; a canonical full frame is exactly
//! `width·height` bytes in that order.

use vstd::arithmetic::mul::*;
use vstd::prelude::*;

use crate::error::VoleError;
use crate::limits::Limits;

verus! {

/// Pixel format of the canvas model.
#[derive(Debug, Clone, Copy, PartialEq, Eq, Structural)]
pub enum PixelFormat {
    /// Single unsigned 8-bit luma plane.
    Gray8,
}

/// A canonical Gray8 raster buffer with declared geometry.
#[derive(Debug, PartialEq, Eq)]
pub struct Canvas {
    width: u32,
    height: u32,
    data: Vec<u8>,
}

/// `v` clamped into `[lo, hi]` (requires `lo ≤ hi`).
pub open spec fn clamp(v: int, lo: int, hi: int) -> int {
    if v < lo {
        lo
    } else if v > hi {
        hi
    } else {
        v
    }
}

/// Whether pixel `(x, y)` lies in the clipped rectangle `[x0, x1) × [y0, y1)`
/// of a `w × h` canvas (the clip of [`Canvas::fill_rect_clipped`]).
pub open spec fn in_clipped_rect(
    w: int,
    h: int,
    x0: int,
    y0: int,
    x1: int,
    y1: int,
    x: int,
    y: int,
) -> bool {
    let cx0 = clamp(x0, 0, w);
    let cy0 = clamp(y0, 0, h);
    let cx1 = clamp(x1, cx0, w);
    let cy1 = clamp(y1, cy0, h);
    cx0 <= x < cx1 && cy0 <= y < cy1
}

/// Sample `(x, y)` of a row-major raster of width `w`.
pub open spec fn px(s: Seq<u8>, w: int, x: int, y: int) -> u8 {
    s[y * w + x]
}

impl Canvas {
    #[verifier::type_invariant]
    spec fn inv(self) -> bool {
        self.data@.len() == self.width * self.height
    }

    /// Width (model).
    pub closed spec fn w(self) -> u32 {
        self.width
    }

    /// Height (model).
    pub closed spec fn h(self) -> u32 {
        self.height
    }

    /// Row-major samples (model).
    pub closed spec fn samples(self) -> Seq<u8> {
        self.data@
    }

    /// Allocate a `width × height` canvas filled with `fill`, inside the
    /// limits envelope.
    pub fn new(width: u32, height: u32, fill: u8, limits: &Limits) -> (r: Result<Self, VoleError>)
        ensures
            r is Ok <==> limits.canvas_ok(width, height) && width * height <= usize::MAX,
            r matches Ok(c) ==> c.w() == width && c.h() == height && c.samples() == Seq::new(
                (width * height) as nat,
                |i: int| fill,
            ),
            r matches Err(e) ==> e == if limits.canvas_ok(width, height) {
                VoleError::ArithmeticOverflow
            } else {
                VoleError::DimensionTooLarge
            },
    {
        limits.check_canvas(width, height)?;
        proof {
            lemma_mul_upper_bound(width as int, 0xffff_ffff, height as int, 0xffff_ffff);
        }
        let n64 = (width as u64) * (height as u64);
        if n64 > usize::MAX as u64 {
            return Err(VoleError::ArithmeticOverflow);
        }
        let n = n64 as usize;
        let mut data: Vec<u8> = Vec::new();
        let mut i = 0usize;
        while i < n
            invariant
                i <= n,
                data@ == Seq::new(i as nat, |k: int| fill),
            decreases n - i,
        {
            data.push(fill);
            proof {
                assert(data@ =~= Seq::new((i + 1) as nat, |k: int| fill));
            }
            i = i + 1;
        }
        Ok(Canvas { width, height, data })
    }

    /// Zero-filled canvas.
    pub fn zeroed(width: u32, height: u32, limits: &Limits) -> (r: Result<Self, VoleError>)
        ensures
            r is Ok <==> limits.canvas_ok(width, height) && width * height <= usize::MAX,
            r matches Ok(c) ==> c.w() == width && c.h() == height && c.samples() == Seq::new(
                (width * height) as nat,
                |i: int| 0u8,
            ),
            r matches Err(e) ==> e == if limits.canvas_ok(width, height) {
                VoleError::ArithmeticOverflow
            } else {
                VoleError::DimensionTooLarge
            },
    {
        Self::new(width, height, 0, limits)
    }

    /// Build from a row-major raster: nonzero geometry (`DimensionTooLarge`
    /// otherwise) and exactly `width · height` bytes (`LengthMismatch`).
    pub fn from_parts(width: u32, height: u32, data: Vec<u8>) -> (r: Result<Self, VoleError>)
        ensures
            r is Ok <==> width > 0 && height > 0 && data@.len() == width * height,
            r matches Ok(c) ==> c.w() == width && c.h() == height && c.samples() == data@,
            r matches Err(e) ==> e == if width == 0 || height == 0 {
                VoleError::DimensionTooLarge
            } else {
                VoleError::LengthMismatch
            },
    {
        if width == 0 || height == 0 {
            return Err(VoleError::DimensionTooLarge);
        }
        proof {
            lemma_mul_upper_bound(width as int, 0xffff_ffff, height as int, 0xffff_ffff);
        }
        let want = (width as u64) * (height as u64);
        if data.len() as u64 != want {
            return Err(VoleError::LengthMismatch);
        }
        Ok(Canvas { width, height, data })
    }

    /// Width.
    pub fn width(&self) -> (r: u32)
        ensures
            r == self.w(),
    {
        self.width
    }

    /// Height.
    pub fn height(&self) -> (r: u32)
        ensures
            r == self.h(),
    {
        self.height
    }

    /// Sample count (the byte length for Gray8).
    pub fn sample_count(&self) -> (r: u64)
        ensures
            r == self.w() * self.h(),
    {
        proof {
            lemma_mul_upper_bound(self.width as int, 0xffff_ffff, self.height as int, 0xffff_ffff);
        }
        (self.width as u64) * (self.height as u64)
    }

    /// Immutable raster.
    pub fn as_slice(&self) -> (r: &[u8])
        ensures
            r@ == self.samples(),
    {
        self.data.as_slice()
    }

    /// Read sample `(x, y)`.
    pub fn get(&self, x: u32, y: u32) -> (r: u8)
        requires
            x < self.w(),
            y < self.h(),
        ensures
            r == px(self.samples(), self.w() as int, x as int, y as int),
    {
        proof {
            use_type_invariant(self);
            lemma_pixel_index(x as int, y as int, self.width as int, self.height as int);
        }
        let _n = self.data.len();
        self.data[(y as usize) * (self.width as usize) + (x as usize)]
    }

    /// Sample-for-sample equality (geometry and bytes).
    pub fn exactly_matches(&self, other: &Canvas) -> (r: bool)
        ensures
            r <==> (self.w() == other.w() && self.h() == other.h() && self.samples()
                == other.samples()),
    {
        if self.width != other.width || self.height != other.height {
            return false;
        }
        if self.data.len() != other.data.len() {
            return false;
        }
        let mut i = 0usize;
        while i < self.data.len()
            invariant
                i <= self.data@.len(),
                self.data@.len() == other.data@.len(),
                forall|k: int| 0 <= k < i ==> self.data@[k] == other.data@[k],
            decreases self.data.len() - i,
        {
            if self.data[i] != other.data[i] {
                return false;
            }
            i = i + 1;
        }
        proof {
            assert(self.data@ =~= other.data@);
        }
        true
    }

    /// Reset the whole canvas to `colour`.
    pub fn fill_all(&mut self, colour: u8)
        ensures
            final(self).w() == old(self).w(),
            final(self).h() == old(self).h(),
            final(self).samples() == Seq::new(old(self).samples().len(), |i: int| colour),
    {
        let mut taken = Canvas::vacant();
        std::mem::swap(self, &mut taken);
        proof {
            use_type_invariant(&taken);
        }
        let Canvas { width, height, mut data } = taken;
        let n = data.len();
        let mut i = 0usize;
        while i < n
            invariant
                n == data@.len(),
                width == old(self).width,
                height == old(self).height,
                i <= n,
                forall|k: int| 0 <= k < i ==> data@[k] == colour,
            decreases n - i,
        {
            data.set(i, colour);
            i = i + 1;
        }
        proof {
            assert(data@ =~= Seq::new(old(self).samples().len(), |i: int| colour));
        }
        *self = Canvas { width, height, data };
    }

    /// Fill a clipped axis-aligned region `[x0, x1) × [y0, y1)` with
    /// `colour`; everything outside the clip keeps its sample.
    pub fn fill_rect_clipped(&mut self, colour: u8, x0: i64, y0: i64, x1: i64, y1: i64)
        ensures
            final(self).w() == old(self).w(),
            final(self).h() == old(self).h(),
            final(self).samples().len() == old(self).samples().len(),
            forall|x: int, y: int|
                0 <= x < old(self).w() && 0 <= y < old(self).h() ==> #[trigger] px(
                    final(self).samples(),
                    old(self).w() as int,
                    x,
                    y,
                ) == if in_clipped_rect(
                    old(self).w() as int,
                    old(self).h() as int,
                    x0 as int,
                    y0 as int,
                    x1 as int,
                    y1 as int,
                    x,
                    y,
                ) {
                    colour
                } else {
                    px(old(self).samples(), old(self).w() as int, x, y)
                },
    {
        let mut taken = Canvas::vacant();
        std::mem::swap(self, &mut taken);
        proof {
            use_type_invariant(&taken);
        }
        let Canvas { width, height, mut data } = taken;
        let cw = width as i64;
        let ch = height as i64;
        let cx0 = clamp_i64(x0, 0, cw);
        let cy0 = clamp_i64(y0, 0, ch);
        let cx1 = clamp_i64(x1, cx0, cw);
        let cy1 = clamp_i64(y1, cy0, ch);
        let w = width as usize;
        let _dlen = data.len();
        let ghost old_data = data@;
        let mut y = cy0;
        while y < cy1
            invariant
                0 <= cy0 <= y <= cy1 <= ch,
                0 <= cx0 <= cx1 <= cw,
                cw == width,
                ch == height,
                w == width,
                width == old(self).width,
                height == old(self).height,
                old_data == old(self).data@,
                data@.len() == width * height,
                width * height <= usize::MAX,
                forall|xx: int, yy: int|
                    0 <= xx < cw && 0 <= yy < ch ==> #[trigger] px(data@, cw as int, xx, yy)
                        == if cx0 <= xx < cx1 && cy0 <= yy < y {
                        colour
                    } else {
                        px(old_data, cw as int, xx, yy)
                    },
            decreases cy1 - y,
        {
            let mut x = cx0;
            while x < cx1
                invariant
                    0 <= cy0 <= y < cy1 <= ch,
                    0 <= cx0 <= x <= cx1 <= cw,
                    cw == width,
                    ch == height,
                    w == width,
                    width == old(self).width,
                    height == old(self).height,
                    data@.len() == width * height,
                    width * height <= usize::MAX,
                width * height <= usize::MAX,
                    forall|xx: int, yy: int|
                        0 <= xx < cw && 0 <= yy < ch ==> #[trigger] px(data@, cw as int, xx, yy)
                            == if (cx0 <= xx < cx1 && cy0 <= yy < y) || (cx0 <= xx < x && yy == y) {
                            colour
                        } else {
                            px(old_data, cw as int, xx, yy)
                        },
                decreases cx1 - x,
            {
                proof {
                    lemma_pixel_index(x as int, y as int, cw as int, ch as int);
                }
                let idx = (y as usize) * w + (x as usize);
                let ghost prev = data@;
                data.set(idx, colour);
                proof {
                    assert forall|xx: int, yy: int|
                        0 <= xx < cw && 0 <= yy < ch implies #[trigger] px(
                        data@,
                        cw as int,
                        xx,
                        yy,
                    ) == if (cx0 <= xx < cx1 && cy0 <= yy < y) || (cx0 <= xx < x + 1 && yy
                        == y) {
                        colour
                    } else {
                        px(old_data, cw as int, xx, yy)
                    } by {
                        lemma_pixel_index(xx, yy, cw as int, ch as int);
                        lemma_pixel_distinct(xx, yy, x as int, y as int, cw as int);
                        assert(px(prev, cw as int, xx, yy) == prev[yy * cw + xx]);
                    }
                }
                x = x + 1;
            }
            y = y + 1;
        }
        *self = Canvas { width, height, data };
    }

    /// Canonical overwrite blit of the tight row-major `sw × sh` box `src`
    /// with its top-left corner at `(dx, dy)`, clipped at the borders.
    pub fn blit(&mut self, src: &[u8], sw: u32, sh: u32, dx: i64, dy: i64)
        requires
            src@.len() == sw * sh,
            dx + sw <= i64::MAX,
            dy + sh <= i64::MAX,
        ensures
            final(self).w() == old(self).w(),
            final(self).h() == old(self).h(),
            final(self).samples().len() == old(self).samples().len(),
            forall|x: int, y: int|
                0 <= x < old(self).w() && 0 <= y < old(self).h() ==> #[trigger] px(
                    final(self).samples(),
                    old(self).w() as int,
                    x,
                    y,
                ) == if dx <= x < dx + sw && dy <= y < dy + sh {
                    px(src@, sw as int, x - dx, y - dy)
                } else {
                    px(old(self).samples(), old(self).w() as int, x, y)
                },
    {
        let mut taken = Canvas::vacant();
        std::mem::swap(self, &mut taken);
        proof {
            use_type_invariant(&taken);
        }
        let Canvas { width, height, mut data } = taken;
        let cw = width as i64;
        let ch = height as i64;
        let y0 = if dy > 0 {
            dy
        } else {
            0
        };
        let y1 = if dy + (sh as i64) < ch {
            dy + (sh as i64)
        } else {
            ch
        };
        let x0 = if dx > 0 {
            dx
        } else {
            0
        };
        let x1 = if dx + (sw as i64) < cw {
            dx + (sw as i64)
        } else {
            cw
        };
        if y0 >= y1 || x0 >= x1 {
            *self = Canvas { width, height, data };
            return;
        }
        let w = width as usize;
        let _dlen = data.len();
        let _slen = src.len();
        let ghost old_data = data@;
        let mut cty = y0;
        while cty < y1
            invariant
                0 <= y0 <= cty <= y1 <= ch,
                0 <= x0 < x1 <= cw,
                y0 == if dy > 0 { dy } else { 0 },
                x0 == if dx > 0 { dx } else { 0 },
                y1 == if dy + sh < ch { dy + sh } else { ch as int },
                x1 == if dx + sw < cw { dx + sw } else { cw as int },
                src@.len() == sw * sh,
                sw * sh <= usize::MAX,
                cw == width,
                ch == height,
                w == width,
                width == old(self).width,
                height == old(self).height,
                old_data == old(self).data@,
                data@.len() == width * height,
                width * height <= usize::MAX,
                forall|xx: int, yy: int|
                    0 <= xx < cw && 0 <= yy < ch ==> #[trigger] px(data@, cw as int, xx, yy)
                        == if x0 <= xx < x1 && y0 <= yy < cty {
                        px(src@, sw as int, xx - dx, yy - dy)
                    } else {
                        px(old_data, cw as int, xx, yy)
                    },
            decreases y1 - cty,
        {
            let sy = (cty - dy) as usize;
            let mut ctx = x0;
            while ctx < x1
                invariant
                    0 <= y0 <= cty < y1 <= ch,
                    0 <= x0 <= ctx <= x1 <= cw,
                    y0 == if dy > 0 { dy } else { 0 },
                    x0 == if dx > 0 { dx } else { 0 },
                    y1 == if dy + sh < ch { dy + sh } else { ch as int },
                    x1 == if dx + sw < cw { dx + sw } else { cw as int },
                    sy == cty - dy,
                    src@.len() == sw * sh,
                    sw * sh <= usize::MAX,
                sw * sh <= usize::MAX,
                    cw == width,
                    ch == height,
                    w == width,
                    width == old(self).width,
                    height == old(self).height,
                    data@.len() == width * height,
                    width * height <= usize::MAX,
                width * height <= usize::MAX,
                    forall|xx: int, yy: int|
                        0 <= xx < cw && 0 <= yy < ch ==> #[trigger] px(data@, cw as int, xx, yy)
                            == if (x0 <= xx < x1 && y0 <= yy < cty) || (x0 <= xx < ctx && yy
                            == cty) {
                            px(src@, sw as int, xx - dx, yy - dy)
                        } else {
                            px(old_data, cw as int, xx, yy)
                        },
                decreases x1 - ctx,
            {
                let sx = (ctx - dx) as usize;
                proof {
                    lemma_pixel_index(sx as int, sy as int, sw as int, sh as int);
                    lemma_pixel_index(ctx as int, cty as int, cw as int, ch as int);
                }
                let v = src[sy * (sw as usize) + sx];
                let idx = (cty as usize) * w + (ctx as usize);
                let ghost prev = data@;
                data.set(idx, v);
                proof {
                    assert forall|xx: int, yy: int|
                        0 <= xx < cw && 0 <= yy < ch implies #[trigger] px(
                        data@,
                        cw as int,
                        xx,
                        yy,
                    ) == if (x0 <= xx < x1 && y0 <= yy < cty) || (x0 <= xx < ctx + 1 && yy
                        == cty) {
                        px(src@, sw as int, xx - dx, yy - dy)
                    } else {
                        px(old_data, cw as int, xx, yy)
                    } by {
                        lemma_pixel_index(xx, yy, cw as int, ch as int);
                        lemma_pixel_distinct(xx, yy, ctx as int, cty as int, cw as int);
                        assert(px(prev, cw as int, xx, yy) == prev[yy * cw + xx]);
                    }
                }
                ctx = ctx + 1;
            }
            cty = cty + 1;
        }
        *self = Canvas { width, height, data };
    }

    /// The empty `0 × 0` raster, used as a stand-in while a canvas is edited.
    fn vacant() -> (c: Canvas)
        ensures
            c.w() == 0,
            c.h() == 0,
            c.samples().len() == 0,
    {
        let data: Vec<u8> = Vec::new();
        assert(data@.len() == 0 * 0);
        Canvas { width: 0, height: 0, data }
    }

    /// Consume to parts.
    pub fn into_parts(self) -> (r: (u32, u32, Vec<u8>))
        ensures
            r.0 == self.w() && r.1 == self.h() && r.2@ == self.samples(),
    {
        (self.width, self.height, self.data)
    }
}

/// `v` clamped into `[lo, hi]`.
pub(crate) fn clamp_i64(v: i64, lo: i64, hi: i64) -> (r: i64)
    requires
        lo <= hi,
    ensures
        r == clamp(v as int, lo as int, hi as int),
{
    if v < lo {
        lo
    } else if v > hi {
        hi
    } else {
        v
    }
}

/// The row-major index of an in-bounds pixel is in bounds.
pub proof fn lemma_pixel_index(x: int, y: int, w: int, h: int)
    requires
        0 <= x < w,
        0 <= y < h,
    ensures
        0 <= y * w + x < w * h,
        y * w + x <= (h - 1) * w + (w - 1),
{
    lemma_mul_inequality(y, h - 1, w);
    lemma_mul_is_distributive_sub(w, h, 1);
    lemma_mul_is_commutative(w, h);
    lemma_mul_is_commutative(w, h - 1);
    lemma_mul_nonnegative(y, w);
}

/// Distinct in-row pixels have distinct row-major indices.
pub proof fn lemma_pixel_distinct(x1: int, y1: int, x2: int, y2: int, w: int)
    requires
        0 <= x1 < w,
        0 <= x2 < w,
        0 <= y1,
        0 <= y2,
    ensures
        (y1 * w + x1 == y2 * w + x2) <==> (x1 == x2 && y1 == y2),
{
    if y1 < y2 {
        lemma_mul_inequality(y1 + 1, y2, w);
        lemma_mul_is_distributive_add(w, y1, 1);
        lemma_mul_is_commutative(w, y1);
        lemma_mul_is_commutative(w, y1 + 1);
    } else if y2 < y1 {
        lemma_mul_inequality(y2 + 1, y1, w);
        lemma_mul_is_distributive_add(w, y2, 1);
        lemma_mul_is_commutative(w, y2);
        lemma_mul_is_commutative(w, y2 + 1);
    }
}

} // verus!
