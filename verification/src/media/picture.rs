//! Multi-plane picture buffer.
//!
//! A [`Picture`] is the materializable canvas of one epoch: an ordered set of
//! canonical planes whose geometry/component/depth table matches the epoch.
//! Sample access is in the `u32` sample domain (the value space of the
//! plane's active bit depth); writes validate against the active depth, so a
//! picture is canonical by type. Planes are independent.

use vstd::arithmetic::mul::*;
use vstd::prelude::*;

use crate::error::VoleError;
use crate::media::epoch::{observation_fits, plane_matches, VideoEpoch};
use crate::media::layout::{lemma_layout_subsampling_small, lemma_subsampled_bounds, layout_planes};
use crate::media::plane::{bytes_per, storage_of, Plane, PlaneData, PlaneStorage};
use crate::pixel::{clamp_i64, in_clipped_rect, lemma_pixel_distinct, lemma_pixel_index};

verus! {

/// Sample `(x, y)` of plane `p` (row-major).
pub open spec fn sample_at(p: Plane, x: int, y: int) -> u32 {
    p.samples()[y * p.w() + x]
}

/// Planes `a` and `b` have the same component, geometry, depth and
/// subsampling.
pub open spec fn same_shape(a: Plane, b: Plane) -> bool {
    &&& a.comp() == b.comp()
    &&& a.w() == b.w()
    &&& a.h() == b.h()
    &&& a.depth() == b.depth()
    &&& a.sx() == b.sx()
    &&& a.sy() == b.sy()
}

/// The fault of background `bg` for plane `i` of `e`: a plane too large to
/// address, or a background above the plane's depth.
pub open spec fn background_fault(e: VideoEpoch, bgs: Seq<u32>, i: int) -> Option<VoleError> {
    if e.dims(i).0 * e.dims(i).1 > usize::MAX {
        Some(VoleError::ArithmeticOverflow)
    } else if bgs[i] > e.tmpls()[i].bit_depth.max() {
        Some(VoleError::InvalidSamples)
    } else {
        None
    }
}

/// Canonical storage bytes of the first `k` planes.
pub open spec fn planes_bytes(ps: Seq<Plane>, k: int) -> int
    decreases k,
{
    if k <= 0 {
        0
    } else {
        planes_bytes(ps, k - 1) + ps[k - 1].w() * ps[k - 1].h() * bytes_per(
            storage_of(ps[k - 1].depth().b()),
        )
    }
}

/// Whether a source box `src` of `sw × sh` samples fits plane depth `max`.
pub open spec fn source_in_depth(src: Seq<u32>, max: nat) -> bool {
    forall|i: int| 0 <= i < src.len() ==> src[i] <= max
}

/// The materializable multi-plane canvas of one epoch.
#[derive(Debug, PartialEq, Eq)]
pub struct Picture {
    planes: Vec<Plane>,
}

impl Clone for Picture {
    fn clone(&self) -> (r: Self)
        ensures
            r.pls().len() == self.pls().len(),
            forall|i: int|
                0 <= i < self.pls().len() ==> {
                    let (a, b) = (#[trigger] r.pls()[i], self.pls()[i]);
                    &&& a.comp() == b.comp()
                    &&& a.w() == b.w()
                    &&& a.h() == b.h()
                    &&& a.depth() == b.depth()
                    &&& a.sx() == b.sx()
                    &&& a.sy() == b.sy()
                    &&& a.samples() == b.samples()
                    &&& a.bytes() == b.bytes()
                },
    {
        let mut planes: Vec<Plane> = Vec::new();
        let mut i = 0usize;
        while i < self.planes.len()
            invariant
                i <= self.planes@.len(),
                planes@.len() == i,
                forall|k: int|
                    0 <= k < i ==> {
                        let (a, b) = (#[trigger] planes@[k], self.planes@[k]);
                        &&& a.comp() == b.comp()
                        &&& a.w() == b.w()
                        &&& a.h() == b.h()
                        &&& a.depth() == b.depth()
                        &&& a.sx() == b.sx()
                        &&& a.sy() == b.sy()
                        &&& a.samples() == b.samples()
                        &&& a.bytes() == b.bytes()
                    },
            decreases self.planes@.len() - i,
        {
            planes.push(self.planes[i].clone());
            i = i + 1;
        }
        Picture { planes }
    }
}

impl Picture {
    /// Planes (model).
    pub closed spec fn pls(self) -> Seq<Plane> {
        self.planes@
    }

    /// A picture whose planes exactly match `epoch`'s plane table, every
    /// sample of plane `i` set to `backgrounds[i]`. A background count off
    /// the plane count is `GeometryMismatch`; then, plane by plane, a plane
    /// too large to address is `ArithmeticOverflow` and a background above
    /// the plane's depth `InvalidSamples`.
    pub fn from_epoch(epoch: &VideoEpoch, backgrounds: &[u32]) -> (r: Result<Self, VoleError>)
        ensures
            backgrounds@.len() != epoch.tmpls().len() ==> r == Err::<Self, VoleError>(
                VoleError::GeometryMismatch,
            ),
            backgrounds@.len() == epoch.tmpls().len() ==> {
                &&& r is Ok <==> forall|i: int|
                    0 <= i < backgrounds@.len() ==> #[trigger] background_fault(*epoch, backgrounds@, i) is None
                &&& r matches Err(e) ==> exists|i: int|
                    0 <= i < backgrounds@.len() && #[trigger] background_fault(*epoch, backgrounds@, i) == Some(e)
                        && forall|j: int| 0 <= j < i ==> #[trigger] background_fault(*epoch, backgrounds@, j) is None
            },
            r matches Ok(p) ==> observation_fits(*epoch, p.pls()) && forall|i: int|
                0 <= i < p.pls().len() ==> (#[trigger] p.pls()[i]).samples() == Seq::new(
                    (epoch.dims(i).0 * epoch.dims(i).1) as nat,
                    |k: int| backgrounds@[i],
                ),
    {
        let count = epoch.plane_count();
        if backgrounds.len() != count {
            return Err(VoleError::GeometryMismatch);
        }
        let mut planes: Vec<Plane> = Vec::new();
        let mut i = 0usize;
        while i < count
            invariant
                i <= count,
                count == epoch.tmpls().len(),
                count == layout_planes(epoch.lay()).len(),
                backgrounds@.len() == count,
                planes@.len() == i,
                forall|j: int| 0 <= j < i ==> #[trigger] background_fault(*epoch, backgrounds@, j) is None,
                forall|j: int| 0 <= j < i ==> plane_matches(epoch.tmpls()[j], epoch.dims(j), #[trigger] planes@[j]),
                forall|j: int|
                    0 <= j < i ==> (#[trigger] planes@[j]).samples() == Seq::new(
                        (epoch.dims(j).0 * epoch.dims(j).1) as nat,
                        |k: int| backgrounds@[j],
                    ),
            decreases count - i,
        {
            let tmpl = epoch.planes()[i];
            let (pw, ph) = match epoch.plane_dimensions(i) {
                Ok(d) => d,
                Err(e) => {
                    return Err(e);
                },
            };
            proof {
                lemma_mul_upper_bound(pw as int, 0xffff_ffff, ph as int, 0xffff_ffff);
            }
            let n64 = (pw as u64) * (ph as u64);
            if n64 > usize::MAX as u64 {
                proof {
                    assert(background_fault(*epoch, backgrounds@, i as int) == Some(VoleError::ArithmeticOverflow));
                }
                return Err(VoleError::ArithmeticOverflow);
            }
            let n = n64 as usize;
            let bg = backgrounds[i];
            let max = tmpl.bit_depth.max_sample();
            if bg > max {
                proof {
                    assert(background_fault(*epoch, backgrounds@, i as int) == Some(VoleError::InvalidSamples));
                }
                return Err(VoleError::InvalidSamples);
            }
            let _bits = tmpl.bit_depth.bits();
            proof {
                crate::media::plane::lemma_max_sample_small(tmpl.bit_depth);
            }
            let data = match tmpl.bit_depth.storage() {
                PlaneStorage::U8 => {
                    let b = bg as u8;
                    let mut v: Vec<u8> = Vec::new();
                    let mut k = 0usize;
                    while k < n
                        invariant
                            k <= n,
                            v@ == Seq::new(k as nat, |j: int| b),
                        decreases n - k,
                    {
                        v.push(b);
                        proof {
                            assert(v@ =~= Seq::new((k + 1) as nat, |j: int| b));
                        }
                        k = k + 1;
                    }
                    proof {
                        assert(v@.map_values(|x: u8| x as u32) =~= Seq::new(n as nat, |j: int| bg));
                    }
                    PlaneData::U8(v)
                },
                PlaneStorage::U16 => {
                    let b = bg as u16;
                    let mut v: Vec<u16> = Vec::new();
                    let mut k = 0usize;
                    while k < n
                        invariant
                            k <= n,
                            v@ == Seq::new(k as nat, |j: int| b),
                        decreases n - k,
                    {
                        v.push(b);
                        proof {
                            assert(v@ =~= Seq::new((k + 1) as nat, |j: int| b));
                        }
                        k = k + 1;
                    }
                    proof {
                        assert(v@.map_values(|x: u16| x as u32) =~= Seq::new(n as nat, |j: int| bg));
                    }
                    PlaneData::U16(v)
                },
            };
            let plane = match Plane::new(
                tmpl.component,
                pw,
                ph,
                tmpl.bit_depth,
                tmpl.subsample_x,
                tmpl.subsample_y,
                data,
            ) {
                Ok(p) => p,
                Err(e) => {
                    return Err(e);
                },
            };
            planes.push(plane);
            proof {
                assert(background_fault(*epoch, backgrounds@, i as int) is None);
            }
            i = i + 1;
        }
        Ok(Picture { planes })
    }

    /// A picture from already-built planes, which must match `epoch`'s
    /// plane table exactly (`GeometryMismatch` otherwise).
    pub fn from_planes(epoch: &VideoEpoch, planes: Vec<Plane>) -> (r: Result<Self, VoleError>)
        ensures
            r is Ok <==> observation_fits(*epoch, planes@),
            r matches Ok(p) ==> p.pls() == planes@,
            r matches Err(e) ==> e == VoleError::GeometryMismatch,
    {
        match epoch.check_planes(&planes) {
            Ok(()) => Ok(Picture { planes }),
            Err(e) => Err(e),
        }
    }

    /// A picture of one plane, for standalone plane work.
    pub(crate) fn of_plane(plane: Plane) -> (r: Self)
        ensures
            r.pls() == seq![plane],
    {
        let mut planes: Vec<Plane> = Vec::new();
        planes.push(plane);
        proof {
            assert(planes@ =~= seq![plane]);
        }
        Picture { planes }
    }

    /// Check the plane table against an epoch's declaration: count and, per
    /// plane, component, geometry, bit depth and subsampling
    /// (`GeometryMismatch` otherwise).
    pub fn validate_against(&self, epoch: &VideoEpoch) -> (r: Result<(), VoleError>)
        ensures
            r is Ok <==> observation_fits(*epoch, self.pls()),
            r matches Err(e) ==> e == VoleError::GeometryMismatch,
    {
        epoch.check_planes(&self.planes)
    }

    /// Plane count.
    pub fn plane_count(&self) -> (r: usize)
        ensures
            r == self.pls().len(),
    {
        self.planes.len()
    }

    /// Plane `i`.
    pub fn plane(&self, i: usize) -> (r: Option<&Plane>)
        ensures
            r is Some <==> i < self.pls().len(),
            r matches Some(p) ==> *p == self.pls()[i as int],
    {
        if i < self.planes.len() {
            Some(&self.planes[i])
        } else {
            None
        }
    }

    /// Consume into the plane list.
    pub fn into_planes(self) -> (r: Vec<Plane>)
        ensures
            r@ == self.pls(),
    {
        self.planes
    }

    /// The planes.
    pub fn planes(&self) -> (r: &[Plane])
        ensures
            r@ == self.pls(),
    {
        self.planes.as_slice()
    }

    /// Sample read in the `u32` sample domain; `None` off the picture.
    pub fn get(&self, plane: usize, x: u32, y: u32) -> (r: Option<u32>)
        ensures
            r == if plane < self.pls().len() && x < self.pls()[plane as int].w() && y < self.pls()[plane as int].h() {
                Some(sample_at(self.pls()[plane as int], x as int, y as int))
            } else {
                None::<u32>
            },
    {
        if plane >= self.planes.len() {
            return None;
        }
        let p = &self.planes[plane];
        let w = p.width();
        if x >= w || y >= p.height() {
            return None;
        }
        let n = p.sample_len();
        proof {
            lemma_pixel_index(x as int, y as int, w as int, p.h() as int);
        }
        let idx = ((y as u64) * (w as u64) + (x as u64)) as usize;
        match p.data() {
            PlaneData::U8(v) => {
                proof {
                    assert(p.samples()[idx as int] == v@[idx as int] as u32);
                }
                Some(v[idx] as u32)
            },
            PlaneData::U16(v) => {
                proof {
                    assert(p.samples()[idx as int] == v@[idx as int] as u32);
                }
                Some(v[idx] as u32)
            },
        }
    }

    /// Sample write in the `u32` sample domain: an unknown plane or a
    /// coordinate off the plane is `OutOfBounds`, a value above the plane's
    /// depth `InvalidSamples`; either leaves the picture unchanged.
    pub fn put(&mut self, plane: usize, x: u32, y: u32, value: u32) -> (r: Result<(), VoleError>)
        ensures
            r is Ok <==> plane < old(self).pls().len() && x < old(self).pls()[plane as int].w() && y
                < old(self).pls()[plane as int].h() && value <= old(self).pls()[plane as int].depth().max(),
            r matches Err(e) ==> final(self).pls() == old(self).pls() && e == if plane >= old(self).pls().len()
                || x >= old(self).pls()[plane as int].w() || y >= old(self).pls()[plane as int].h() {
                VoleError::OutOfBounds
            } else {
                VoleError::InvalidSamples
            },
            r is Ok ==> {
                let op = old(self).pls()[plane as int];
                let np = final(self).pls()[plane as int];
                &&& final(self).pls().len() == old(self).pls().len()
                &&& forall|j: int| 0 <= j < old(self).pls().len() && j != plane ==> #[trigger] final(self).pls()[j] == old(self).pls()[j]
                &&& same_shape(np, op)
                &&& np.samples() == op.samples().update(y * op.w() + x, value)
            },
    {
        if plane >= self.planes.len() {
            return Err(VoleError::OutOfBounds);
        }
        let w = self.planes[plane].width();
        let h = self.planes[plane].height();
        let max = self.planes[plane].bit_depth().max_sample();
        if x >= w || y >= h {
            return Err(VoleError::OutOfBounds);
        }
        if value > max {
            return Err(VoleError::InvalidSamples);
        }
        let _n = self.planes[plane].sample_len();
        proof {
            lemma_pixel_index(x as int, y as int, w as int, h as int);
        }
        let i = ((y as u64) * (w as u64) + (x as u64)) as usize;
        let mut p = self.planes.remove(plane);
        p.set_sample(i, value);
        self.planes.insert(plane, p);
        proof {
            assert(self.pls() =~= old(self).pls().update(plane as int, p));
            assert forall|j: int| 0 <= j < old(self).pls().len() && j != plane implies #[trigger] self.pls()[j] == old(self).pls()[j] by {
            }
        }
        Ok(())
    }

    /// Fill the clipped rectangle `[x0, x1) × [y0, y1)` of one plane with a
    /// sample value (out-of-plane regions are dropped). An unknown plane is
    /// `OutOfBounds`, a value above the plane's depth `InvalidSamples`.
    pub fn fill_rect_clipped(&mut self, plane: usize, value: u32, x0: i64, y0: i64, x1: i64, y1: i64) -> (r: Result<(), VoleError>)
        ensures
            r is Ok <==> plane < old(self).pls().len() && value <= old(self).pls()[plane as int].depth().max(),
            r matches Err(e) ==> final(self).pls() == old(self).pls() && e == if plane >= old(self).pls().len() {
                VoleError::OutOfBounds
            } else {
                VoleError::InvalidSamples
            },
            r is Ok ==> {
                let op = old(self).pls()[plane as int];
                let np = final(self).pls()[plane as int];
                &&& final(self).pls().len() == old(self).pls().len()
                &&& forall|j: int| 0 <= j < old(self).pls().len() && j != plane ==> #[trigger] final(self).pls()[j] == old(self).pls()[j]
                &&& same_shape(np, op)
                &&& np.samples().len() == op.samples().len()
                &&& forall|x: int, y: int|
                    0 <= x < op.w() && 0 <= y < op.h() ==> #[trigger] sample_at(np, x, y) == if in_clipped_rect(
                        op.w() as int,
                        op.h() as int,
                        x0 as int,
                        y0 as int,
                        x1 as int,
                        y1 as int,
                        x,
                        y,
                    ) {
                        value
                    } else {
                        sample_at(op, x, y)
                    }
            },
    {
        if plane >= self.planes.len() {
            return Err(VoleError::OutOfBounds);
        }
        let max = self.planes[plane].bit_depth().max_sample();
        if value > max {
            return Err(VoleError::InvalidSamples);
        }
        let mut p = self.planes.remove(plane);
        let ghost op = p;
        let cw = p.width() as i64;
        let ch = p.height() as i64;
        let _n = p.sample_len();
        let cx0 = clamp_i64(x0, 0, cw);
        let cy0 = clamp_i64(y0, 0, ch);
        let cx1 = clamp_i64(x1, cx0, cw);
        let cy1 = clamp_i64(y1, cy0, ch);
        let w = p.width() as u64;
        let mut y = cy0;
        while y < cy1
            invariant
                0 <= cy0 <= y <= cy1 <= ch,
                0 <= cx0 <= cx1 <= cw,
                cw == op.w(),
                ch == op.h(),
                w == op.w(),
                value <= op.depth().max(),
                same_shape(p, op),
                p.samples().len() == op.samples().len(),
                op.samples().len() == op.w() * op.h(),
                op.w() * op.h() <= usize::MAX,
                forall|xx: int, yy: int|
                    0 <= xx < cw && 0 <= yy < ch ==> #[trigger] sample_at(p, xx, yy) == if cx0 <= xx < cx1 && cy0 <= yy < y {
                        value
                    } else {
                        sample_at(op, xx, yy)
                    },
            decreases cy1 - y,
        {
            let mut x = cx0;
            while x < cx1
                invariant
                    0 <= cy0 <= y < cy1 <= ch,
                    0 <= cx0 <= x <= cx1 <= cw,
                    cw == op.w(),
                    ch == op.h(),
                    w == op.w(),
                    value <= op.depth().max(),
                    same_shape(p, op),
                    p.samples().len() == op.samples().len(),
                    op.samples().len() == op.w() * op.h(),
                    op.w() * op.h() <= usize::MAX,
                    forall|xx: int, yy: int|
                        0 <= xx < cw && 0 <= yy < ch ==> #[trigger] sample_at(p, xx, yy) == if (cx0 <= xx < cx1 && cy0 <= yy < y) || (cx0 <= xx < x && yy == y) {
                            value
                        } else {
                            sample_at(op, xx, yy)
                        },
                decreases cx1 - x,
            {
                proof {
                    lemma_pixel_index(x as int, y as int, cw as int, ch as int);
                }
                let idx = ((y as u64) * w + (x as u64)) as usize;
                let ghost prev = p;
                p.set_sample(idx, value);
                proof {
                    assert forall|xx: int, yy: int|
                        0 <= xx < cw && 0 <= yy < ch implies #[trigger] sample_at(p, xx, yy) == if (cx0 <= xx < cx1 && cy0 <= yy < y) || (cx0 <= xx < x + 1 && yy == y) {
                            value
                        } else {
                            sample_at(op, xx, yy)
                        } by {
                        lemma_pixel_index(xx, yy, cw as int, ch as int);
                        lemma_pixel_distinct(xx, yy, x as int, y as int, cw as int);
                        assert(sample_at(prev, xx, yy) == prev.samples()[yy * cw + xx]);
                    }
                }
                x = x + 1;
            }
            y = y + 1;
        }
        self.planes.insert(plane, p);
        proof {
            assert(self.pls() =~= old(self).pls().update(plane as int, p));
        }
        Ok(())
    }

    /// Canonical overwrite blit of a `sw × sh` source sample box (tight
    /// row-major, `u32` domain) onto one plane with its top-left at
    /// `(dx, dy)`, clipped at the borders. A source length off `sw·sh` or a
    /// source value above the plane's depth is `InvalidSamples`, an unknown
    /// plane `OutOfBounds`; any refusal comes before a write.
    pub fn blit(&mut self, plane: usize, src: &[u32], sw: u32, sh: u32, dx: i64, dy: i64) -> (r: Result<(), VoleError>)
        requires
            dx + sw <= i64::MAX,
            dy + sh <= i64::MAX,
        ensures
            r is Ok <==> src@.len() == sw * sh && plane < old(self).pls().len() && source_in_depth(src@, old(self).pls()[plane as int].depth().max()),
            r matches Err(e) ==> final(self).pls() == old(self).pls() && e == if src@.len() == sw * sh && plane >= old(self).pls().len() {
                VoleError::OutOfBounds
            } else {
                VoleError::InvalidSamples
            },
            r is Ok ==> {
                let op = old(self).pls()[plane as int];
                let np = final(self).pls()[plane as int];
                &&& final(self).pls().len() == old(self).pls().len()
                &&& forall|j: int| 0 <= j < old(self).pls().len() && j != plane ==> #[trigger] final(self).pls()[j] == old(self).pls()[j]
                &&& same_shape(np, op)
                &&& np.samples().len() == op.samples().len()
                &&& forall|x: int, y: int|
                    0 <= x < op.w() && 0 <= y < op.h() ==> #[trigger] sample_at(np, x, y) == if dx <= x < dx + sw && dy <= y < dy + sh {
                        src@[(y - dy) * sw + (x - dx)]
                    } else {
                        sample_at(op, x, y)
                    }
            },
    {
        let slen = src.len();
        proof {
            lemma_mul_upper_bound(sw as int, 0xffff_ffff, sh as int, 0xffff_ffff);
        }
        if slen as u64 != (sw as u64) * (sh as u64) {
            return Err(VoleError::InvalidSamples);
        }
        if plane >= self.planes.len() {
            return Err(VoleError::OutOfBounds);
        }
        let max = self.planes[plane].bit_depth().max_sample();
        let mut k = 0usize;
        while k < slen
            invariant
                k <= slen,
                slen == src@.len(),
                max == old(self).pls()[plane as int].depth().max(),
                forall|j: int| 0 <= j < k ==> src@[j] <= max,
                self.pls() == old(self).pls(),
                plane < old(self).pls().len(),
            decreases slen - k,
        {
            if src[k] > max {
                return Err(VoleError::InvalidSamples);
            }
            k = k + 1;
        }
        let mut p = self.planes.remove(plane);
        let ghost op = p;
        let cw = p.width() as i64;
        let ch = p.height() as i64;
        let _n = p.sample_len();
        let y0 = if dy > 0 { dy } else { 0 };
        let y1 = if dy + (sh as i64) < ch { dy + (sh as i64) } else { ch };
        let x0 = if dx > 0 { dx } else { 0 };
        let x1 = if dx + (sw as i64) < cw { dx + (sw as i64) } else { cw };
        if y0 < y1 && x0 < x1 {
            let w = p.width() as u64;
            let mut cty = y0;
            while cty < y1
                invariant
                    0 <= y0 <= cty <= y1 <= ch,
                    0 <= x0 < x1 <= cw,
                    y0 == if dy > 0 { dy } else { 0 },
                    x0 == if dx > 0 { dx } else { 0 },
                    y1 == if dy + sh < ch { dy + sh } else { ch as int },
                    x1 == if dx + sw < cw { dx + sw } else { cw as int },
                    src@.len() == sw * sh,
                    source_in_depth(src@, op.depth().max()),
                    cw == op.w(),
                    ch == op.h(),
                    w == op.w(),
                    same_shape(p, op),
                    p.samples().len() == op.samples().len(),
                    op.samples().len() == op.w() * op.h(),
                    op.w() * op.h() <= usize::MAX,
                    sw * sh <= usize::MAX,
                    forall|xx: int, yy: int|
                        0 <= xx < cw && 0 <= yy < ch ==> #[trigger] sample_at(p, xx, yy) == if x0 <= xx < x1 && y0 <= yy < cty {
                            src@[(yy - dy) * sw + (xx - dx)]
                        } else {
                            sample_at(op, xx, yy)
                        },
                decreases y1 - cty,
            {
                let sy = (cty - dy) as u64;
                let mut ctx = x0;
                while ctx < x1
                    invariant
                        0 <= y0 <= cty < y1 <= ch,
                        0 <= x0 <= ctx <= x1 <= cw,
                        y0 == if dy > 0 { dy } else { 0 },
                        x0 == if dx > 0 { dx } else { 0 },
                        y1 == if dy + sh < ch { dy + sh } else { ch as int },
                        x1 == if dx + sw < cw { dx + sw } else { cw as int },
                        sy == cty - dy,
                        src@.len() == sw * sh,
                        source_in_depth(src@, op.depth().max()),
                        cw == op.w(),
                        ch == op.h(),
                        w == op.w(),
                        same_shape(p, op),
                        p.samples().len() == op.samples().len(),
                        op.samples().len() == op.w() * op.h(),
                        op.w() * op.h() <= usize::MAX,
                        sw * sh <= usize::MAX,
                        forall|xx: int, yy: int|
                            0 <= xx < cw && 0 <= yy < ch ==> #[trigger] sample_at(p, xx, yy) == if (x0 <= xx < x1 && y0 <= yy < cty) || (x0 <= xx < ctx && yy == cty) {
                                src@[(yy - dy) * sw + (xx - dx)]
                            } else {
                                sample_at(op, xx, yy)
                            },
                    decreases x1 - ctx,
                {
                    let sx = (ctx - dx) as u64;
                    proof {
                        lemma_pixel_index(sx as int, sy as int, sw as int, sh as int);
                        lemma_pixel_index(ctx as int, cty as int, cw as int, ch as int);
                    }
                    let v = src[(sy * (sw as u64) + sx) as usize];
                    let idx = ((cty as u64) * w + (ctx as u64)) as usize;
                    let ghost prev = p;
                    p.set_sample(idx, v);
                    proof {
                        assert forall|xx: int, yy: int|
                            0 <= xx < cw && 0 <= yy < ch implies #[trigger] sample_at(p, xx, yy) == if (x0 <= xx < x1 && y0 <= yy < cty) || (x0 <= xx < ctx + 1 && yy == cty) {
                                src@[(yy - dy) * sw + (xx - dx)]
                            } else {
                                sample_at(op, xx, yy)
                            } by {
                            lemma_pixel_index(xx, yy, cw as int, ch as int);
                            lemma_pixel_distinct(xx, yy, ctx as int, cty as int, cw as int);
                            assert(sample_at(prev, xx, yy) == prev.samples()[yy * cw + xx]);
                        }
                    }
                    ctx = ctx + 1;
                }
                cty = cty + 1;
            }
        }
        self.planes.insert(plane, p);
        proof {
            assert(self.pls() =~= old(self).pls().update(plane as int, p));
        }
        Ok(())
    }

    /// Total canonical storage bytes over every plane.
    pub fn total_bytes(&self) -> (r: u64)
        requires
            planes_bytes(self.pls(), self.pls().len() as int) <= u64::MAX,
        ensures
            r == planes_bytes(self.pls(), self.pls().len() as int),
    {
        let n = self.planes.len();
        let mut total = 0u64;
        let mut i = 0usize;
        while i < n
            invariant
                i <= n,
                n == self.pls().len(),
                total == planes_bytes(self.pls(), i as int),
                planes_bytes(self.pls(), n as int) <= u64::MAX,
            decreases n - i,
        {
            let p = &self.planes[i];
            proof {
                lemma_planes_bytes_monotone(self.pls(), (i + 1) as int, n as int);
            }
            let c = p.sample_count();
            let b = p.storage().bytes_per_sample();
            proof {
                lemma_mul_nonnegative(c as int, b as int);
            }
            total = total + c * b;
            i = i + 1;
        }
        total
    }
}

/// Partial storage sums grow with the number of planes summed.
pub proof fn lemma_planes_bytes_monotone(ps: Seq<Plane>, i: int, j: int)
    requires
        0 <= i <= j,
    ensures
        planes_bytes(ps, i) <= planes_bytes(ps, j),
    decreases j - i,
{
    if i < j {
        lemma_planes_bytes_monotone(ps, i, j - 1);
        lemma_mul_nonnegative(ps[j - 1].w() as int, ps[j - 1].h() as int);
        lemma_mul_nonnegative(ps[j - 1].w() * ps[j - 1].h(), bytes_per(storage_of(ps[j - 1].depth().b())) as int);
    }
}

} // verus!
