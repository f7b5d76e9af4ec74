//! Epochs and canonical video observations.
//!
//! A [`VideoEpoch`] declares the full media interpretation of the
//! observations bound to it: coded geometry, canonical layout, per-plane bit
//! depth, color description, SAR, orientation, field structure, and side
//! data. Every [`CanonicalVideoObservation`] binds to one epoch; a change of
//! any declared property is a new epoch, never a silent rescale of later
//! observations. A [`CanonicalVideo`] is the validated presentation-ordered
//! sequence of observations over its epochs.

use vstd::arithmetic::mul::*;
use vstd::prelude::*;

use crate::error::VoleError;
use crate::media::color::{ChromaLocation, ColorDescription};
use crate::media::layout::{
    layout_planes, lemma_layout_subsampling_small, lemma_subsampled_bounds, plane_dims_spec,
    subsampled, total_samples_spec, Component, PixelLayout,
};
use crate::media::meta::{FieldStructure, Orientation, SampleAspectRatio, VisualSideData};
use crate::media::plane::{bytes_per, storage_of, BitDepth, Plane, PlaneData, PlaneStorage};
use crate::media::time::{cross, lemma_rescale_unique, rescales_to, Duration, Pts, TimeBase};
use crate::trajectory::fits64;

verus! {

/// Identifies one epoch of a canonical video; ids are dense per video
/// (`0..n` in declaration order).
#[derive(Debug, Clone, Copy, PartialEq, Eq, Hash, Structural)]
pub struct EpochId(pub u64);

/// One plane of an epoch: component, subsampling exponents and active bit
/// depth.
#[derive(Debug, Clone, Copy, PartialEq, Eq, Structural)]
pub struct PlaneTemplate {
    /// Component carried by the plane.
    pub component: Component,
    /// Horizontal subsampling exponent.
    pub subsample_x: u8,
    /// Vertical subsampling exponent.
    pub subsample_y: u8,
    /// Active bit depth of every sample of this plane.
    pub bit_depth: BitDepth,
}

/// The templates of `layout` with depth `depths[i]` on plane `i`.
pub open spec fn templates_with(layout: PixelLayout, depths: Seq<BitDepth>) -> Seq<PlaneTemplate> {
    Seq::new(
        layout_planes(layout).len(),
        |i: int|
            PlaneTemplate {
                component: layout_planes(layout)[i].component,
                subsample_x: layout_planes(layout)[i].subsample_x,
                subsample_y: layout_planes(layout)[i].subsample_y,
                bit_depth: depths[i],
            },
    )
}

/// Whether templates follow the layout plane for plane (component and
/// subsampling).
pub open spec fn templates_follow(layout: PixelLayout, planes: Seq<PlaneTemplate>) -> bool {
    &&& planes.len() == layout_planes(layout).len()
    &&& forall|i: int|
        0 <= i < planes.len() ==> (#[trigger] planes[i]).component == layout_planes(layout)[i].component
            && planes[i].subsample_x == layout_planes(layout)[i].subsample_x && planes[i].subsample_y
            == layout_planes(layout)[i].subsample_y
}

/// Whether a `width × height` geometry is a valid epoch geometry for
/// `layout`: nonzero, with a representable and positive total sample count.
pub open spec fn epoch_geometry_ok(layout: PixelLayout, width: u32, height: u32) -> bool {
    &&& width > 0
    &&& height > 0
    &&& 0 < total_samples_spec(layout, width, height, layout_planes(layout).len() as int) <= u64::MAX
}

/// The error of an invalid epoch geometry.
pub open spec fn epoch_geometry_error(width: u32, height: u32) -> VoleError {
    if width == 0 || height == 0 {
        VoleError::GeometryMismatch
    } else {
        VoleError::ArithmeticOverflow
    }
}

/// Whether plane `p` is exactly what template `t` declares at dimensions
/// `d`: component, geometry, bit depth and subsampling.
pub open spec fn plane_matches(t: PlaneTemplate, d: (u32, u32), p: Plane) -> bool {
    &&& p.comp() == t.component
    &&& p.w() == d.0
    &&& p.h() == d.1
    &&& p.depth() == t.bit_depth
    &&& p.sx() == t.subsample_x
    &&& p.sy() == t.subsample_y
}

/// Whether a plane set matches an epoch's plane table.
pub open spec fn observation_fits(e: VideoEpoch, planes: Seq<Plane>) -> bool {
    &&& planes.len() == e.tmpls().len()
    &&& forall|i: int| 0 <= i < planes.len() ==> plane_matches(e.tmpls()[i], e.dims(i), #[trigger] planes[i])
}

/// Canonical storage bytes of the first `k` planes of one observation.
pub open spec fn obs_bytes_upto(e: VideoEpoch, k: int) -> int
    decreases k,
{
    if k <= 0 {
        0
    } else {
        obs_bytes_upto(e, k - 1) + e.dims(k - 1).0 * e.dims(k - 1).1 * bytes_per(
            storage_of(e.tmpls()[k - 1].bit_depth.b()),
        )
    }
}

/// The sample value of a synthetic plane at depth `d`: the byte midpoint
/// `0x80` for byte storage, half the depth's maximum otherwise.
pub open spec fn synthetic_value(d: BitDepth) -> u32 {
    if d.b() <= 8 {
        0x80
    } else {
        (d.max() / 2) as u32
    }
}

/// Partial storage sums grow with the number of planes summed, and each
/// plane's own term is bounded by the sum that includes it.
pub proof fn lemma_obs_bytes_monotone(e: VideoEpoch, i: int, j: int)
    requires
        0 <= i <= j,
    ensures
        obs_bytes_upto(e, i) <= obs_bytes_upto(e, j),
    decreases j - i,
{
    if i < j {
        lemma_obs_bytes_monotone(e, i, j - 1);
        let d = e.dims(j - 1);
        lemma_mul_nonnegative(d.0 as int, d.1 as int);
        lemma_mul_nonnegative(
            d.0 * d.1,
            bytes_per(storage_of(e.tmpls()[j - 1].bit_depth.b())) as int,
        );
    }
}

/// A declared media interpretation epoch; immutable after construction.
#[derive(Debug)]
pub struct VideoEpoch {
    id: EpochId,
    width: u32,
    height: u32,
    layout: PixelLayout,
    planes: Vec<PlaneTemplate>,
    color: ColorDescription,
    sar: SampleAspectRatio,
    orientation: Orientation,
    field_structure: FieldStructure,
    side_data: Vec<VisualSideData>,
}

/// Copy of a template table.
fn copy_templates(t: &[PlaneTemplate]) -> (r: Vec<PlaneTemplate>)
    ensures
        r@ == t@,
{
    let mut out: Vec<PlaneTemplate> = Vec::new();
    let n = t.len();
    let mut i = 0usize;
    while i < n
        invariant
            i <= n,
            n == t@.len(),
            out@ == t@.subrange(0, i as int),
        decreases n - i,
    {
        out.push(t[i]);
        proof {
            assert(out@ =~= t@.subrange(0, i + 1));
        }
        i = i + 1;
    }
    proof {
        assert(out@ =~= t@);
    }
    out
}

impl Clone for VideoEpoch {
    fn clone(&self) -> (r: Self)
        ensures
            r.eid() == self.eid(),
            r.w() == self.w(),
            r.h() == self.h(),
            r.lay() == self.lay(),
            r.tmpls() == self.tmpls(),
            r.col() == self.col(),
            r.sar_m() == self.sar_m(),
            r.ori() == self.ori(),
            r.fs() == self.fs(),
            r.sd().len() == self.sd().len(),
    {
        proof {
            use_type_invariant(self);
        }
        VideoEpoch {
            id: self.id,
            width: self.width,
            height: self.height,
            layout: self.layout,
            planes: copy_templates(self.planes.as_slice()),
            color: self.color,
            sar: self.sar,
            orientation: self.orientation,
            field_structure: self.field_structure,
            side_data: self.side_data.clone(),
        }
    }
}

impl VideoEpoch {
    #[verifier::type_invariant]
    spec fn inv(self) -> bool {
        &&& epoch_geometry_ok(self.layout, self.width, self.height)
        &&& templates_follow(self.layout, self.planes@)
    }

    /// Epoch id (model).
    pub closed spec fn eid(self) -> EpochId {
        self.id
    }

    /// Coded width (model).
    pub closed spec fn w(self) -> u32 {
        self.width
    }

    /// Coded height (model).
    pub closed spec fn h(self) -> u32 {
        self.height
    }

    /// Canonical layout (model).
    pub closed spec fn lay(self) -> PixelLayout {
        self.layout
    }

    /// Per-plane templates (model).
    pub closed spec fn tmpls(self) -> Seq<PlaneTemplate> {
        self.planes@
    }

    /// Color description (model).
    pub closed spec fn col(self) -> ColorDescription {
        self.color
    }

    /// Sample aspect ratio (model).
    pub closed spec fn sar_m(self) -> SampleAspectRatio {
        self.sar
    }

    /// Orientation (model).
    pub closed spec fn ori(self) -> Orientation {
        self.orientation
    }

    /// Field structure (model).
    pub closed spec fn fs(self) -> FieldStructure {
        self.field_structure
    }

    /// Side data (model).
    pub closed spec fn sd(self) -> Seq<VisualSideData> {
        self.side_data@
    }

    /// Plane dimensions of plane `i` (model).
    pub open spec fn dims(self, i: int) -> (u32, u32) {
        plane_dims_spec(self.lay(), i, self.w(), self.h())->0
    }

    /// Build an epoch from validated parts.
    fn from_templates(
        id: EpochId,
        width: u32,
        height: u32,
        layout: PixelLayout,
        planes: Vec<PlaneTemplate>,
        color: ColorDescription,
        sar: SampleAspectRatio,
        orientation: Orientation,
        field_structure: FieldStructure,
    ) -> (r: Result<Self, VoleError>)
        requires
            templates_follow(layout, planes@),
        ensures
            r is Ok <==> epoch_geometry_ok(layout, width, height),
            r matches Ok(e) ==> e.eid() == id && e.w() == width && e.h() == height && e.lay()
                == layout && e.tmpls() == planes@ && e.col() == color && e.sar_m() == sar
                && e.ori() == orientation && e.fs() == field_structure && e.sd().len() == 0,
            r matches Err(err) ==> err == epoch_geometry_error(width, height),
    {
        if width == 0 || height == 0 {
            return Err(VoleError::GeometryMismatch);
        }
        let total = layout.total_sample_count(width, height)?;
        proof {
            lemma_total_positive(layout, width, height);
        }
        if total == 0 {
            return Err(VoleError::GeometryMismatch);
        }
        Ok(
            VideoEpoch {
                id,
                width,
                height,
                layout,
                planes,
                color,
                sar,
                orientation,
                field_structure,
                side_data: Vec::new(),
            },
        )
    }

    /// Build an epoch with a uniform bit depth across every plane.
    pub fn new_uniform(
        id: EpochId,
        width: u32,
        height: u32,
        layout: PixelLayout,
        bit_depth: BitDepth,
        color: ColorDescription,
        sar: SampleAspectRatio,
        orientation: Orientation,
        field_structure: FieldStructure,
    ) -> (r: Result<Self, VoleError>)
        ensures
            r is Ok <==> epoch_geometry_ok(layout, width, height),
            r matches Ok(e) ==> e.eid() == id && e.w() == width && e.h() == height && e.lay()
                == layout && e.tmpls() == templates_with(
                layout,
                Seq::new(layout_planes(layout).len(), |i: int| bit_depth),
            ) && e.col() == color && e.sar_m() == sar && e.ori() == orientation && e.fs()
                == field_structure && e.sd().len() == 0,
            r matches Err(err) ==> err == epoch_geometry_error(width, height),
    {
        let lp = layout.planes();
        let ghost depths = Seq::new(layout_planes(layout).len(), |i: int| bit_depth);
        let mut templates: Vec<PlaneTemplate> = Vec::new();
        let mut i = 0usize;
        while i < lp.len()
            invariant
                i <= lp@.len(),
                lp@ == layout_planes(layout),
                depths == Seq::new(layout_planes(layout).len(), |k: int| bit_depth),
                templates@ == templates_with(layout, depths).subrange(0, i as int),
            decreases lp.len() - i,
        {
            let t = lp[i];
            templates.push(
                PlaneTemplate {
                    component: t.component,
                    subsample_x: t.subsample_x,
                    subsample_y: t.subsample_y,
                    bit_depth,
                },
            );
            proof {
                assert(depths[i as int] == bit_depth);
                assert(templates@ =~= templates_with(layout, depths).subrange(0, i + 1));
            }
            i = i + 1;
        }
        proof {
            assert(templates@ =~= templates_with(layout, depths));
        }
        Self::from_templates(
            id,
            width,
            height,
            layout,
            templates,
            color,
            sar,
            orientation,
            field_structure,
        )
    }

    /// Build an epoch with per-plane bit depths; their count must equal the
    /// layout's plane count (`GeometryMismatch` otherwise).
    pub fn new_per_plane(
        id: EpochId,
        width: u32,
        height: u32,
        layout: PixelLayout,
        depths: &[BitDepth],
        color: ColorDescription,
        sar: SampleAspectRatio,
        orientation: Orientation,
        field_structure: FieldStructure,
    ) -> (r: Result<Self, VoleError>)
        ensures
            r is Ok <==> depths@.len() == layout_planes(layout).len() && epoch_geometry_ok(
                layout,
                width,
                height,
            ),
            r matches Ok(e) ==> e.eid() == id && e.w() == width && e.h() == height && e.lay()
                == layout && e.tmpls() == templates_with(layout, depths@) && e.col() == color
                && e.sar_m() == sar && e.ori() == orientation && e.fs() == field_structure
                && e.sd().len() == 0,
            r matches Err(err) ==> err == if depths@.len() != layout_planes(layout).len() {
                VoleError::GeometryMismatch
            } else {
                epoch_geometry_error(width, height)
            },
    {
        if depths.len() != layout.plane_count() {
            return Err(VoleError::GeometryMismatch);
        }
        let lp = layout.planes();
        let mut templates: Vec<PlaneTemplate> = Vec::new();
        let mut i = 0usize;
        while i < lp.len()
            invariant
                i <= lp@.len(),
                lp@ == layout_planes(layout),
                depths@.len() == lp@.len(),
                templates@ == templates_with(layout, depths@).subrange(0, i as int),
            decreases lp.len() - i,
        {
            let t = lp[i];
            templates.push(
                PlaneTemplate {
                    component: t.component,
                    subsample_x: t.subsample_x,
                    subsample_y: t.subsample_y,
                    bit_depth: depths[i],
                },
            );
            proof {
                assert(templates@ =~= templates_with(layout, depths@).subrange(0, i + 1));
            }
            i = i + 1;
        }
        proof {
            assert(templates@ =~= templates_with(layout, depths@));
        }
        Self::from_templates(
            id,
            width,
            height,
            layout,
            templates,
            color,
            sar,
            orientation,
            field_structure,
        )
    }

    /// Append one piece of side data.
    pub fn with_side_data(self, sd: VisualSideData) -> (r: Self)
        ensures
            r.eid() == self.eid() && r.w() == self.w() && r.h() == self.h() && r.lay()
                == self.lay() && r.tmpls() == self.tmpls() && r.col() == self.col() && r.sar_m()
                == self.sar_m() && r.ori() == self.ori() && r.fs() == self.fs(),
            r.sd() == self.sd().push(sd),
    {
        proof {
            use_type_invariant(&self);
        }
        let VideoEpoch {
            id,
            width,
            height,
            layout,
            planes,
            color,
            sar,
            orientation,
            field_structure,
            mut side_data,
        } = self;
        side_data.push(sd);
        VideoEpoch {
            id,
            width,
            height,
            layout,
            planes,
            color,
            sar,
            orientation,
            field_structure,
            side_data,
        }
    }

    /// Epoch id.
    pub fn id(&self) -> (r: EpochId)
        ensures
            r == self.eid(),
    {
        self.id
    }

    /// Coded width.
    pub fn width(&self) -> (r: u32)
        ensures
            r == self.w(),
    {
        self.width
    }

    /// Coded height.
    pub fn height(&self) -> (r: u32)
        ensures
            r == self.h(),
    {
        self.height
    }

    /// Canonical layout.
    pub fn layout(&self) -> (r: PixelLayout)
        ensures
            r == self.lay(),
    {
        self.layout
    }

    /// Per-plane templates.
    pub fn planes(&self) -> (r: &[PlaneTemplate])
        ensures
            r@ == self.tmpls(),
            forall|i: int|
                0 <= i < r@.len() ==> (#[trigger] r@[i]).subsample_x <= 1 && r@[i].subsample_y <= 1,
    {
        proof {
            use_type_invariant(self);
            assert forall|i: int| 0 <= i < self.planes@.len() implies (#[trigger] self.planes@[i]).subsample_x <= 1
                && self.planes@[i].subsample_y <= 1 by {
                lemma_layout_subsampling_small(self.layout, i);
            }
        }
        self.planes.as_slice()
    }

    /// Plane count.
    pub fn plane_count(&self) -> (r: usize)
        ensures
            r == self.tmpls().len(),
            r == layout_planes(self.lay()).len(),
    {
        proof {
            use_type_invariant(self);
        }
        self.planes.len()
    }

    /// Chroma sample location (from the color description).
    pub fn chroma_location(&self) -> (r: ChromaLocation)
        ensures
            r == self.col().c(),
    {
        self.color.chroma_location()
    }

    /// Color description.
    pub fn color(&self) -> (r: ColorDescription)
        ensures
            r == self.col(),
    {
        self.color
    }

    /// Sample aspect ratio.
    pub fn sar(&self) -> (r: SampleAspectRatio)
        ensures
            r == self.sar_m(),
    {
        self.sar
    }

    /// Orientation.
    pub fn orientation(&self) -> (r: Orientation)
        ensures
            r == self.ori(),
    {
        self.orientation
    }

    /// Field structure.
    pub fn field_structure(&self) -> (r: FieldStructure)
        ensures
            r == self.fs(),
    {
        self.field_structure
    }

    /// Side data.
    pub fn side_data(&self) -> (r: &[VisualSideData])
        ensures
            r@ == self.sd(),
    {
        self.side_data.as_slice()
    }

    /// The authoritative dimensions of plane `i` under the coded geometry
    /// (the normative ceil rule); `GeometryMismatch` past the last plane.
    pub fn plane_dimensions(&self, i: usize) -> (r: Result<(u32, u32), VoleError>)
        ensures
            r is Ok <==> i < self.tmpls().len(),
            r matches Ok(d) ==> d == self.dims(i as int) && d.0 >= 1 && d.1 >= 1,
            r matches Err(e) ==> e == VoleError::GeometryMismatch,
    {
        proof {
            use_type_invariant(self);
            if i < self.planes@.len() {
                let t = layout_planes(self.layout)[i as int];
                lemma_layout_subsampling_small(self.layout, i as int);
                lemma_subsampled_bounds(self.width, t.subsample_x);
                lemma_subsampled_bounds(self.height, t.subsample_y);
            }
        }
        self.layout.plane_dimensions(i, self.width, self.height)
    }

    /// The sample count of plane `i`.
    pub fn plane_sample_count(&self, i: usize) -> (r: Result<u64, VoleError>)
        ensures
            r is Ok <==> i < self.tmpls().len(),
            r matches Ok(n) ==> n == self.dims(i as int).0 * self.dims(i as int).1,
            r matches Err(e) ==> e == VoleError::GeometryMismatch,
    {
        proof {
            use_type_invariant(self);
        }
        self.layout.plane_sample_count(i, self.width, self.height)
    }

    /// Total canonical sample count across every plane of one observation.
    pub fn total_sample_count(&self) -> (r: Result<u64, VoleError>)
        ensures
            r matches Ok(n) && n == total_samples_spec(
                self.lay(),
                self.w(),
                self.h(),
                layout_planes(self.lay()).len() as int,
            ),
    {
        proof {
            use_type_invariant(self);
        }
        self.layout.total_sample_count(self.width, self.height)
    }
    /// Total canonical storage bytes of one observation: the sum over planes
    /// of `sample_count × bytes_per_sample` (checked).
    pub fn observation_bytes(&self) -> (r: Result<u64, VoleError>)
        ensures
            r is Ok <==> obs_bytes_upto(*self, self.tmpls().len() as int) <= u64::MAX,
            r matches Ok(n) ==> n == obs_bytes_upto(*self, self.tmpls().len() as int),
            r matches Err(e) ==> e == VoleError::ArithmeticOverflow,
    {
        proof {
            use_type_invariant(self);
        }
        let n = self.planes.len();
        let mut total = 0u64;
        let mut i = 0usize;
        while i < n
            invariant
                i <= n,
                n == self.tmpls().len(),
                total == obs_bytes_upto(*self, i as int),
            decreases n - i,
        {
            let count = match self.plane_sample_count(i) {
                Ok(c) => c,
                Err(e) => {
                    return Err(e);
                },
            };
            let bps = self.planes[i].bit_depth.storage().bytes_per_sample();
            proof {
                lemma_obs_bytes_monotone(*self, (i + 1) as int, n as int);
            }
            let bytes = match count.checked_mul(bps) {
                Some(b) => b,
                None => {
                    return Err(VoleError::ArithmeticOverflow);
                },
            };
            total = match total.checked_add(bytes) {
                Some(t) => t,
                None => {
                    return Err(VoleError::ArithmeticOverflow);
                },
            };
            i = i + 1;
        }
        Ok(total)
    }

    /// Check a plane set against this epoch's plane table: count, and per
    /// plane component, geometry, bit depth and subsampling
    /// (`GeometryMismatch` otherwise).
    pub(crate) fn check_planes(&self, planes: &Vec<Plane>) -> (r: Result<(), VoleError>)
        ensures
            r is Ok <==> observation_fits(*self, planes@),
            r matches Err(e) ==> e == VoleError::GeometryMismatch,
    {
        proof {
            use_type_invariant(self);
        }
        if planes.len() != self.planes.len() {
            return Err(VoleError::GeometryMismatch);
        }
        let n = planes.len();
        let mut i = 0usize;
        while i < n
            invariant
                i <= n,
                n == planes@.len(),
                n == self.tmpls().len(),
                forall|j: int| 0 <= j < i ==> plane_matches(self.tmpls()[j], self.dims(j), #[trigger] planes@[j]),
            decreases n - i,
        {
            let (pw, ph) = match self.plane_dimensions(i) {
                Ok(d) => d,
                Err(e) => {
                    return Err(e);
                },
            };
            let tmpl = self.planes[i];
            let plane = &planes[i];
            if plane.component() != tmpl.component || plane.width() != pw || plane.height() != ph
                || plane.bit_depth() != tmpl.bit_depth || plane.subsample_x() != tmpl.subsample_x
                || plane.subsample_y() != tmpl.subsample_y {
                return Err(VoleError::GeometryMismatch);
            }
            if plane.storage() != tmpl.bit_depth.storage() {
                return Err(VoleError::InvalidSamples);
            }
            let count = self.plane_sample_count(i);
            if count.is_err() || plane.sample_count() != count.unwrap() {
                return Err(VoleError::InvalidSamples);
            }
            i = i + 1;
        }
        Ok(())
    }

    /// Check an observation against this epoch: its epoch binding
    /// (`EpochViolation`), then the plane table (`GeometryMismatch`).
    pub fn check_observation(&self, obs: &CanonicalVideoObservation) -> (r: Result<(), VoleError>)
        ensures
            r == if obs.ep() != self.eid() {
                Err::<(), VoleError>(VoleError::EpochViolation)
            } else if observation_fits(*self, obs.pls()) {
                Ok::<(), VoleError>(())
            } else {
                Err::<(), VoleError>(VoleError::GeometryMismatch)
            },
    {
        if obs.epoch != self.id {
            return Err(VoleError::EpochViolation);
        }
        match self.check_planes(&obs.planes) {
            Ok(()) => Ok(()),
            Err(_) => Err(VoleError::GeometryMismatch),
        }
    }

    /// A canonical payload for plane `i` with every sample at
    /// [`synthetic_value`] of the plane's depth (deterministic synthetic
    /// vectors).
    pub fn synthetic_plane(&self, i: usize) -> (r: Result<Plane, VoleError>)
        ensures
            r is Ok <==> i < self.tmpls().len() && self.dims(i as int).0 * self.dims(i as int).1
                <= usize::MAX,
            r matches Ok(p) ==> plane_matches(self.tmpls()[i as int], self.dims(i as int), p)
                && p.samples() == Seq::new(
                (self.dims(i as int).0 * self.dims(i as int).1) as nat,
                |k: int| synthetic_value(self.tmpls()[i as int].bit_depth),
            ),
            r matches Err(e) ==> e == if i >= self.tmpls().len() {
                VoleError::GeometryMismatch
            } else {
                VoleError::ArithmeticOverflow
            },
    {
        proof {
            use_type_invariant(self);
        }
        if i >= self.planes.len() {
            return Err(VoleError::GeometryMismatch);
        }
        let tmpl = self.planes[i];
        let (pw, ph) = match self.plane_dimensions(i) {
            Ok(d) => d,
            Err(e) => {
                return Err(e);
            },
        };
        proof {
            lemma_mul_upper_bound(pw as int, 0xffff_ffff, ph as int, 0xffff_ffff);
            lemma_layout_subsampling_small(self.layout, i as int);
            lemma_subsampled_bounds(self.width, tmpl.subsample_x);
            lemma_subsampled_bounds(self.height, tmpl.subsample_y);
        }
        let n64 = (pw as u64) * (ph as u64);
        if n64 > usize::MAX as u64 {
            return Err(VoleError::ArithmeticOverflow);
        }
        let n = n64 as usize;
        let ghost fill = synthetic_value(tmpl.bit_depth);
        let data = match tmpl.bit_depth.storage() {
            PlaneStorage::U8 => {
                let mut v: Vec<u8> = Vec::new();
                let mut k = 0usize;
                while k < n
                    invariant
                        k <= n,
                        v@ == Seq::new(k as nat, |j: int| 0x80u8),
                    decreases n - k,
                {
                    v.push(0x80);
                    proof {
                        assert(v@ =~= Seq::new((k + 1) as nat, |j: int| 0x80u8));
                    }
                    k = k + 1;
                }
                proof {
                    assert(v@.map_values(|x: u8| x as u32) =~= Seq::new(n as nat, |j: int| fill));
                }
                PlaneData::U8(v)
            },
            PlaneStorage::U16 => {
                let half = tmpl.bit_depth.max_sample() / 2;
                let hv = half as u16;
                let mut v: Vec<u16> = Vec::new();
                let mut k = 0usize;
                while k < n
                    invariant
                        k <= n,
                        v@ == Seq::new(k as nat, |j: int| hv),
                    decreases n - k,
                {
                    v.push(hv);
                    proof {
                        assert(v@ =~= Seq::new((k + 1) as nat, |j: int| hv));
                    }
                    k = k + 1;
                }
                proof {
                    assert(v@.map_values(|x: u16| x as u32) =~= Seq::new(n as nat, |j: int| fill));
                }
                PlaneData::U16(v)
            },
        };
        Plane::new(
            tmpl.component,
            pw,
            ph,
            tmpl.bit_depth,
            tmpl.subsample_x,
            tmpl.subsample_y,
            data,
        )
    }

}

/// One canonical observation: its epoch binding, its exact presentation
/// time, its optional exact duration, and the validated per-plane samples.
#[derive(Debug)]
pub struct CanonicalVideoObservation {
    epoch: EpochId,
    pts: Pts,
    duration: Option<Duration>,
    planes: Vec<Plane>,
}

impl CanonicalVideoObservation {
    /// Epoch binding (model).
    pub closed spec fn ep(self) -> EpochId {
        self.epoch
    }

    /// Presentation timestamp (model).
    pub closed spec fn pt(self) -> Pts {
        self.pts
    }

    /// Duration (model).
    pub closed spec fn dur(self) -> Option<Duration> {
        self.duration
    }

    /// Planes (model).
    pub closed spec fn pls(self) -> Seq<Plane> {
        self.planes@
    }

    /// Build an observation validated against its epoch's plane table
    /// (`GeometryMismatch` otherwise).
    pub fn new(epoch: &VideoEpoch, pts: Pts, duration: Option<Duration>, planes: Vec<Plane>) -> (r:
        Result<Self, VoleError>)
        ensures
            r is Ok <==> observation_fits(*epoch, planes@),
            r matches Ok(o) ==> o.ep() == epoch.eid() && o.pt() == pts && o.dur() == duration
                && o.pls() == planes@,
            r matches Err(e) ==> e == VoleError::GeometryMismatch,
    {
        match epoch.check_planes(&planes) {
            Ok(()) => Ok(CanonicalVideoObservation { epoch: epoch.id(), pts, duration, planes }),
            Err(e) => Err(e),
        }
    }

    /// Epoch id.
    pub fn epoch(&self) -> (r: EpochId)
        ensures
            r == self.ep(),
    {
        self.epoch
    }

    /// Presentation timestamp.
    pub fn pts(&self) -> (r: Pts)
        ensures
            r == self.pt(),
    {
        self.pts
    }

    /// Presentation duration.
    pub fn duration(&self) -> (r: Option<Duration>)
        ensures
            r == self.dur(),
    {
        self.duration
    }

    /// Planes.
    pub fn planes(&self) -> (r: &[Plane])
        ensures
            r@ == self.pls(),
    {
        self.planes.as_slice()
    }
}

/// Whether `a` presents strictly after `b` (exact comparison across time
/// bases).
pub open spec fn presents_after(a: Pts, b: Pts) -> bool {
    cross(a.v(), a.tb(), b.tb()) > cross(b.v(), b.tb(), a.tb())
}

/// Epoch ids are dense `0..n` in declaration order.
pub open spec fn ids_dense(es: Seq<VideoEpoch>) -> bool {
    forall|i: int| 0 <= i < es.len() ==> (#[trigger] es[i]).eid().0 == i
}

/// The fault of observation `k` of a sequence over dense epochs `es`: an
/// undeclared epoch or a presentation time not after its predecessor is an
/// epoch violation, a plane set off its epoch's table a geometry mismatch.
pub open spec fn video_obs_fault(es: Seq<VideoEpoch>, os: Seq<CanonicalVideoObservation>, k: int) -> Option<VoleError> {
    let o = os[k];
    if o.ep().0 >= es.len() {
        Some(VoleError::EpochViolation)
    } else if !observation_fits(es[o.ep().0 as int], o.pls()) {
        Some(VoleError::GeometryMismatch)
    } else if k > 0 && !presents_after(o.pt(), os[k - 1].pt()) {
        Some(VoleError::EpochViolation)
    } else {
        None
    }
}

/// A valid observation sequence over dense epochs.
pub open spec fn video_ok(es: Seq<VideoEpoch>, os: Seq<CanonicalVideoObservation>) -> bool {
    &&& es.len() > 0
    &&& ids_dense(es)
    &&& forall|k: int| 0 <= k < os.len() ==> #[trigger] video_obs_fault(es, os, k) is None
}

/// Whether an observation's end (`pts + duration`) is defined.
pub open spec fn end_ok(o: CanonicalVideoObservation) -> bool {
    &&& o.dur() is Some
    &&& o.dur()->0.tb() == o.pt().tb()
    &&& fits64(o.pt().v() + o.dur()->0.v())
}

/// Whether a timeline from `s` to `e` spans at least one tick on `e`'s base
/// and rescales exactly to `out ≥ 1` ticks of `at`.
pub open spec fn span_rescales(s: Pts, e_v: i64, e_tb: TimeBase, at: TimeBase, out: int) -> bool {
    exists|o: i64|
        rescales_to(s.v() as int, s.tb(), e_tb, o as int) && 1 <= e_v - o <= i64::MAX && rescales_to(
            e_v - o,
            e_tb,
            at,
            out,
        ) && out >= 1
}

/// Position of the epoch with id `id`.
fn find_epoch(es: &Vec<VideoEpoch>, id: EpochId) -> (r: Option<usize>)
    ensures
        r matches Some(j) ==> j < es@.len() && es@[j as int].eid() == id,
        r is None ==> forall|j: int| 0 <= j < es@.len() ==> (#[trigger] es@[j]).eid() != id,
{
    let n = es.len();
    let mut j = 0usize;
    while j < n
        invariant
            j <= n,
            n == es@.len(),
            forall|i: int| 0 <= i < j ==> (#[trigger] es@[i]).eid() != id,
        decreases n - j,
    {
        if es[j].id() == id {
            return Some(j);
        }
        j = j + 1;
    }
    None
}

/// Whether `a` presents strictly after `b`.
fn later_than(a: &Pts, b: &Pts) -> (r: bool)
    ensures
        r == presents_after(*a, *b),
{
    match a.cmp_pts(b) {
        Ok(core::cmp::Ordering::Greater) => true,
        _ => false,
    }
}

/// A validated canonical video: one or more epochs (dense ids `0..n`) and a
/// presentation-ordered observation sequence over them.
#[derive(Debug)]
pub struct CanonicalVideo {
    epochs: Vec<VideoEpoch>,
    observations: Vec<CanonicalVideoObservation>,
}

impl CanonicalVideo {
    #[verifier::type_invariant]
    spec fn inv(self) -> bool {
        video_ok(self.epochs@, self.observations@)
    }

    /// Epochs (model).
    pub closed spec fn eps(self) -> Seq<VideoEpoch> {
        self.epochs@
    }

    /// Observations (model).
    pub closed spec fn obss(self) -> Seq<CanonicalVideoObservation> {
        self.observations@
    }

    /// Validate and build a canonical video: at least one epoch with dense
    /// ids (`EpochViolation` otherwise); then, observation by observation,
    /// a declared epoch (`EpochViolation`), a plane set matching it
    /// (`GeometryMismatch`) and a presentation time strictly after the
    /// previous one (`EpochViolation`); the first fault decides.
    pub fn new(epochs: Vec<VideoEpoch>, observations: Vec<CanonicalVideoObservation>) -> (r:
        Result<Self, VoleError>)
        ensures
            r is Ok <==> video_ok(epochs@, observations@),
            r matches Ok(v) ==> v.eps() == epochs@ && v.obss() == observations@,
            (epochs@.len() == 0 || !ids_dense(epochs@)) ==> r == Err::<Self, VoleError>(
                VoleError::EpochViolation,
            ),
            r matches Err(e) ==> (epochs@.len() == 0 || !ids_dense(epochs@)) || exists|k: int|
                0 <= k < observations@.len() && #[trigger] video_obs_fault(epochs@, observations@, k) == Some(e)
                    && forall|j: int| 0 <= j < k ==> #[trigger] video_obs_fault(epochs@, observations@, j) is None,
    {
        if epochs.len() == 0 {
            return Err(VoleError::EpochViolation);
        }
        let ne = epochs.len();
        let mut expect: u64 = 0;
        let mut i = 0usize;
        while i < ne
            invariant
                i <= ne,
                ne == epochs@.len(),
                expect == i,
                forall|j: int| 0 <= j < i ==> (#[trigger] epochs@[j]).eid().0 == j,
            decreases ne - i,
        {
            if epochs[i].id().0 != expect {
                return Err(VoleError::EpochViolation);
            }
            i = i + 1;
            expect = expect + 1;
        }
        let no = observations.len();
        let mut k = 0usize;
        while k < no
            invariant
                k <= no,
                no == observations@.len(),
                ne == epochs@.len(),
                ne > 0,
                ids_dense(epochs@),
                forall|j: int| 0 <= j < k ==> #[trigger] video_obs_fault(epochs@, observations@, j) is None,
            decreases no - k,
        {
            let obs = &observations[k];
            let j = match find_epoch(&epochs, obs.epoch) {
                Some(j) => j,
                None => {
                    proof {
                        if obs.ep().0 < ne {
                            assert(epochs@[obs.ep().0 as int].eid().0 == obs.ep().0);
                        }
                        assert(video_obs_fault(epochs@, observations@, k as int) == Some(VoleError::EpochViolation));
                    }
                    return Err(VoleError::EpochViolation);
                },
            };
            proof {
                assert(epochs@[j as int].eid().0 == j);
            }
            match epochs[j].check_observation(obs) {
                Ok(()) => {},
                Err(e) => {
                    proof {
                        assert(video_obs_fault(epochs@, observations@, k as int) == Some(e));
                    }
                    return Err(e);
                },
            }
            if k > 0 {
                if !later_than(&obs.pts, &observations[k - 1].pts) {
                    proof {
                        assert(video_obs_fault(epochs@, observations@, k as int) == Some(VoleError::EpochViolation));
                    }
                    return Err(VoleError::EpochViolation);
                }
            }
            k = k + 1;
        }
        Ok(CanonicalVideo { epochs, observations })
    }

    /// Epochs in declaration order (ids are dense `0..n`).
    pub fn epochs(&self) -> (r: &[VideoEpoch])
        ensures
            r@ == self.eps(),
    {
        self.epochs.as_slice()
    }

    /// Epoch by id.
    pub fn epoch(&self, id: EpochId) -> (r: Option<&VideoEpoch>)
        ensures
            r matches Some(e) ==> id.0 < self.eps().len() && *e == self.eps()[id.0 as int],
            r is None ==> id.0 >= self.eps().len(),
    {
        proof {
            use_type_invariant(self);
        }
        match find_epoch(&self.epochs, id) {
            Some(j) => {
                proof {
                    assert(self.epochs@[j as int].eid().0 == j);
                }
                Some(&self.epochs[j])
            },
            None => {
                proof {
                    if id.0 < self.epochs@.len() {
                        assert(self.epochs@[id.0 as int].eid().0 == id.0);
                    }
                }
                None
            },
        }
    }

    /// Observations in presentation order.
    pub fn observations(&self) -> (r: &[CanonicalVideoObservation])
        ensures
            r@ == self.obss(),
    {
        self.observations.as_slice()
    }

    /// Observation count.
    pub fn observation_count(&self) -> (r: u64)
        ensures
            r == self.obss().len(),
    {
        self.observations.len() as u64
    }

    /// The epoch of the observation at `index`.
    pub fn epoch_of(&self, index: usize) -> (r: Option<&VideoEpoch>)
        ensures
            r is Some <==> index < self.obss().len(),
            r matches Some(e) ==> *e == self.eps()[self.obss()[index as int].ep().0 as int],
    {
        proof {
            use_type_invariant(self);
        }
        if index >= self.observations.len() {
            return None;
        }
        proof {
            assert(video_obs_fault(self.eps(), self.obss(), index as int) is None);
        }
        self.epoch(self.observations[index].epoch)
    }

    /// The first observation's PTS.
    pub fn start_pts(&self) -> (r: Option<Pts>)
        ensures
            r == if self.obss().len() > 0 {
                Some(self.obss()[0].pt())
            } else {
                None::<Pts>
            },
    {
        if self.observations.len() == 0 {
            None
        } else {
            Some(self.observations[0].pts)
        }
    }

    /// The exact presentation end of the last observation (its PTS plus its
    /// duration) when every observation has a defined end; a single missing
    /// duration makes the end undefined, never guessed.
    pub fn end_pts(&self) -> (r: Option<Pts>)
        ensures
            r is Some <==> self.obss().len() > 0 && forall|k: int|
                0 <= k < self.obss().len() ==> end_ok(#[trigger] self.obss()[k]),
            r matches Some(p) ==> {
                let last = self.obss()[self.obss().len() - 1];
                p.tb() == last.pt().tb() && p.v() == last.pt().v() + last.dur()->0.v()
            },
    {
        let n = self.observations.len();
        let mut end: Option<Pts> = None;
        let mut k = 0usize;
        while k < n
            invariant
                k <= n,
                n == self.obss().len(),
                forall|j: int| 0 <= j < k ==> end_ok(#[trigger] self.obss()[j]),
                end is Some <==> k > 0,
                end matches Some(p) ==> {
                    let last = self.obss()[k - 1];
                    p.tb() == last.pt().tb() && p.v() == last.pt().v() + last.dur()->0.v()
                },
            decreases n - k,
        {
            let obs = &self.observations[k];
            match obs.duration {
                None => {
                    return None;
                },
                Some(d) => match obs.pts.checked_add(d) {
                    Ok(p) => {
                        end = Some(p);
                    },
                    Err(_) => {
                        return None;
                    },
                },
            }
            k = k + 1;
        }
        end
    }

    /// Total timeline span (last end minus first start) on `at`'s base:
    /// exact, `None` when any end is undefined, and `TimeNotRepresentable`
    /// when the span is not at least one tick or not exactly representable
    /// on `at`.
    pub fn total_span(&self, at: TimeBase) -> (r: Result<Option<Duration>, VoleError>)
        ensures
            (self.obss().len() == 0 || exists|k: int|
                0 <= k < self.obss().len() && !end_ok(#[trigger] self.obss()[k])) ==> r == Ok::<
                Option<Duration>,
                VoleError,
            >(None),
            r matches Ok(Some(d)) ==> {
                let last = self.obss()[self.obss().len() - 1];
                &&& d.tb() == at
                &&& span_rescales(
                    self.obss()[0].pt(),
                    (last.pt().v() + last.dur()->0.v()) as i64,
                    last.pt().tb(),
                    at,
                    d.v() as int,
                )
            },
            r is Err ==> r == Err::<Option<Duration>, VoleError>(VoleError::TimeNotRepresentable),
            (self.obss().len() > 0 && (forall|k: int|
                0 <= k < self.obss().len() ==> end_ok(#[trigger] self.obss()[k])) && exists|out: i64|
                #[trigger] span_rescales(
                    self.obss()[0].pt(),
                    (self.obss()[self.obss().len() - 1].pt().v() + self.obss()[self.obss().len() - 1].dur()->0.v()) as i64,
                    self.obss()[self.obss().len() - 1].pt().tb(),
                    at,
                    out as int,
                )) ==> r is Ok,
    {
        let start = match self.start_pts() {
            Some(p) => p,
            None => {
                return Ok(None);
            },
        };
        let end = match self.end_pts() {
            Some(e) => e,
            None => {
                return Ok(None);
            },
        };
        let ghost ev = end.v();
        let ghost etb = end.tb();
        let _sn = start.time_base().numerator();
        let _sd = start.time_base().denominator();
        let _en = end.time_base().numerator();
        let _ed = end.time_base().denominator();
        let _an = at.numerator();
        let _ad = at.denominator();
        let span = match end.checked_span_from(&start) {
            Ok(s) => s,
            Err(e) => {
                proof {
                    assert forall|out: i64| !#[trigger] span_rescales(start, ev, etb, at, out as int) by {
                        if span_rescales(start, ev, etb, at, out as int) {
                            let o = choose|o: i64|
                                rescales_to(start.v() as int, start.tb(), etb, o as int) && 1 <= ev - o
                                    <= i64::MAX && rescales_to(ev - o, etb, at, out as int) && out >= 1;
                            assert(rescales_to(start.v() as int, start.tb(), end.tb(), o as int));
                        }
                    }
                }
                return Err(e);
            },
        };
        let _sv = span.value();
        let ghost o1 = choose|o: i64|
            rescales_to(start.v() as int, start.tb(), end.tb(), o as int) && span.v() == end.v() - o;
        match span.rescale(at) {
            Ok(d) => {
                let _dv = d.value();
                proof {
                    assert(rescales_to(start.v() as int, start.tb(), etb, o1 as int) && 1 <= ev - o1
                        <= i64::MAX && rescales_to(ev - o1, etb, at, d.v() as int) && d.v() >= 1);
                    assert(span_rescales(start, ev, etb, at, d.v() as int));
                }
                Ok(Some(d))
            },
            Err(e) => {
                proof {
                    assert forall|out: i64| !#[trigger] span_rescales(start, ev, etb, at, out as int) by {
                        if span_rescales(start, ev, etb, at, out as int) {
                            let o = choose|o: i64|
                                rescales_to(start.v() as int, start.tb(), etb, o as int) && 1 <= ev - o
                                    <= i64::MAX && rescales_to(ev - o, etb, at, out as int) && out >= 1;
                            lemma_rescale_unique(start.v() as int, start.tb(), etb, o as int, o1 as int);
                            assert(rescales_to(span.v() as int, span.tb(), at, out as int));
                        }
                    }
                }
                Err(e)
            },
        }
    }
}

/// Every plane of a nonzero geometry has at least one sample, so the total
/// is positive.
pub proof fn lemma_total_positive(layout: PixelLayout, width: u32, height: u32)
    requires
        width > 0,
        height > 0,
    ensures
        total_samples_spec(layout, width, height, layout_planes(layout).len() as int) >= 1,
{
    let n = layout_planes(layout).len() as int;
    assert(n >= 1);
    let t = layout_planes(layout)[0];
    lemma_layout_subsampling_small(layout, 0);
    lemma_subsampled_bounds(width, t.subsample_x);
    lemma_subsampled_bounds(height, t.subsample_y);
    reveal_with_fuel(total_samples_spec, 2);
    assert(subsampled(width, t.subsample_x) * subsampled(height, t.subsample_y) >= 1) by (nonlinear_arith)
        requires
            subsampled(width, t.subsample_x) >= 1,
            subsampled(height, t.subsample_y) >= 1,
    ;
    crate::media::layout::lemma_total_monotone(layout, width, height, 1, n);
}

} // verus!
