//! Component and pixel-layout registry.
//!
//! Samples are named by [`Component`]; a [`PixelLayout`] is a canonical,
//! planar, tightly packed arrangement of components with a declared
//! subsampling factor per plane. Subsampling is geometry: a plane whose axes
//! are subsampled by `sx`/`sy` covers `ceil(w / 2^sx) × ceil(h / 2^sy)`
//! samples of a `w × h` coded picture. Packed source formats are declared in
//! [`PackedSourceLayout`] and unpacked to a canonical layout at import.

use vstd::arithmetic::div_mod::*;
use vstd::arithmetic::mul::*;
use vstd::prelude::*;

use crate::error::VoleError;

verus! {

/// A named sample component.
#[derive(Debug, Clone, Copy, PartialEq, Eq, Hash, Structural)]
pub enum Component {
    /// Luma of a YUV family picture (also the single plane of YUV 4:0:0).
    Y,
    /// Blue-difference chroma.
    Cb,
    /// Red-difference chroma.
    Cr,
    /// Red of an RGB family picture.
    R,
    /// Green of an RGB family picture.
    G,
    /// Blue of an RGB family picture.
    B,
    /// Alpha.
    A,
    /// Monochrome.
    Gray,
    /// Palette index plane.
    Index,
    /// Reserved/other component id (never given a guessed interpretation).
    Other(u16),
}

/// Label of a component.
pub open spec fn component_label(c: Component) -> Seq<char> {
    match c {
        Component::Y => "Y"@,
        Component::Cb => "Cb"@,
        Component::Cr => "Cr"@,
        Component::R => "R"@,
        Component::G => "G"@,
        Component::B => "B"@,
        Component::A => "A"@,
        Component::Gray => "Gray"@,
        Component::Index => "Index"@,
        Component::Other(_) => "Other"@,
    }
}

impl Component {
    /// Stable label for receipts and diagnostics.
    pub fn label(&self) -> (r: &'static str)
        ensures
            r@ == component_label(*self),
    {
        match self {
            Component::Y => "Y",
            Component::Cb => "Cb",
            Component::Cr => "Cr",
            Component::R => "R",
            Component::G => "G",
            Component::B => "B",
            Component::A => "A",
            Component::Gray => "Gray",
            Component::Index => "Index",
            Component::Other(_) => "Other",
        }
    }

    /// Whether this component is luma-like (Y or Gray).
    pub fn is_luma(self) -> (r: bool)
        ensures
            r <==> (self == Component::Y || self == Component::Gray),
    {
        match self {
            Component::Y | Component::Gray => true,
            _ => false,
        }
    }

    /// Whether this component is chroma (Cb/Cr).
    pub fn is_chroma(self) -> (r: bool)
        ensures
            r <==> (self == Component::Cb || self == Component::Cr),
    {
        match self {
            Component::Cb | Component::Cr => true,
            _ => false,
        }
    }

    /// Whether this component is the alpha plane.
    pub fn is_alpha(self) -> (r: bool)
        ensures
            r <==> self == Component::A,
    {
        match self {
            Component::A => true,
            _ => false,
        }
    }
}

/// One plane of a canonical layout: its component and subsampling exponents.
#[derive(Debug, Clone, Copy, PartialEq, Eq, Structural)]
pub struct PlaneTemplate {
    /// The component carried by this plane.
    pub component: Component,
    /// Horizontal subsampling exponent (plane width = `ceil(w / 2^sx)`).
    pub subsample_x: u8,
    /// Vertical subsampling exponent (plane height = `ceil(h / 2^sy)`).
    pub subsample_y: u8,
}

/// Template constructor.
pub open spec fn tpl(c: Component, sx: u8, sy: u8) -> PlaneTemplate {
    PlaneTemplate { component: c, subsample_x: sx, subsample_y: sy }
}

fn mk(c: Component, sx: u8, sy: u8) -> (r: PlaneTemplate)
    ensures
        r == tpl(c, sx, sy),
{
    PlaneTemplate { component: c, subsample_x: sx, subsample_y: sy }
}

/// Canonical planar pixel layouts.
#[derive(Debug, Clone, Copy, PartialEq, Eq, Hash, Structural)]
pub enum PixelLayout {
    /// Single monochrome plane.
    Gray,
    /// YUV 4:0:0 — single luma plane.
    Yuv400,
    /// YUV 4:2:0.
    Yuv420,
    /// YUV 4:2:2.
    Yuv422,
    /// YUV 4:4:4.
    Yuv444,
    /// YUVA 4:2:0.
    Yuva420,
    /// YUVA 4:4:4.
    Yuva444,
    /// Planar RGB.
    Gbr,
    /// Planar RGB plus alpha.
    Gbra,
    /// Packed RGB unpacked to `R`, `G`, `B` planes.
    Rgb,
    /// Packed BGR unpacked to `B`, `G`, `R` planes.
    Bgr,
    /// Packed RGBA unpacked to `R`, `G`, `B`, `A` planes.
    Rgba,
    /// Packed BGRA unpacked to `B`, `G`, `R`, `A` planes.
    Bgra,
    /// Packed ARGB unpacked to `A`, `R`, `G`, `B` planes.
    Argb,
    /// Packed ABGR unpacked to `A`, `B`, `G`, `R` planes.
    Abgr,
    /// A single palette-`Index` plane.
    Indexed,
}

/// The ordered plane templates of a canonical layout.
pub open spec fn layout_planes(l: PixelLayout) -> Seq<PlaneTemplate> {
    match l {
        PixelLayout::Gray => seq![tpl(Component::Gray, 0, 0)],
        PixelLayout::Yuv400 => seq![tpl(Component::Y, 0, 0)],
        PixelLayout::Yuv420 => seq![
            tpl(Component::Y, 0, 0),
            tpl(Component::Cb, 1, 1),
            tpl(Component::Cr, 1, 1),
        ],
        PixelLayout::Yuv422 => seq![
            tpl(Component::Y, 0, 0),
            tpl(Component::Cb, 1, 0),
            tpl(Component::Cr, 1, 0),
        ],
        PixelLayout::Yuv444 => seq![
            tpl(Component::Y, 0, 0),
            tpl(Component::Cb, 0, 0),
            tpl(Component::Cr, 0, 0),
        ],
        PixelLayout::Yuva420 => seq![
            tpl(Component::Y, 0, 0),
            tpl(Component::Cb, 1, 1),
            tpl(Component::Cr, 1, 1),
            tpl(Component::A, 0, 0),
        ],
        PixelLayout::Yuva444 => seq![
            tpl(Component::Y, 0, 0),
            tpl(Component::Cb, 0, 0),
            tpl(Component::Cr, 0, 0),
            tpl(Component::A, 0, 0),
        ],
        PixelLayout::Gbr | PixelLayout::Rgb => seq![
            tpl(Component::R, 0, 0),
            tpl(Component::G, 0, 0),
            tpl(Component::B, 0, 0),
        ],
        PixelLayout::Gbra | PixelLayout::Rgba => seq![
            tpl(Component::R, 0, 0),
            tpl(Component::G, 0, 0),
            tpl(Component::B, 0, 0),
            tpl(Component::A, 0, 0),
        ],
        PixelLayout::Bgr => seq![
            tpl(Component::B, 0, 0),
            tpl(Component::G, 0, 0),
            tpl(Component::R, 0, 0),
        ],
        PixelLayout::Bgra => seq![
            tpl(Component::B, 0, 0),
            tpl(Component::G, 0, 0),
            tpl(Component::R, 0, 0),
            tpl(Component::A, 0, 0),
        ],
        PixelLayout::Argb => seq![
            tpl(Component::A, 0, 0),
            tpl(Component::R, 0, 0),
            tpl(Component::G, 0, 0),
            tpl(Component::B, 0, 0),
        ],
        PixelLayout::Abgr => seq![
            tpl(Component::A, 0, 0),
            tpl(Component::B, 0, 0),
            tpl(Component::G, 0, 0),
            tpl(Component::R, 0, 0),
        ],
        PixelLayout::Indexed => seq![tpl(Component::Index, 0, 0)],
    }
}

/// Label of a layout.
pub open spec fn layout_label(l: PixelLayout) -> Seq<char> {
    match l {
        PixelLayout::Gray => "gray"@,
        PixelLayout::Yuv400 => "yuv400"@,
        PixelLayout::Yuv420 => "yuv420"@,
        PixelLayout::Yuv422 => "yuv422"@,
        PixelLayout::Yuv444 => "yuv444"@,
        PixelLayout::Yuva420 => "yuva420"@,
        PixelLayout::Yuva444 => "yuva444"@,
        PixelLayout::Gbr => "gbr"@,
        PixelLayout::Gbra => "gbra"@,
        PixelLayout::Rgb => "rgb"@,
        PixelLayout::Bgr => "bgr"@,
        PixelLayout::Rgba => "rgba"@,
        PixelLayout::Bgra => "bgra"@,
        PixelLayout::Argb => "argb"@,
        PixelLayout::Abgr => "abgr"@,
        PixelLayout::Indexed => "indexed"@,
    }
}

/// Every template of every layout has subsampling exponents ≤ 1.
pub proof fn lemma_layout_subsampling_small(l: PixelLayout, i: int)
    requires
        0 <= i < layout_planes(l).len(),
    ensures
        layout_planes(l)[i].subsample_x <= 1,
        layout_planes(l)[i].subsample_y <= 1,
        1 <= layout_planes(l).len() <= 4,
{
}

/// The planes of a layout carry distinct components.
pub proof fn lemma_layout_components_distinct(l: PixelLayout, a: int, b: int)
    requires
        0 <= a < b < layout_planes(l).len(),
    ensures
        layout_planes(l)[a].component != layout_planes(l)[b].component,
{
}

/// `2^s` for the small subsampling exponents.
pub open spec fn shift_of(s: u8) -> nat {
    if s == 0 {
        1
    } else if s == 1 {
        2
    } else if s == 2 {
        4
    } else {
        8
    }
}

/// The subsampled length of an axis of `n` samples at exponent `s ≤ 3`:
/// `ceil(n / 2^s)`, that is `(n + 2^s − 1) / 2^s`.
pub open spec fn subsampled(n: u32, s: u8) -> nat {
    let k = shift_of(s);
    ((n + k - 1) as nat) / k
}

/// Plane dimensions of plane `i` for a `width × height` picture, when
/// defined.
pub open spec fn plane_dims_spec(l: PixelLayout, i: int, width: u32, height: u32) -> Option<
    (u32, u32),
> {
    if 0 <= i < layout_planes(l).len() && width > 0 && height > 0 {
        let t = layout_planes(l)[i];
        Some(
            (
                subsampled(width, t.subsample_x) as u32,
                subsampled(height, t.subsample_y) as u32,
            ),
        )
    } else {
        None
    }
}

/// Subsampled lengths of a positive axis are positive and never exceed the
/// full length.
pub proof fn lemma_subsampled_bounds(n: u32, s: u8)
    requires
        n > 0,
        s <= 3,
    ensures
        1 <= subsampled(n, s) <= n,
{
    let k = shift_of(s);
    let top = (n + k - 1) as nat;
    lemma_div_is_ordered(k as int, top as int, k as int);
    lemma_div_by_self(k as int);
    assert((n + k - 1) / (k as int) <= n) by {
        assert(n + k - 1 <= n * k + k - 1) by (nonlinear_arith)
            requires
                n >= 1,
                k >= 1,
        ;
        lemma_div_is_ordered((n + k - 1) as int, (n * k + k - 1) as int, k as int);
        lemma_fundamental_div_mod_converse_div((n * k + k - 1) as int, k as int, n as int, (k - 1) as int);
    }
}

/// `ceil(n / 2^s)`.
fn subsample_len(n: u32, s: u8) -> (r: Result<u32, VoleError>)
    ensures
        r is Ok <==> n > 0 && s <= 3,
        r matches Ok(v) ==> v == subsampled(n, s),
        r matches Err(e) ==> e == VoleError::GeometryMismatch,
{
    if n == 0 || s > 3 {
        return Err(VoleError::GeometryMismatch);
    }
    let shift: u32 = if s == 0 {
        1
    } else if s == 1 {
        2
    } else if s == 2 {
        4
    } else {
        8
    };
    let top = (n as u64) + ((shift - 1) as u64);
    let v = top / (shift as u64);
    proof {
        lemma_subsampled_bounds(n, s);
    }
    Ok(v as u32)
}

impl PixelLayout {
    /// The ordered plane templates of this canonical layout.
    pub fn planes(self) -> (r: Vec<PlaneTemplate>)
        ensures
            r@ == layout_planes(self),
    {
        let r = match self {
            PixelLayout::Gray => vec![mk(Component::Gray, 0, 0)],
            PixelLayout::Yuv400 => vec![mk(Component::Y, 0, 0)],
            PixelLayout::Yuv420 => vec![
                mk(Component::Y, 0, 0),
                mk(Component::Cb, 1, 1),
                mk(Component::Cr, 1, 1),
            ],
            PixelLayout::Yuv422 => vec![
                mk(Component::Y, 0, 0),
                mk(Component::Cb, 1, 0),
                mk(Component::Cr, 1, 0),
            ],
            PixelLayout::Yuv444 => vec![
                mk(Component::Y, 0, 0),
                mk(Component::Cb, 0, 0),
                mk(Component::Cr, 0, 0),
            ],
            PixelLayout::Yuva420 => vec![
                mk(Component::Y, 0, 0),
                mk(Component::Cb, 1, 1),
                mk(Component::Cr, 1, 1),
                mk(Component::A, 0, 0),
            ],
            PixelLayout::Yuva444 => vec![
                mk(Component::Y, 0, 0),
                mk(Component::Cb, 0, 0),
                mk(Component::Cr, 0, 0),
                mk(Component::A, 0, 0),
            ],
            PixelLayout::Gbr | PixelLayout::Rgb => vec![
                mk(Component::R, 0, 0),
                mk(Component::G, 0, 0),
                mk(Component::B, 0, 0),
            ],
            PixelLayout::Gbra | PixelLayout::Rgba => vec![
                mk(Component::R, 0, 0),
                mk(Component::G, 0, 0),
                mk(Component::B, 0, 0),
                mk(Component::A, 0, 0),
            ],
            PixelLayout::Bgr => vec![
                mk(Component::B, 0, 0),
                mk(Component::G, 0, 0),
                mk(Component::R, 0, 0),
            ],
            PixelLayout::Bgra => vec![
                mk(Component::B, 0, 0),
                mk(Component::G, 0, 0),
                mk(Component::R, 0, 0),
                mk(Component::A, 0, 0),
            ],
            PixelLayout::Argb => vec![
                mk(Component::A, 0, 0),
                mk(Component::R, 0, 0),
                mk(Component::G, 0, 0),
                mk(Component::B, 0, 0),
            ],
            PixelLayout::Abgr => vec![
                mk(Component::A, 0, 0),
                mk(Component::B, 0, 0),
                mk(Component::G, 0, 0),
                mk(Component::R, 0, 0),
            ],
            PixelLayout::Indexed => vec![mk(Component::Index, 0, 0)],
        };
        proof {
            assert(r@ =~= layout_planes(self));
        }
        r
    }

    /// Number of planes.
    pub fn plane_count(self) -> (r: usize)
        ensures
            r == layout_planes(self).len(),
            1 <= r <= 4,
    {
        let r = match self {
            PixelLayout::Gray | PixelLayout::Yuv400 | PixelLayout::Indexed => 1,
            PixelLayout::Yuv420 | PixelLayout::Yuv422 | PixelLayout::Yuv444 | PixelLayout::Gbr
            | PixelLayout::Rgb | PixelLayout::Bgr => 3,
            _ => 4,
        };
        r
    }

    /// The canonical subsampling geometry of plane `i` of a `width × height`
    /// coded picture (ceil rule per subsampled axis); `i` out of range or a
    /// zero dimension is a typed geometry error.
    pub fn plane_dimensions(self, i: usize, width: u32, height: u32) -> (r: Result<
        (u32, u32),
        VoleError,
    >)
        ensures
            r matches Ok(d) ==> plane_dims_spec(self, i as int, width, height) == Some(d),
            r is Err ==> plane_dims_spec(self, i as int, width, height) is None && r
                == Err::<(u32, u32), VoleError>(VoleError::GeometryMismatch),
    {
        let planes = self.planes();
        if i >= planes.len() {
            return Err(VoleError::GeometryMismatch);
        }
        let tmpl = planes[i];
        proof {
            lemma_layout_subsampling_small(self, i as int);
        }
        let pw = subsample_len(width, tmpl.subsample_x)?;
        let ph = subsample_len(height, tmpl.subsample_y)?;
        proof {
            lemma_subsampled_bounds(width, tmpl.subsample_x);
            lemma_subsampled_bounds(height, tmpl.subsample_y);
        }
        Ok((pw, ph))
    }

    /// Sample count of plane `i` (ceil rule applied per axis).
    pub fn plane_sample_count(self, i: usize, width: u32, height: u32) -> (r: Result<
        u64,
        VoleError,
    >)
        ensures
            r matches Ok(n) ==> plane_dims_spec(self, i as int, width, height) matches Some(d)
                && n == d.0 * d.1,
            r is Err ==> plane_dims_spec(self, i as int, width, height) is None && r == Err::<
                u64,
                VoleError,
            >(VoleError::GeometryMismatch),
    {
        let (pw, ph) = self.plane_dimensions(i, width, height)?;
        proof {
            lemma_mul_upper_bound(pw as int, 0xffff_ffff, ph as int, 0xffff_ffff);
        }
        Ok((pw as u64) * (ph as u64))
    }

    /// Total sample count over every plane of a `width × height` picture
    /// (checked: a sum beyond `u64` is `ArithmeticOverflow`).
    pub fn total_sample_count(self, width: u32, height: u32) -> (r: Result<u64, VoleError>)
        ensures
            r is Ok <==> width > 0 && height > 0 && total_samples_spec(
                self,
                width,
                height,
                layout_planes(self).len() as int,
            ) <= u64::MAX,
            r matches Ok(n) ==> n == total_samples_spec(
                self,
                width,
                height,
                layout_planes(self).len() as int,
            ),
            r matches Err(e) ==> (e == VoleError::GeometryMismatch <==> (width == 0 || height
                == 0)) && (e == VoleError::GeometryMismatch || e
                == VoleError::ArithmeticOverflow),
    {
        let count = self.plane_count();
        let mut total = 0u64;
        let mut i = 0usize;
        while i < count
            invariant
                count == layout_planes(self).len(),
                1 <= count <= 4,
                i <= count,
                width > 0 && height > 0 || i == 0,
                total == total_samples_spec(self, width, height, i as int),
            decreases count - i,
        {
            let n = self.plane_sample_count(i, width, height)?;
            match total.checked_add(n) {
                Some(t) => {
                    total = t;
                },
                None => {
                    proof {
                        lemma_total_monotone(self, width, height, (i + 1) as int, count as int);
                    }
                    return Err(VoleError::ArithmeticOverflow);
                },
            }
            i = i + 1;
        }
        Ok(total)
    }

    /// Stable label for receipts and diagnostics.
    pub fn label(self) -> (r: &'static str)
        ensures
            r@ == layout_label(self),
    {
        match self {
            PixelLayout::Gray => "gray",
            PixelLayout::Yuv400 => "yuv400",
            PixelLayout::Yuv420 => "yuv420",
            PixelLayout::Yuv422 => "yuv422",
            PixelLayout::Yuv444 => "yuv444",
            PixelLayout::Yuva420 => "yuva420",
            PixelLayout::Yuva444 => "yuva444",
            PixelLayout::Gbr => "gbr",
            PixelLayout::Gbra => "gbra",
            PixelLayout::Rgb => "rgb",
            PixelLayout::Bgr => "bgr",
            PixelLayout::Rgba => "rgba",
            PixelLayout::Bgra => "bgra",
            PixelLayout::Argb => "argb",
            PixelLayout::Abgr => "abgr",
            PixelLayout::Indexed => "indexed",
        }
    }
}

/// Sum of the sample counts of the first `k` planes of a `width × height`
/// picture.
pub open spec fn total_samples_spec(l: PixelLayout, width: u32, height: u32, k: int) -> int
    decreases k,
{
    if k <= 0 {
        0
    } else {
        let t = layout_planes(l)[k - 1];
        total_samples_spec(l, width, height, k - 1) + subsampled(width, t.subsample_x) * subsampled(
            height,
            t.subsample_y,
        )
    }
}

/// Partial plane sums grow with the number of planes summed.
pub proof fn lemma_total_monotone(l: PixelLayout, width: u32, height: u32, i: int, j: int)
    requires
        0 <= i <= j,
    ensures
        total_samples_spec(l, width, height, i) <= total_samples_spec(l, width, height, j),
    decreases j - i,
{
    if i < j {
        lemma_total_monotone(l, width, height, i, j - 1);
        let t = layout_planes(l)[j - 1];
        lemma_mul_nonnegative(
            subsampled(width, t.subsample_x) as int,
            subsampled(height, t.subsample_y) as int,
        );
    }
}

/// Packed / interleaved source sample formats, each of which maps to a
/// canonical [`PixelLayout`] at import.
#[derive(Debug, Clone, Copy, PartialEq, Eq, Hash, Structural)]
pub enum PackedSourceLayout {
    /// Luma plane + interleaved `Cb, Cr` plane (4:2:0).
    Nv12,
    /// Luma plane + interleaved `Cr, Cb` plane (4:2:0).
    Nv21,
    /// 10-bit `NV12`.
    P010,
    /// 12/16-bit `NV12`.
    P016,
    /// Interleaved `Y, Cb, Y, Cr` (4:2:2).
    Yuyv422,
    /// Interleaved `Cb, Y, Cr, Y` (4:2:2).
    Uyvy422,
    /// 8-bit palette-indexed.
    Pal8,
}

/// Label of a packed source layout.
pub open spec fn packed_label(p: PackedSourceLayout) -> Seq<char> {
    match p {
        PackedSourceLayout::Nv12 => "nv12"@,
        PackedSourceLayout::Nv21 => "nv21"@,
        PackedSourceLayout::P010 => "p010"@,
        PackedSourceLayout::P016 => "p016"@,
        PackedSourceLayout::Yuyv422 => "yuyv422"@,
        PackedSourceLayout::Uyvy422 => "uyvy422"@,
        PackedSourceLayout::Pal8 => "pal8"@,
    }
}

impl PackedSourceLayout {
    /// The canonical planar layout this packed form unpacks to.
    pub fn canonical_target(self) -> (r: PixelLayout)
        ensures
            r == match self {
                PackedSourceLayout::Nv12 | PackedSourceLayout::Nv21 | PackedSourceLayout::P010
                | PackedSourceLayout::P016 => PixelLayout::Yuv420,
                PackedSourceLayout::Yuyv422 | PackedSourceLayout::Uyvy422 => PixelLayout::Yuv422,
                PackedSourceLayout::Pal8 => PixelLayout::Indexed,
            },
    {
        match self {
            PackedSourceLayout::Nv12 | PackedSourceLayout::Nv21 => PixelLayout::Yuv420,
            PackedSourceLayout::P010 | PackedSourceLayout::P016 => PixelLayout::Yuv420,
            PackedSourceLayout::Yuyv422 | PackedSourceLayout::Uyvy422 => PixelLayout::Yuv422,
            PackedSourceLayout::Pal8 => PixelLayout::Indexed,
        }
    }

    /// Stable label for receipts and diagnostics.
    pub fn label(self) -> (r: &'static str)
        ensures
            r@ == packed_label(self),
    {
        match self {
            PackedSourceLayout::Nv12 => "nv12",
            PackedSourceLayout::Nv21 => "nv21",
            PackedSourceLayout::P010 => "p010",
            PackedSourceLayout::P016 => "p016",
            PackedSourceLayout::Yuyv422 => "yuyv422",
            PackedSourceLayout::Uyvy422 => "uyvy422",
            PackedSourceLayout::Pal8 => "pal8",
        }
    }
}

/// Plane sizes of a `w × h` picture: the luma (and any alpha) plane is full
/// size; 4:2:0 chroma is `ceil(w/2) × ceil(h/2)`, 4:2:2 chroma
/// `ceil(w/2) × h`, 4:4:4 chroma full size; every RGB plane is full size.
pub proof fn law_plane_dimensions(w: u32, h: u32)
    requires
        w > 0,
        h > 0,
    ensures
        ({
            let half_w = ((w as int + 1) / 2) as u32;
            let half_h = ((h as int + 1) / 2) as u32;
            &&& plane_dims_spec(PixelLayout::Yuv420, 0, w, h) == Some((w, h))
            &&& plane_dims_spec(PixelLayout::Yuv420, 1, w, h) == Some((half_w, half_h))
            &&& plane_dims_spec(PixelLayout::Yuv420, 2, w, h) == Some((half_w, half_h))
            &&& plane_dims_spec(PixelLayout::Yuva420, 1, w, h) == Some((half_w, half_h))
            &&& plane_dims_spec(PixelLayout::Yuva420, 2, w, h) == Some((half_w, half_h))
            &&& plane_dims_spec(PixelLayout::Yuva420, 3, w, h) == Some((w, h))
            &&& plane_dims_spec(PixelLayout::Yuv422, 0, w, h) == Some((w, h))
            &&& plane_dims_spec(PixelLayout::Yuv422, 1, w, h) == Some((half_w, h))
            &&& plane_dims_spec(PixelLayout::Yuv422, 2, w, h) == Some((half_w, h))
            &&& plane_dims_spec(PixelLayout::Yuv444, 1, w, h) == Some((w, h))
            &&& plane_dims_spec(PixelLayout::Yuv444, 2, w, h) == Some((w, h))
            &&& plane_dims_spec(PixelLayout::Yuva444, 3, w, h) == Some((w, h))
            &&& plane_dims_spec(PixelLayout::Rgb, 0, w, h) == Some((w, h))
            &&& plane_dims_spec(PixelLayout::Rgb, 2, w, h) == Some((w, h))
            &&& plane_dims_spec(PixelLayout::Gbr, 1, w, h) == Some((w, h))
            &&& plane_dims_spec(PixelLayout::Gray, 0, w, h) == Some((w, h))
        }),
{
    assert(((w + 1 - 1) as nat) / 1 == w);
    assert(((h + 1 - 1) as nat) / 1 == h);
}

} // verus!
