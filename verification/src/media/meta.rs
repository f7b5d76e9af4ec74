//! Picture interpretation metadata: orientation, sample aspect ratio, field
//! structure and the bounded visual side-data registry. These are stored
//! interpretation, never baked into samples.

use vstd::arithmetic::mul::*;
use vstd::prelude::*;

use crate::arith::{gcd, gcd_u128, lemma_gcd_pos};
use crate::error::VoleError;
use crate::media::color::{ContentLightLevel, MasteringDisplay};

verus! {

/// Display orientation of the coded samples (presentation applies it).
#[derive(Debug, Clone, Copy, PartialEq, Eq, Hash, Structural)]
pub enum Orientation {
    /// No rotation or flip.
    Normal,
    /// Rotate 90° clockwise for display.
    Rotate90,
    /// Rotate 180° for display.
    Rotate180,
    /// Rotate 270° clockwise for display.
    Rotate270,
    /// Mirror horizontally for display.
    FlipHorizontal,
    /// Mirror vertically for display.
    FlipVertical,
}

/// Stable label of a [`Orientation`].
pub open spec fn orientation_label(v: Orientation) -> Seq<char> {
    match v {
        Orientation::Normal => "normal"@,
        Orientation::Rotate90 => "rotate90"@,
        Orientation::Rotate180 => "rotate180"@,
        Orientation::Rotate270 => "rotate270"@,
        Orientation::FlipHorizontal => "flip-horizontal"@,
        Orientation::FlipVertical => "flip-vertical"@,
    }
}

impl Orientation {
    /// Whether display equals the coded orientation.
    pub fn is_identity(self) -> (r: bool)
        ensures
            r <==> self == Orientation::Normal,
    {
        match self {
            Orientation::Normal => true,
            _ => false,
        }
    }

    /// Stable label.
    pub fn label(self) -> (r: &'static str)
        ensures
            r@ == orientation_label(self),
    {
        match self {
            Orientation::Normal => "normal",
            Orientation::Rotate90 => "rotate90",
            Orientation::Rotate180 => "rotate180",
            Orientation::Rotate270 => "rotate270",
            Orientation::FlipHorizontal => "flip-horizontal",
            Orientation::FlipVertical => "flip-vertical",
        }
    }
}

/// Sample aspect ratio `width / height` (both nonzero).
#[derive(Debug, Clone, Copy, PartialEq, Eq, Hash, Structural)]
pub struct SampleAspectRatio {
    width: u32,
    height: u32,
}

impl SampleAspectRatio {
    /// Width part (model).
    pub closed spec fn w(self) -> u32 {
        self.width
    }

    /// Height part (model).
    pub closed spec fn h(self) -> u32 {
        self.height
    }

    /// A SAR of `width / height`; a zero part is refused (`InvalidTimeBase`,
    /// the crate's rational-degeneracy error).
    pub fn new(width: u32, height: u32) -> (r: Result<Self, VoleError>)
        ensures
            r is Ok <==> width > 0 && height > 0,
            r matches Ok(s) ==> s.w() == width && s.h() == height,
            r matches Err(e) ==> e == VoleError::InvalidTimeBase,
    {
        if width == 0 || height == 0 {
            return Err(VoleError::InvalidTimeBase);
        }
        Ok(SampleAspectRatio { width, height })
    }

    /// Square samples.
    pub fn square() -> (r: Self)
        ensures
            r.w() == 1 && r.h() == 1,
    {
        SampleAspectRatio { width: 1, height: 1 }
    }

    /// Width part.
    pub fn width(&self) -> (r: u32)
        ensures
            r == self.w(),
    {
        self.width
    }

    /// Height part.
    pub fn height(&self) -> (r: u32)
        ensures
            r == self.h(),
    {
        self.height
    }

    /// Whether samples are square.
    pub fn is_square(&self) -> (r: bool)
        ensures
            r <==> self.w() == self.h(),
    {
        self.width == self.height
    }

    /// The display aspect ratio of a `width × height` coded picture,
    /// `(width·sar_w, height·sar_h)` divided by their gcd, exactly; a
    /// reduced part beyond `u32` is `ArithmeticOverflow`.
    pub fn display_aspect(&self, width: u32, height: u32) -> (r: Result<(u32, u32), VoleError>)
        ensures
            width == 0 || height == 0 ==> r == Err::<(u32, u32), VoleError>(
                VoleError::GeometryMismatch,
            ),
            width > 0 && height > 0 ==> r == display_aspect_spec(
                (width as nat * self.w()) as nat,
                (height as nat * self.h()) as nat,
            ),
    {
        if width == 0 || height == 0 {
            return Err(VoleError::GeometryMismatch);
        }
        proof {
            lemma_mul_upper_bound(width as int, 0xffff_ffff, self.width as int, 0xffff_ffff);
            lemma_mul_upper_bound(height as int, 0xffff_ffff, self.height as int, 0xffff_ffff);
        }
        let num = (width as u128) * (self.width as u128);
        let den = (height as u128) * (self.height as u128);
        let g = gcd_u128(num, den);
        proof {
            lemma_mul_nonnegative(width as int, self.width as int);
            if num == 0 && den == 0 {
            } else {
                lemma_gcd_pos(num as nat, den as nat);
            }
            if num == 0 {
                assert(den >= 0);
            }
        }
        if g == 0 {
            return Err(VoleError::ArithmeticOverflow);
        }
        let n = num / g;
        let d = den / g;
        if n == 0 || d == 0 || n > 0xffff_ffff || d > 0xffff_ffff {
            return Err(VoleError::ArithmeticOverflow);
        }
        Ok((n as u32, d as u32))
    }
}

/// The exact reduced display ratio of `num : den`; `ArithmeticOverflow`
/// when a reduced part is zero or beyond `u32`.
pub open spec fn display_aspect_spec(num: nat, den: nat) -> Result<(u32, u32), VoleError> {
    let g = gcd(num, den);
    if g == 0 {
        Err(VoleError::ArithmeticOverflow)
    } else {
        let n = num / g;
        let d = den / g;
        if n == 0 || d == 0 || n > u32::MAX || d > u32::MAX {
            Err(VoleError::ArithmeticOverflow)
        } else {
            Ok((n as u32, d as u32))
        }
    }
}

/// Field structure of the coded samples (import never deinterlaces).
#[derive(Debug, Clone, Copy, PartialEq, Eq, Hash, Structural)]
pub enum FieldStructure {
    /// Not declared.
    Unknown,
    /// Progressive (no fields).
    Progressive,
    /// Interlaced, top field first.
    InterlacedTopFieldFirst,
    /// Interlaced, bottom field first.
    InterlacedBottomFieldFirst,
}

/// Stable label of a [`FieldStructure`].
pub open spec fn field_structure_label(v: FieldStructure) -> Seq<char> {
    match v {
        FieldStructure::Unknown => "unknown"@,
        FieldStructure::Progressive => "progressive"@,
        FieldStructure::InterlacedTopFieldFirst => "interlaced-tff"@,
        FieldStructure::InterlacedBottomFieldFirst => "interlaced-bff"@,
    }
}

impl FieldStructure {
    /// Whether the content is interlaced.
    pub fn is_interlaced(self) -> (r: bool)
        ensures
            r <==> (self == FieldStructure::InterlacedTopFieldFirst || self
                == FieldStructure::InterlacedBottomFieldFirst),
    {
        match self {
            FieldStructure::InterlacedTopFieldFirst | FieldStructure::InterlacedBottomFieldFirst => true,
            _ => false,
        }
    }

    /// Whether the structure is undeclared.
    pub fn is_unknown(self) -> (r: bool)
        ensures
            r <==> self == FieldStructure::Unknown,
    {
        match self {
            FieldStructure::Unknown => true,
            _ => false,
        }
    }

    /// Stable label.
    pub fn label(self) -> (r: &'static str)
        ensures
            r@ == field_structure_label(self),
    {
        match self {
            FieldStructure::Unknown => "unknown",
            FieldStructure::Progressive => "progressive",
            FieldStructure::InterlacedTopFieldFirst => "interlaced-tff",
            FieldStructure::InterlacedBottomFieldFirst => "interlaced-bff",
        }
    }
}

/// Classification of a visual side-data kind: typed data is executable
/// semantics, opaque data is preserved bounded and inert, unsupported data
/// fails closed.
#[derive(Debug, Clone, Copy, PartialEq, Eq, Structural)]
pub enum SideDataClass {
    /// Parsed and preserved exactly.
    KnownTyped,
    /// Bounded, preserved verbatim, never executed.
    OpaquePreserved,
    /// Not executable.
    Unsupported,
}

/// A visual side-data registry kind.
#[derive(Debug, Clone, Copy, PartialEq, Eq, Structural)]
pub enum VisualSideDataKind {
    /// SMPTE ST 2086 mastering-display colour volume (typed).
    MasteringDisplay,
    /// CEA-861.3 content light level (typed).
    ContentLightLevel,
    /// SMPTE 12M timecode (typed container).
    Timecode,
    /// Reserved/unknown id space (never executed).
    Other(u32),
}

/// Registry classification of a kind.
pub open spec fn kind_class(k: VisualSideDataKind) -> SideDataClass {
    match k {
        VisualSideDataKind::Other(_) => SideDataClass::Unsupported,
        _ => SideDataClass::KnownTyped,
    }
}

/// Label of a side-data kind.
pub open spec fn side_data_kind_label(k: VisualSideDataKind) -> Seq<char> {
    match k {
        VisualSideDataKind::MasteringDisplay => "mastering-display"@,
        VisualSideDataKind::ContentLightLevel => "content-light-level"@,
        VisualSideDataKind::Timecode => "timecode"@,
        VisualSideDataKind::Other(_) => "other"@,
    }
}

impl VisualSideDataKind {
    /// Registry classification.
    pub fn classification(self) -> (r: SideDataClass)
        ensures
            r == kind_class(self),
    {
        match self {
            VisualSideDataKind::MasteringDisplay | VisualSideDataKind::ContentLightLevel
            | VisualSideDataKind::Timecode => SideDataClass::KnownTyped,
            VisualSideDataKind::Other(_) => SideDataClass::Unsupported,
        }
    }

    /// Stable label for receipts.
    pub fn label(self) -> (r: &'static str)
        ensures
            r@ == side_data_kind_label(self),
    {
        match self {
            VisualSideDataKind::MasteringDisplay => "mastering-display",
            VisualSideDataKind::ContentLightLevel => "content-light-level",
            VisualSideDataKind::Timecode => "timecode",
            VisualSideDataKind::Other(_) => "other",
        }
    }
}

/// Bound on one opaque side-data payload.
pub const MAX_OPAQUE_SIDE_DATA: usize = 1048576;

/// One piece of visual side data attached to an epoch.
#[derive(Debug, Clone, PartialEq, Eq)]
pub enum VisualSideData {
    /// Fully typed mastering-display volume.
    MasteringDisplay(MasteringDisplay),
    /// Fully typed content light level.
    ContentLightLevel(ContentLightLevel),
    /// Bounded opaque payload preserved verbatim under a declared kind id.
    Opaque {
        /// Declared kind id.
        kind: u32,
        /// Bounded payload (at most [`MAX_OPAQUE_SIDE_DATA`] bytes).
        payload: Vec<u8>,
    },
}

/// Registry kind of a side-data entry.
pub open spec fn side_data_kind(s: VisualSideData) -> VisualSideDataKind {
    match s {
        VisualSideData::MasteringDisplay(_) => VisualSideDataKind::MasteringDisplay,
        VisualSideData::ContentLightLevel(_) => VisualSideDataKind::ContentLightLevel,
        VisualSideData::Opaque { kind, .. } => VisualSideDataKind::Other(kind),
    }
}

impl VisualSideData {
    /// Wrap a bounded opaque payload; an oversized payload is refused.
    pub fn opaque(kind: u32, payload: Vec<u8>) -> (r: Result<Self, VoleError>)
        ensures
            r is Ok <==> payload.len() <= MAX_OPAQUE_SIDE_DATA,
            r matches Ok(s) ==> s matches VisualSideData::Opaque { kind: k, payload: p } && k
                == kind && p@ == payload@,
            r matches Err(e) ==> e == VoleError::DimensionTooLarge,
    {
        if payload.len() > MAX_OPAQUE_SIDE_DATA {
            return Err(VoleError::DimensionTooLarge);
        }
        Ok(VisualSideData::Opaque { kind, payload })
    }

    /// The registry kind of this entry.
    pub fn kind(&self) -> (r: VisualSideDataKind)
        ensures
            r == side_data_kind(*self),
    {
        match self {
            VisualSideData::MasteringDisplay(_) => VisualSideDataKind::MasteringDisplay,
            VisualSideData::ContentLightLevel(_) => VisualSideDataKind::ContentLightLevel,
            VisualSideData::Opaque { kind, .. } => VisualSideDataKind::Other(*kind),
        }
    }

    /// Registry classification.
    pub fn classification(&self) -> (r: SideDataClass)
        ensures
            r == kind_class(side_data_kind(*self)),
    {
        self.kind().classification()
    }

    /// Whether this entry carries executable semantics.
    pub fn is_typed(&self) -> (r: bool)
        ensures
            r <==> !(*self is Opaque),
    {
        match self {
            VisualSideData::MasteringDisplay(_) | VisualSideData::ContentLightLevel(_) => true,
            VisualSideData::Opaque { .. } => false,
        }
    }
}

} // verus!
