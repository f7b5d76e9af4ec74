//! Color semantics.
//!
//! Primaries, transfer characteristic, matrix, range and chroma sample
//! location are preserved exactly and never inferred: `Unspecified` means
//! the source did not declare the property. HDR static metadata is bounded
//! and validated (chromaticity in `0.00002` units up to 50 000, luminance in
//! `0.0001 cd/m²` units up to 100 000 000).

use vstd::prelude::*;
use vstd::string::*;

use crate::error::VoleError;

verus! {

/// Mastering-display chromaticity coordinate bound (ST 2086: 0.00002 units).
pub const MAX_CHROMATICITY: u32 = 50_000;

/// Mastering-display luminance bound in 0.0001 cd/m².
pub const MAX_LUMINANCE_UNITS: u32 = 100_000_000;

/// Color primaries of the encoded samples.
#[derive(Debug, Clone, Copy, PartialEq, Eq, Hash, Structural)]
pub enum ColorPrimaries {
    /// Not declared by the source.
    Unspecified,
    /// ITU-R BT.709.
    Bt709,
    /// ITU-R BT.470 System M.
    Bt470M,
    /// ITU-R BT.470 System B/G.
    Bt470Bg,
    /// SMPTE 170 M.
    Smpte170M,
    /// SMPTE 240 M.
    Smpte240M,
    /// Generic film.
    Film,
    /// ITU-R BT.2020.
    Bt2020,
}

/// Stable label of a [`ColorPrimaries`].
pub open spec fn color_primaries_label(v: ColorPrimaries) -> Seq<char> {
    match v {
        ColorPrimaries::Unspecified => "unspecified"@,
        ColorPrimaries::Bt709 => "bt709"@,
        ColorPrimaries::Bt470M => "bt470m"@,
        ColorPrimaries::Bt470Bg => "bt470bg"@,
        ColorPrimaries::Smpte170M => "smpte170m"@,
        ColorPrimaries::Smpte240M => "smpte240m"@,
        ColorPrimaries::Film => "film"@,
        ColorPrimaries::Bt2020 => "bt2020"@,
    }
}

impl ColorPrimaries {
    /// Whether the source declared nothing (never guessed).
    pub fn is_unspecified(self) -> (r: bool)
        ensures
            r <==> self == ColorPrimaries::Unspecified,
    {
        match self {
            ColorPrimaries::Unspecified => true,
            _ => false,
        }
    }


    /// Stable label.
    pub fn label(self) -> (r: &'static str)
        ensures
            r@ == color_primaries_label(self),
    {
        match self {
            ColorPrimaries::Unspecified => "unspecified",
            ColorPrimaries::Bt709 => "bt709",
            ColorPrimaries::Bt470M => "bt470m",
            ColorPrimaries::Bt470Bg => "bt470bg",
            ColorPrimaries::Smpte170M => "smpte170m",
            ColorPrimaries::Smpte240M => "smpte240m",
            ColorPrimaries::Film => "film",
            ColorPrimaries::Bt2020 => "bt2020",
        }
    }
}

/// Transfer characteristic of the encoded samples.
#[derive(Debug, Clone, Copy, PartialEq, Eq, Hash, Structural)]
pub enum TransferCharacteristic {
    /// Not declared by the source.
    Unspecified,
    /// ITU-R BT.709.
    Bt709,
    /// Gamma 2.2.
    Gamma22,
    /// Gamma 2.8.
    Gamma28,
    /// SMPTE 170 M.
    Smpte170M,
    /// SMPTE 240 M.
    Smpte240M,
    /// Linear.
    Linear,
    /// IEC 61966-2-1 (sRGB).
    Srgb,
    /// ITU-R BT.2020 (10-bit).
    Bt2020_10,
    /// ITU-R BT.2020 (12-bit).
    Bt2020_12,
    /// SMPTE ST 2084 (PQ).
    Smpte2084,
    /// ARIB STD-B67 (HLG).
    AribStdB67,
}

/// Stable label of a [`TransferCharacteristic`].
pub open spec fn transfer_characteristic_label(v: TransferCharacteristic) -> Seq<char> {
    match v {
        TransferCharacteristic::Unspecified => "unspecified"@,
        TransferCharacteristic::Bt709 => "bt709"@,
        TransferCharacteristic::Gamma22 => "gamma22"@,
        TransferCharacteristic::Gamma28 => "gamma28"@,
        TransferCharacteristic::Smpte170M => "smpte170m"@,
        TransferCharacteristic::Smpte240M => "smpte240m"@,
        TransferCharacteristic::Linear => "linear"@,
        TransferCharacteristic::Srgb => "srgb"@,
        TransferCharacteristic::Bt2020_10 => "bt2020-10"@,
        TransferCharacteristic::Bt2020_12 => "bt2020-12"@,
        TransferCharacteristic::Smpte2084 => "pq"@,
        TransferCharacteristic::AribStdB67 => "hlg"@,
    }
}

impl TransferCharacteristic {
    /// Whether the source declared nothing (never guessed).
    pub fn is_unspecified(self) -> (r: bool)
        ensures
            r <==> self == TransferCharacteristic::Unspecified,
    {
        match self {
            TransferCharacteristic::Unspecified => true,
            _ => false,
        }
    }


    /// Stable label.
    pub fn label(self) -> (r: &'static str)
        ensures
            r@ == transfer_characteristic_label(self),
    {
        match self {
            TransferCharacteristic::Unspecified => "unspecified",
            TransferCharacteristic::Bt709 => "bt709",
            TransferCharacteristic::Gamma22 => "gamma22",
            TransferCharacteristic::Gamma28 => "gamma28",
            TransferCharacteristic::Smpte170M => "smpte170m",
            TransferCharacteristic::Smpte240M => "smpte240m",
            TransferCharacteristic::Linear => "linear",
            TransferCharacteristic::Srgb => "srgb",
            TransferCharacteristic::Bt2020_10 => "bt2020-10",
            TransferCharacteristic::Bt2020_12 => "bt2020-12",
            TransferCharacteristic::Smpte2084 => "pq",
            TransferCharacteristic::AribStdB67 => "hlg",
        }
    }
}

/// Matrix coefficients used to derive luma/chroma from RGB.
#[derive(Debug, Clone, Copy, PartialEq, Eq, Hash, Structural)]
pub enum MatrixCoefficients {
    /// Not declared by the source.
    Unspecified,
    /// Identity (RGB content).
    Identity,
    /// ITU-R BT.709.
    Bt709,
    /// SMPTE 170 M.
    Smpte170M,
    /// SMPTE 240 M.
    Smpte240M,
    /// YCgCo.
    YcgCo,
    /// ITU-R BT.2020 non-constant luminance.
    Bt2020Ncl,
    /// ITU-R BT.2020 constant luminance.
    Bt2020Cl,
}

/// Stable label of a [`MatrixCoefficients`].
pub open spec fn matrix_coefficients_label(v: MatrixCoefficients) -> Seq<char> {
    match v {
        MatrixCoefficients::Unspecified => "unspecified"@,
        MatrixCoefficients::Identity => "identity"@,
        MatrixCoefficients::Bt709 => "bt709"@,
        MatrixCoefficients::Smpte170M => "smpte170m"@,
        MatrixCoefficients::Smpte240M => "smpte240m"@,
        MatrixCoefficients::YcgCo => "ycgco"@,
        MatrixCoefficients::Bt2020Ncl => "bt2020ncl"@,
        MatrixCoefficients::Bt2020Cl => "bt2020cl"@,
    }
}

impl MatrixCoefficients {
    /// Whether the source declared nothing (never guessed).
    pub fn is_unspecified(self) -> (r: bool)
        ensures
            r <==> self == MatrixCoefficients::Unspecified,
    {
        match self {
            MatrixCoefficients::Unspecified => true,
            _ => false,
        }
    }

    /// Whether this matrix means the samples are RGB.
    pub fn is_identity(self) -> (r: bool)
        ensures
            r <==> self == MatrixCoefficients::Identity,
    {
        match self {
            MatrixCoefficients::Identity => true,
            _ => false,
        }
    }

    /// Stable label.
    pub fn label(self) -> (r: &'static str)
        ensures
            r@ == matrix_coefficients_label(self),
    {
        match self {
            MatrixCoefficients::Unspecified => "unspecified",
            MatrixCoefficients::Identity => "identity",
            MatrixCoefficients::Bt709 => "bt709",
            MatrixCoefficients::Smpte170M => "smpte170m",
            MatrixCoefficients::Smpte240M => "smpte240m",
            MatrixCoefficients::YcgCo => "ycgco",
            MatrixCoefficients::Bt2020Ncl => "bt2020ncl",
            MatrixCoefficients::Bt2020Cl => "bt2020cl",
        }
    }
}

/// Luma/chroma sample range.
#[derive(Debug, Clone, Copy, PartialEq, Eq, Hash, Structural)]
pub enum ColorRange {
    /// Not declared by the source.
    Unspecified,
    /// Limited (studio) range.
    Limited,
    /// Full range.
    Full,
}

/// Stable label of a [`ColorRange`].
pub open spec fn color_range_label(v: ColorRange) -> Seq<char> {
    match v {
        ColorRange::Unspecified => "unspecified"@,
        ColorRange::Limited => "limited"@,
        ColorRange::Full => "full"@,
    }
}

impl ColorRange {
    /// Whether the source declared nothing (never guessed).
    pub fn is_unspecified(self) -> (r: bool)
        ensures
            r <==> self == ColorRange::Unspecified,
    {
        match self {
            ColorRange::Unspecified => true,
            _ => false,
        }
    }


    /// Stable label.
    pub fn label(self) -> (r: &'static str)
        ensures
            r@ == color_range_label(self),
    {
        match self {
            ColorRange::Unspecified => "unspecified",
            ColorRange::Limited => "limited",
            ColorRange::Full => "full",
        }
    }
}

/// Chroma sample location relative to luma samples.
#[derive(Debug, Clone, Copy, PartialEq, Eq, Hash, Structural)]
pub enum ChromaLocation {
    /// Not declared by the source.
    Unspecified,
    /// Horizontally centered.
    Center,
    /// Left-aligned.
    Left,
    /// Top-left.
    TopLeft,
    /// Top-centered.
    Top,
    /// Bottom-left.
    BottomLeft,
    /// Bottom-centered.
    Bottom,
}

/// Stable label of a [`ChromaLocation`].
pub open spec fn chroma_location_label(v: ChromaLocation) -> Seq<char> {
    match v {
        ChromaLocation::Unspecified => "unspecified"@,
        ChromaLocation::Center => "center"@,
        ChromaLocation::Left => "left"@,
        ChromaLocation::TopLeft => "topleft"@,
        ChromaLocation::Top => "top"@,
        ChromaLocation::BottomLeft => "bottomleft"@,
        ChromaLocation::Bottom => "bottom"@,
    }
}

impl ChromaLocation {
    /// Whether the source declared nothing (never guessed).
    pub fn is_unspecified(self) -> (r: bool)
        ensures
            r <==> self == ChromaLocation::Unspecified,
    {
        match self {
            ChromaLocation::Unspecified => true,
            _ => false,
        }
    }


    /// Stable label.
    pub fn label(self) -> (r: &'static str)
        ensures
            r@ == chroma_location_label(self),
    {
        match self {
            ChromaLocation::Unspecified => "unspecified",
            ChromaLocation::Center => "center",
            ChromaLocation::Left => "left",
            ChromaLocation::TopLeft => "topleft",
            ChromaLocation::Top => "top",
            ChromaLocation::BottomLeft => "bottomleft",
            ChromaLocation::Bottom => "bottom",
        }
    }
}

/// The full color interpretation of an epoch's encoded samples.
#[derive(Debug, Clone, Copy, PartialEq, Eq, Hash, Structural)]
pub struct ColorDescription {
    primaries: ColorPrimaries,
    transfer: TransferCharacteristic,
    matrix: MatrixCoefficients,
    range: ColorRange,
    chroma_location: ChromaLocation,
}

impl ColorDescription {
    /// Primaries (model).
    pub closed spec fn p(self) -> ColorPrimaries {
        self.primaries
    }

    /// Transfer characteristic (model).
    pub closed spec fn t(self) -> TransferCharacteristic {
        self.transfer
    }

    /// Matrix (model).
    pub closed spec fn m(self) -> MatrixCoefficients {
        self.matrix
    }

    /// Range (model).
    pub closed spec fn r(self) -> ColorRange {
        self.range
    }

    /// Chroma location (model).
    pub closed spec fn c(self) -> ChromaLocation {
        self.chroma_location
    }

    /// The five properties together.
    pub open spec fn props(self) -> (
        ColorPrimaries,
        TransferCharacteristic,
        MatrixCoefficients,
        ColorRange,
        ChromaLocation,
    ) {
        (self.p(), self.t(), self.m(), self.r(), self.c())
    }

    /// A complete color description, each property preserved as declared.
    pub fn new(
        primaries: ColorPrimaries,
        transfer: TransferCharacteristic,
        matrix: MatrixCoefficients,
        range: ColorRange,
        chroma_location: ChromaLocation,
    ) -> (r: Self)
        ensures
            r.props() == (primaries, transfer, matrix, range, chroma_location),
    {
        ColorDescription { primaries, transfer, matrix, range, chroma_location }
    }

    /// Every property unspecified.
    pub fn unspecified() -> (r: Self)
        ensures
            r.props() == (
                ColorPrimaries::Unspecified,
                TransferCharacteristic::Unspecified,
                MatrixCoefficients::Unspecified,
                ColorRange::Unspecified,
                ChromaLocation::Unspecified,
            ),
    {
        Self::new(
            ColorPrimaries::Unspecified,
            TransferCharacteristic::Unspecified,
            MatrixCoefficients::Unspecified,
            ColorRange::Unspecified,
            ChromaLocation::Unspecified,
        )
    }

    /// BT.709 SDR (limited range, centered chroma).
    pub fn bt709_sdr() -> (r: Self)
        ensures
            r.props() == (
                ColorPrimaries::Bt709,
                TransferCharacteristic::Bt709,
                MatrixCoefficients::Bt709,
                ColorRange::Limited,
                ChromaLocation::Center,
            ),
    {
        Self::new(
            ColorPrimaries::Bt709,
            TransferCharacteristic::Bt709,
            MatrixCoefficients::Bt709,
            ColorRange::Limited,
            ChromaLocation::Center,
        )
    }

    /// BT.601-family SD signaling (SMPTE 170 M).
    pub fn bt601_sd() -> (r: Self)
        ensures
            r.props() == (
                ColorPrimaries::Smpte170M,
                TransferCharacteristic::Smpte170M,
                MatrixCoefficients::Smpte170M,
                ColorRange::Limited,
                ChromaLocation::Center,
            ),
    {
        Self::new(
            ColorPrimaries::Smpte170M,
            TransferCharacteristic::Smpte170M,
            MatrixCoefficients::Smpte170M,
            ColorRange::Limited,
            ChromaLocation::Center,
        )
    }

    /// BT.2020 + SMPTE ST 2084 (PQ) signaling.
    pub fn bt2020_pq() -> (r: Self)
        ensures
            r.props() == (
                ColorPrimaries::Bt2020,
                TransferCharacteristic::Smpte2084,
                MatrixCoefficients::Bt2020Ncl,
                ColorRange::Limited,
                ChromaLocation::Center,
            ),
    {
        Self::new(
            ColorPrimaries::Bt2020,
            TransferCharacteristic::Smpte2084,
            MatrixCoefficients::Bt2020Ncl,
            ColorRange::Limited,
            ChromaLocation::Center,
        )
    }

    /// BT.2020 + ARIB STD-B67 (HLG) signaling.
    pub fn bt2020_hlg() -> (r: Self)
        ensures
            r.props() == (
                ColorPrimaries::Bt2020,
                TransferCharacteristic::AribStdB67,
                MatrixCoefficients::Bt2020Ncl,
                ColorRange::Limited,
                ChromaLocation::Center,
            ),
    {
        Self::new(
            ColorPrimaries::Bt2020,
            TransferCharacteristic::AribStdB67,
            MatrixCoefficients::Bt2020Ncl,
            ColorRange::Limited,
            ChromaLocation::Center,
        )
    }

    /// Full-range identity (RGB-family pictures).
    pub fn rgb_full() -> (r: Self)
        ensures
            r.props() == (
                ColorPrimaries::Bt709,
                TransferCharacteristic::Srgb,
                MatrixCoefficients::Identity,
                ColorRange::Full,
                ChromaLocation::Unspecified,
            ),
    {
        Self::new(
            ColorPrimaries::Bt709,
            TransferCharacteristic::Srgb,
            MatrixCoefficients::Identity,
            ColorRange::Full,
            ChromaLocation::Unspecified,
        )
    }

    /// Primaries.
    pub fn primaries(&self) -> (r: ColorPrimaries)
        ensures
            r == self.p(),
    {
        self.primaries
    }

    /// Transfer characteristic.
    pub fn transfer(&self) -> (r: TransferCharacteristic)
        ensures
            r == self.t(),
    {
        self.transfer
    }

    /// Matrix coefficients.
    pub fn matrix(&self) -> (r: MatrixCoefficients)
        ensures
            r == self.m(),
    {
        self.matrix
    }

    /// Range.
    pub fn range(&self) -> (r: ColorRange)
        ensures
            r == self.r(),
    {
        self.range
    }

    /// Chroma location.
    pub fn chroma_location(&self) -> (r: ChromaLocation)
        ensures
            r == self.c(),
    {
        self.chroma_location
    }

    /// Whether any property is unspecified (never silently completed).
    pub fn has_unspecified(&self) -> (r: bool)
        ensures
            r <==> (self.p() == ColorPrimaries::Unspecified || self.t()
                == TransferCharacteristic::Unspecified || self.m()
                == MatrixCoefficients::Unspecified || self.r() == ColorRange::Unspecified
                || self.c() == ChromaLocation::Unspecified),
    {
        self.primaries.is_unspecified() || self.transfer.is_unspecified()
            || self.matrix.is_unspecified() || self.range.is_unspecified()
            || self.chroma_location.is_unspecified()
    }

    /// Compact stable descriptor, e.g. `bt709/bt709/bt709/limited/center`.
    pub fn describe(&self) -> (r: String)
        ensures
            r@ == color_primaries_label(self.p()) + "/"@ + transfer_characteristic_label(self.t())
                + "/"@ + matrix_coefficients_label(self.m()) + "/"@ + color_range_label(
                self.r(),
            ) + "/"@ + chroma_location_label(self.c()),
    {
        let mut s = String::from_str(self.primaries.label());
        s.append("/");
        s.append(self.transfer.label());
        s.append("/");
        s.append(self.matrix.label());
        s.append("/");
        s.append(self.range.label());
        s.append("/");
        s.append(self.chroma_location.label());
        s
    }
}

/// SMPTE ST 2086 mastering-display colour volume (static HDR metadata).
#[derive(Debug, Clone, Copy, PartialEq, Eq)]
pub struct MasteringDisplay {
    /// Display primaries `(x, y)` in `0.00002` units: `[red, green, blue]`.
    pub display_primaries: [(u16, u16); 3],
    /// White point `(x, y)` in the same units.
    pub white_point: (u16, u16),
    /// Maximum luminance in `0.0001 cd/m²` units.
    pub max_luminance: u32,
    /// Minimum luminance in `0.0001 cd/m²` units.
    pub min_luminance: u32,
}

/// A chromaticity pair inside the ST 2086 domain.
pub open spec fn chroma_ok(v: (u16, u16)) -> bool {
    v.0 <= MAX_CHROMATICITY && v.1 <= MAX_CHROMATICITY
}

/// Every field of a mastering display inside its declared bounds.
pub open spec fn mastering_ok(
    display_primaries: [(u16, u16); 3],
    white_point: (u16, u16),
    max_luminance: u32,
    min_luminance: u32,
) -> bool {
    &&& chroma_ok(display_primaries[0])
    &&& chroma_ok(display_primaries[1])
    &&& chroma_ok(display_primaries[2])
    &&& chroma_ok(white_point)
    &&& max_luminance <= MAX_LUMINANCE_UNITS
    &&& min_luminance <= MAX_LUMINANCE_UNITS
    &&& min_luminance <= max_luminance
}

fn check_chroma(v: (u16, u16)) -> (r: bool)
    ensures
        r == chroma_ok(v),
{
    (v.0 as u32) <= MAX_CHROMATICITY && (v.1 as u32) <= MAX_CHROMATICITY
}

impl MasteringDisplay {
    /// Validate every field against the ST 2086-style bounds.
    pub fn new(
        display_primaries: [(u16, u16); 3],
        white_point: (u16, u16),
        max_luminance: u32,
        min_luminance: u32,
    ) -> (r: Result<Self, VoleError>)
        ensures
            r is Ok <==> mastering_ok(display_primaries, white_point, max_luminance, min_luminance),
            r matches Ok(m) ==> m == (MasteringDisplay {
                display_primaries,
                white_point,
                max_luminance,
                min_luminance,
            }),
            r matches Err(e) ==> e == VoleError::InvalidSamples,
    {
        if !check_chroma(display_primaries[0]) || !check_chroma(display_primaries[1])
            || !check_chroma(display_primaries[2]) || !check_chroma(white_point) {
            return Err(VoleError::InvalidSamples);
        }
        if max_luminance > MAX_LUMINANCE_UNITS || min_luminance > MAX_LUMINANCE_UNITS {
            return Err(VoleError::InvalidSamples);
        }
        if max_luminance < min_luminance {
            return Err(VoleError::InvalidSamples);
        }
        Ok(MasteringDisplay { display_primaries, white_point, max_luminance, min_luminance })
    }
}

/// CEA-861.3 content light level (static HDR metadata).
#[derive(Debug, Clone, Copy, PartialEq, Eq)]
pub struct ContentLightLevel {
    /// Maximum content light level in cd/m².
    pub max_cll: u16,
    /// Maximum frame-average light level in cd/m².
    pub max_fall: u16,
}

/// Static HDR metadata attached to an epoch.
#[derive(Debug, Clone, Copy, PartialEq, Eq, Default)]
pub struct HdrMetadata {
    /// Mastering-display colour volume.
    pub mastering_display: Option<MasteringDisplay>,
    /// Content light level.
    pub content_light_level: Option<ContentLightLevel>,
}

} // verus!
