//! Registry codes of the multi-plane container and their exact mappings
//! to the media enums (each mapping is injective; unknown codes are typed
//! errors).

use vstd::prelude::*;

use crate::error::VoleError;
use crate::media::color::{
    ChromaLocation, ColorPrimaries, ColorRange, MatrixCoefficients, TransferCharacteristic,
};
use crate::media::layout::{Component, PixelLayout};
use crate::media::meta::{FieldStructure, Orientation};

verus! {

pub const LAYOUT_GRAY: u16 = 1;
pub const LAYOUT_YUV400: u16 = 2;
pub const LAYOUT_YUV420: u16 = 3;
pub const LAYOUT_YUV422: u16 = 4;
pub const LAYOUT_YUV444: u16 = 5;
pub const LAYOUT_YUVA420: u16 = 6;
pub const LAYOUT_YUVA444: u16 = 7;
pub const LAYOUT_GBR: u16 = 8;
pub const LAYOUT_GBRA: u16 = 9;
pub const LAYOUT_RGB: u16 = 10;
pub const LAYOUT_BGR: u16 = 11;
pub const LAYOUT_RGBA: u16 = 12;
pub const LAYOUT_BGRA: u16 = 13;
pub const LAYOUT_ARGB: u16 = 14;
pub const LAYOUT_ABGR: u16 = 15;
pub const LAYOUT_INDEXED: u16 = 16;

pub const COMP_Y: u8 = 1;
pub const COMP_CB: u8 = 2;
pub const COMP_CR: u8 = 3;
pub const COMP_R: u8 = 4;
pub const COMP_G: u8 = 5;
pub const COMP_B: u8 = 6;
pub const COMP_A: u8 = 7;
pub const COMP_GRAY: u8 = 8;
pub const COMP_INDEX: u8 = 9;

pub const OBJECT_FILL: u8 = 1;
pub const OBJECT_RASTER: u8 = 2;

pub const TAG_DESCRIPTOR: u8 = 0x11;
pub const TAG_PLANE: u8 = 0x10;

pub const OP_DECLARE_OBJECT: u8 = 0x21;
pub const OP_CREATE_INSTANCE: u8 = 0x22;
pub const OP_SET_POSITION: u8 = 0x23;
pub const OP_CLEAR_INSTANCES: u8 = 0x24;
pub const OP_CLEAR_OVERLAY: u8 = 0x25;
pub const OP_PATCH_OVERLAY: u8 = 0x26;
pub const OP_COPY_RECT: u8 = 0x27;
pub const OP_RESIDUAL: u8 = 0x28;

/// Registry code of a PixelLayout value.
pub open spec fn layout_code_spec(v: PixelLayout) -> u16 {
    match v {
        PixelLayout::Gray => LAYOUT_GRAY,
        PixelLayout::Yuv400 => LAYOUT_YUV400,
        PixelLayout::Yuv420 => LAYOUT_YUV420,
        PixelLayout::Yuv422 => LAYOUT_YUV422,
        PixelLayout::Yuv444 => LAYOUT_YUV444,
        PixelLayout::Yuva420 => LAYOUT_YUVA420,
        PixelLayout::Yuva444 => LAYOUT_YUVA444,
        PixelLayout::Gbr => LAYOUT_GBR,
        PixelLayout::Gbra => LAYOUT_GBRA,
        PixelLayout::Rgb => LAYOUT_RGB,
        PixelLayout::Bgr => LAYOUT_BGR,
        PixelLayout::Rgba => LAYOUT_RGBA,
        PixelLayout::Bgra => LAYOUT_BGRA,
        PixelLayout::Argb => LAYOUT_ARGB,
        PixelLayout::Abgr => LAYOUT_ABGR,
        PixelLayout::Indexed => LAYOUT_INDEXED,
    }
}

/// Registry code of a PixelLayout value.
pub fn layout_code(v: PixelLayout) -> (r: u16)
    ensures
        r == layout_code_spec(v),
{
    match v {
        PixelLayout::Gray => LAYOUT_GRAY,
        PixelLayout::Yuv400 => LAYOUT_YUV400,
        PixelLayout::Yuv420 => LAYOUT_YUV420,
        PixelLayout::Yuv422 => LAYOUT_YUV422,
        PixelLayout::Yuv444 => LAYOUT_YUV444,
        PixelLayout::Yuva420 => LAYOUT_YUVA420,
        PixelLayout::Yuva444 => LAYOUT_YUVA444,
        PixelLayout::Gbr => LAYOUT_GBR,
        PixelLayout::Gbra => LAYOUT_GBRA,
        PixelLayout::Rgb => LAYOUT_RGB,
        PixelLayout::Bgr => LAYOUT_BGR,
        PixelLayout::Rgba => LAYOUT_RGBA,
        PixelLayout::Bgra => LAYOUT_BGRA,
        PixelLayout::Argb => LAYOUT_ARGB,
        PixelLayout::Abgr => LAYOUT_ABGR,
        PixelLayout::Indexed => LAYOUT_INDEXED,
    }
}

/// The PixelLayout value of a registry code (`UnsupportedPixelLayout` for an unknown code).
pub fn layout_of(code: u16) -> (r: Result<PixelLayout, VoleError>)
    ensures
        r is Ok <==> 1 <= code <= 16,
        r matches Ok(v) ==> layout_code_spec(v) == code,
        r matches Err(e) ==> e == VoleError::UnsupportedPixelLayout,
{
    match code {
        LAYOUT_GRAY => Ok(PixelLayout::Gray),
        LAYOUT_YUV400 => Ok(PixelLayout::Yuv400),
        LAYOUT_YUV420 => Ok(PixelLayout::Yuv420),
        LAYOUT_YUV422 => Ok(PixelLayout::Yuv422),
        LAYOUT_YUV444 => Ok(PixelLayout::Yuv444),
        LAYOUT_YUVA420 => Ok(PixelLayout::Yuva420),
        LAYOUT_YUVA444 => Ok(PixelLayout::Yuva444),
        LAYOUT_GBR => Ok(PixelLayout::Gbr),
        LAYOUT_GBRA => Ok(PixelLayout::Gbra),
        LAYOUT_RGB => Ok(PixelLayout::Rgb),
        LAYOUT_BGR => Ok(PixelLayout::Bgr),
        LAYOUT_RGBA => Ok(PixelLayout::Rgba),
        LAYOUT_BGRA => Ok(PixelLayout::Bgra),
        LAYOUT_ARGB => Ok(PixelLayout::Argb),
        LAYOUT_ABGR => Ok(PixelLayout::Abgr),
        LAYOUT_INDEXED => Ok(PixelLayout::Indexed),
        _ => Err(VoleError::UnsupportedPixelLayout),
    }
}

/// Registry code of a ChromaLocation value.
pub open spec fn chroma_code_spec(v: ChromaLocation) -> u8 {
    match v {
        ChromaLocation::Unspecified => 0,
        ChromaLocation::Center => 1,
        ChromaLocation::Left => 2,
        ChromaLocation::TopLeft => 3,
        ChromaLocation::Top => 4,
        ChromaLocation::BottomLeft => 5,
        ChromaLocation::Bottom => 6,
    }
}

/// Registry code of a ChromaLocation value.
pub fn chroma_code(v: ChromaLocation) -> (r: u8)
    ensures
        r == chroma_code_spec(v),
{
    match v {
        ChromaLocation::Unspecified => 0,
        ChromaLocation::Center => 1,
        ChromaLocation::Left => 2,
        ChromaLocation::TopLeft => 3,
        ChromaLocation::Top => 4,
        ChromaLocation::BottomLeft => 5,
        ChromaLocation::Bottom => 6,
    }
}

/// The ChromaLocation value of a registry code (`NonCanonicalEncoding` for an unknown code).
pub fn chroma_of(code: u8) -> (r: Result<ChromaLocation, VoleError>)
    ensures
        r is Ok <==> 0 <= code <= 6,
        r matches Ok(v) ==> chroma_code_spec(v) == code,
        r matches Err(e) ==> e == VoleError::NonCanonicalEncoding,
{
    match code {
        0 => Ok(ChromaLocation::Unspecified),
        1 => Ok(ChromaLocation::Center),
        2 => Ok(ChromaLocation::Left),
        3 => Ok(ChromaLocation::TopLeft),
        4 => Ok(ChromaLocation::Top),
        5 => Ok(ChromaLocation::BottomLeft),
        6 => Ok(ChromaLocation::Bottom),
        _ => Err(VoleError::NonCanonicalEncoding),
    }
}

/// Registry code of a ColorPrimaries value.
pub open spec fn primaries_code_spec(v: ColorPrimaries) -> u8 {
    match v {
        ColorPrimaries::Unspecified => 0,
        ColorPrimaries::Bt709 => 1,
        ColorPrimaries::Bt470M => 2,
        ColorPrimaries::Bt470Bg => 3,
        ColorPrimaries::Smpte170M => 4,
        ColorPrimaries::Smpte240M => 5,
        ColorPrimaries::Film => 6,
        ColorPrimaries::Bt2020 => 7,
    }
}

/// Registry code of a ColorPrimaries value.
pub fn primaries_code(v: ColorPrimaries) -> (r: u8)
    ensures
        r == primaries_code_spec(v),
{
    match v {
        ColorPrimaries::Unspecified => 0,
        ColorPrimaries::Bt709 => 1,
        ColorPrimaries::Bt470M => 2,
        ColorPrimaries::Bt470Bg => 3,
        ColorPrimaries::Smpte170M => 4,
        ColorPrimaries::Smpte240M => 5,
        ColorPrimaries::Film => 6,
        ColorPrimaries::Bt2020 => 7,
    }
}

/// The ColorPrimaries value of a registry code (`NonCanonicalEncoding` for an unknown code).
pub fn primaries_of(code: u8) -> (r: Result<ColorPrimaries, VoleError>)
    ensures
        r is Ok <==> 0 <= code <= 7,
        r matches Ok(v) ==> primaries_code_spec(v) == code,
        r matches Err(e) ==> e == VoleError::NonCanonicalEncoding,
{
    match code {
        0 => Ok(ColorPrimaries::Unspecified),
        1 => Ok(ColorPrimaries::Bt709),
        2 => Ok(ColorPrimaries::Bt470M),
        3 => Ok(ColorPrimaries::Bt470Bg),
        4 => Ok(ColorPrimaries::Smpte170M),
        5 => Ok(ColorPrimaries::Smpte240M),
        6 => Ok(ColorPrimaries::Film),
        7 => Ok(ColorPrimaries::Bt2020),
        _ => Err(VoleError::NonCanonicalEncoding),
    }
}

/// Registry code of a TransferCharacteristic value.
pub open spec fn transfer_code_spec(v: TransferCharacteristic) -> u8 {
    match v {
        TransferCharacteristic::Unspecified => 0,
        TransferCharacteristic::Bt709 => 1,
        TransferCharacteristic::Gamma22 => 2,
        TransferCharacteristic::Gamma28 => 3,
        TransferCharacteristic::Smpte170M => 4,
        TransferCharacteristic::Smpte240M => 5,
        TransferCharacteristic::Linear => 6,
        TransferCharacteristic::Srgb => 7,
        TransferCharacteristic::Bt2020_10 => 8,
        TransferCharacteristic::Bt2020_12 => 9,
        TransferCharacteristic::Smpte2084 => 10,
        TransferCharacteristic::AribStdB67 => 11,
    }
}

/// Registry code of a TransferCharacteristic value.
pub fn transfer_code(v: TransferCharacteristic) -> (r: u8)
    ensures
        r == transfer_code_spec(v),
{
    match v {
        TransferCharacteristic::Unspecified => 0,
        TransferCharacteristic::Bt709 => 1,
        TransferCharacteristic::Gamma22 => 2,
        TransferCharacteristic::Gamma28 => 3,
        TransferCharacteristic::Smpte170M => 4,
        TransferCharacteristic::Smpte240M => 5,
        TransferCharacteristic::Linear => 6,
        TransferCharacteristic::Srgb => 7,
        TransferCharacteristic::Bt2020_10 => 8,
        TransferCharacteristic::Bt2020_12 => 9,
        TransferCharacteristic::Smpte2084 => 10,
        TransferCharacteristic::AribStdB67 => 11,
    }
}

/// The TransferCharacteristic value of a registry code (`NonCanonicalEncoding` for an unknown code).
pub fn transfer_of(code: u8) -> (r: Result<TransferCharacteristic, VoleError>)
    ensures
        r is Ok <==> 0 <= code <= 11,
        r matches Ok(v) ==> transfer_code_spec(v) == code,
        r matches Err(e) ==> e == VoleError::NonCanonicalEncoding,
{
    match code {
        0 => Ok(TransferCharacteristic::Unspecified),
        1 => Ok(TransferCharacteristic::Bt709),
        2 => Ok(TransferCharacteristic::Gamma22),
        3 => Ok(TransferCharacteristic::Gamma28),
        4 => Ok(TransferCharacteristic::Smpte170M),
        5 => Ok(TransferCharacteristic::Smpte240M),
        6 => Ok(TransferCharacteristic::Linear),
        7 => Ok(TransferCharacteristic::Srgb),
        8 => Ok(TransferCharacteristic::Bt2020_10),
        9 => Ok(TransferCharacteristic::Bt2020_12),
        10 => Ok(TransferCharacteristic::Smpte2084),
        11 => Ok(TransferCharacteristic::AribStdB67),
        _ => Err(VoleError::NonCanonicalEncoding),
    }
}

/// Registry code of a MatrixCoefficients value.
pub open spec fn matrix_code_spec(v: MatrixCoefficients) -> u8 {
    match v {
        MatrixCoefficients::Unspecified => 0,
        MatrixCoefficients::Identity => 1,
        MatrixCoefficients::Bt709 => 2,
        MatrixCoefficients::Smpte170M => 3,
        MatrixCoefficients::Smpte240M => 4,
        MatrixCoefficients::YcgCo => 5,
        MatrixCoefficients::Bt2020Ncl => 6,
        MatrixCoefficients::Bt2020Cl => 7,
    }
}

/// Registry code of a MatrixCoefficients value.
pub fn matrix_code(v: MatrixCoefficients) -> (r: u8)
    ensures
        r == matrix_code_spec(v),
{
    match v {
        MatrixCoefficients::Unspecified => 0,
        MatrixCoefficients::Identity => 1,
        MatrixCoefficients::Bt709 => 2,
        MatrixCoefficients::Smpte170M => 3,
        MatrixCoefficients::Smpte240M => 4,
        MatrixCoefficients::YcgCo => 5,
        MatrixCoefficients::Bt2020Ncl => 6,
        MatrixCoefficients::Bt2020Cl => 7,
    }
}

/// The MatrixCoefficients value of a registry code (`NonCanonicalEncoding` for an unknown code).
pub fn matrix_of(code: u8) -> (r: Result<MatrixCoefficients, VoleError>)
    ensures
        r is Ok <==> 0 <= code <= 7,
        r matches Ok(v) ==> matrix_code_spec(v) == code,
        r matches Err(e) ==> e == VoleError::NonCanonicalEncoding,
{
    match code {
        0 => Ok(MatrixCoefficients::Unspecified),
        1 => Ok(MatrixCoefficients::Identity),
        2 => Ok(MatrixCoefficients::Bt709),
        3 => Ok(MatrixCoefficients::Smpte170M),
        4 => Ok(MatrixCoefficients::Smpte240M),
        5 => Ok(MatrixCoefficients::YcgCo),
        6 => Ok(MatrixCoefficients::Bt2020Ncl),
        7 => Ok(MatrixCoefficients::Bt2020Cl),
        _ => Err(VoleError::NonCanonicalEncoding),
    }
}

/// Registry code of a ColorRange value.
pub open spec fn range_code_spec(v: ColorRange) -> u8 {
    match v {
        ColorRange::Unspecified => 0,
        ColorRange::Limited => 1,
        ColorRange::Full => 2,
    }
}

/// Registry code of a ColorRange value.
pub fn range_code(v: ColorRange) -> (r: u8)
    ensures
        r == range_code_spec(v),
{
    match v {
        ColorRange::Unspecified => 0,
        ColorRange::Limited => 1,
        ColorRange::Full => 2,
    }
}

/// The ColorRange value of a registry code (`NonCanonicalEncoding` for an unknown code).
pub fn range_of(code: u8) -> (r: Result<ColorRange, VoleError>)
    ensures
        r is Ok <==> 0 <= code <= 2,
        r matches Ok(v) ==> range_code_spec(v) == code,
        r matches Err(e) ==> e == VoleError::NonCanonicalEncoding,
{
    match code {
        0 => Ok(ColorRange::Unspecified),
        1 => Ok(ColorRange::Limited),
        2 => Ok(ColorRange::Full),
        _ => Err(VoleError::NonCanonicalEncoding),
    }
}

/// Registry code of a Orientation value.
pub open spec fn orientation_code_spec(v: Orientation) -> u8 {
    match v {
        Orientation::Normal => 0,
        Orientation::Rotate90 => 1,
        Orientation::Rotate180 => 2,
        Orientation::Rotate270 => 3,
        Orientation::FlipHorizontal => 4,
        Orientation::FlipVertical => 5,
    }
}

/// Registry code of a Orientation value.
pub fn orientation_code(v: Orientation) -> (r: u8)
    ensures
        r == orientation_code_spec(v),
{
    match v {
        Orientation::Normal => 0,
        Orientation::Rotate90 => 1,
        Orientation::Rotate180 => 2,
        Orientation::Rotate270 => 3,
        Orientation::FlipHorizontal => 4,
        Orientation::FlipVertical => 5,
    }
}

/// The Orientation value of a registry code (`NonCanonicalEncoding` for an unknown code).
pub fn orientation_of(code: u8) -> (r: Result<Orientation, VoleError>)
    ensures
        r is Ok <==> 0 <= code <= 5,
        r matches Ok(v) ==> orientation_code_spec(v) == code,
        r matches Err(e) ==> e == VoleError::NonCanonicalEncoding,
{
    match code {
        0 => Ok(Orientation::Normal),
        1 => Ok(Orientation::Rotate90),
        2 => Ok(Orientation::Rotate180),
        3 => Ok(Orientation::Rotate270),
        4 => Ok(Orientation::FlipHorizontal),
        5 => Ok(Orientation::FlipVertical),
        _ => Err(VoleError::NonCanonicalEncoding),
    }
}

/// Registry code of a FieldStructure value.
pub open spec fn field_code_spec(v: FieldStructure) -> u8 {
    match v {
        FieldStructure::Unknown => 0,
        FieldStructure::Progressive => 1,
        FieldStructure::InterlacedTopFieldFirst => 2,
        FieldStructure::InterlacedBottomFieldFirst => 3,
    }
}

/// Registry code of a FieldStructure value.
pub fn field_code(v: FieldStructure) -> (r: u8)
    ensures
        r == field_code_spec(v),
{
    match v {
        FieldStructure::Unknown => 0,
        FieldStructure::Progressive => 1,
        FieldStructure::InterlacedTopFieldFirst => 2,
        FieldStructure::InterlacedBottomFieldFirst => 3,
    }
}

/// The FieldStructure value of a registry code (`NonCanonicalEncoding` for an unknown code).
pub fn field_of(code: u8) -> (r: Result<FieldStructure, VoleError>)
    ensures
        r is Ok <==> 0 <= code <= 3,
        r matches Ok(v) ==> field_code_spec(v) == code,
        r matches Err(e) ==> e == VoleError::NonCanonicalEncoding,
{
    match code {
        0 => Ok(FieldStructure::Unknown),
        1 => Ok(FieldStructure::Progressive),
        2 => Ok(FieldStructure::InterlacedTopFieldFirst),
        3 => Ok(FieldStructure::InterlacedBottomFieldFirst),
        _ => Err(VoleError::NonCanonicalEncoding),
    }
}

/// Registry code of a Component value.
pub open spec fn component_code_spec(v: Component) -> u8 {
    match v {
        Component::Y => COMP_Y,
        Component::Cb => COMP_CB,
        Component::Cr => COMP_CR,
        Component::R => COMP_R,
        Component::G => COMP_G,
        Component::B => COMP_B,
        Component::A => COMP_A,
        Component::Gray => COMP_GRAY,
        Component::Index => COMP_INDEX,
        Component::Other(_) => 0,
    }
}

/// Registry code of a Component value.
pub fn component_code(v: Component) -> (r: u8)
    ensures
        r == component_code_spec(v),
{
    match v {
        Component::Y => COMP_Y,
        Component::Cb => COMP_CB,
        Component::Cr => COMP_CR,
        Component::R => COMP_R,
        Component::G => COMP_G,
        Component::B => COMP_B,
        Component::A => COMP_A,
        Component::Gray => COMP_GRAY,
        Component::Index => COMP_INDEX,
        Component::Other(_) => 0,
    }
}

/// The Component value of a registry code (`UnsupportedPixelLayout` for an unknown code).
pub fn component_of(code: u8) -> (r: Result<Component, VoleError>)
    ensures
        r is Ok <==> 1 <= code <= 9,
        r matches Ok(v) ==> component_code_spec(v) == code,
        r matches Err(e) ==> e == VoleError::UnsupportedPixelLayout,
{
    match code {
        COMP_Y => Ok(Component::Y),
        COMP_CB => Ok(Component::Cb),
        COMP_CR => Ok(Component::Cr),
        COMP_R => Ok(Component::R),
        COMP_G => Ok(Component::G),
        COMP_B => Ok(Component::B),
        COMP_A => Ok(Component::A),
        COMP_GRAY => Ok(Component::Gray),
        COMP_INDEX => Ok(Component::Index),
        _ => Err(VoleError::UnsupportedPixelLayout),
    }
}

} // verus!
