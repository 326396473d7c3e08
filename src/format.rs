//! The closed code tables of the container: record tags, pixel formats and
//! screen modes.
use vstd::prelude::*;

verus! {

/// The tag bytes `T`, `X`, `P`, `k`.
pub open spec fn tag(k: u8) -> Seq<u8> {
    seq![0x54u8, 0x58u8, 0x50u8, k]
}

/// Pixel formats a mip-level record may declare.
#[derive(Clone, Copy, Debug, PartialEq, Eq, Structural)]
#[allow(non_camel_case_types)]
pub enum TextureFormat {
    Unknown,
    A8,
    RGB8,
    RGBA8,
    RGB5,
    RGB5A1,
    RGBA4,
    DXT1,
    DXT1a,
    DXT3,
    DXT5,
    ATI1,
    ATI2,
    L8,
    L8A8,
    BC7,
    BC6H,
}

/// The 32-bit code of each pixel format.
pub open spec fn format_code(f: TextureFormat) -> u32 {
    match f {
        TextureFormat::Unknown => 4294967295u32,
        TextureFormat::A8 => 0u32,
        TextureFormat::RGB8 => 1u32,
        TextureFormat::RGBA8 => 2u32,
        TextureFormat::RGB5 => 3u32,
        TextureFormat::RGB5A1 => 4u32,
        TextureFormat::RGBA4 => 5u32,
        TextureFormat::DXT1 => 6u32,
        TextureFormat::DXT1a => 7u32,
        TextureFormat::DXT3 => 8u32,
        TextureFormat::DXT5 => 9u32,
        TextureFormat::ATI1 => 10u32,
        TextureFormat::ATI2 => 11u32,
        TextureFormat::L8 => 12u32,
        TextureFormat::L8A8 => 13u32,
        TextureFormat::BC7 => 15u32,
        TextureFormat::BC6H => 127u32,
    }
}

/// The pixel format with code `c`, if any.
pub open spec fn format_of_code(c: u32) -> Option<TextureFormat> {
    if c == 4294967295u32 {
        Some(TextureFormat::Unknown)
    } else if c == 0u32 {
        Some(TextureFormat::A8)
    } else if c == 1u32 {
        Some(TextureFormat::RGB8)
    } else if c == 2u32 {
        Some(TextureFormat::RGBA8)
    } else if c == 3u32 {
        Some(TextureFormat::RGB5)
    } else if c == 4u32 {
        Some(TextureFormat::RGB5A1)
    } else if c == 5u32 {
        Some(TextureFormat::RGBA4)
    } else if c == 6u32 {
        Some(TextureFormat::DXT1)
    } else if c == 7u32 {
        Some(TextureFormat::DXT1a)
    } else if c == 8u32 {
        Some(TextureFormat::DXT3)
    } else if c == 9u32 {
        Some(TextureFormat::DXT5)
    } else if c == 10u32 {
        Some(TextureFormat::ATI1)
    } else if c == 11u32 {
        Some(TextureFormat::ATI2)
    } else if c == 12u32 {
        Some(TextureFormat::L8)
    } else if c == 13u32 {
        Some(TextureFormat::L8A8)
    } else if c == 15u32 {
        Some(TextureFormat::BC7)
    } else if c == 127u32 {
        Some(TextureFormat::BC6H)
    } else {
        None
    }
}

/// The block-compressed encodings the decoder can expand.
#[derive(Clone, Copy, Debug, PartialEq, Eq, Structural)]
pub enum BlockFormat {
    Bc1,
    Bc2,
    Bc3,
    Bc4,
    Bc5,
}

/// The block encoding a pixel format is decoded with, for those that can be
/// decoded at all. Only the BC1, BC3, BC4 and BC5 families are wired in; every
/// other format, uncompressed ones included, has none.
pub open spec fn spec_block_format(f: TextureFormat) -> Option<BlockFormat> {
    match f {
        TextureFormat::DXT1 => Some(BlockFormat::Bc1),
        TextureFormat::DXT1a => Some(BlockFormat::Bc1),
        TextureFormat::DXT5 => Some(BlockFormat::Bc3),
        TextureFormat::ATI1 => Some(BlockFormat::Bc4),
        TextureFormat::ATI2 => Some(BlockFormat::Bc5),
        _ => None,
    }
}

/// Bytes of one 4x4 block.
pub open spec fn spec_block_size(b: BlockFormat) -> nat {
    match b {
        BlockFormat::Bc1 => 8,
        BlockFormat::Bc4 => 8,
        _ => 16,
    }
}

impl BlockFormat {
    pub fn block_size(self) -> (r: usize)
        ensures
            r == spec_block_size(self),
    {
        match self {
            BlockFormat::Bc1 => 8,
            BlockFormat::Bc4 => 8,
            _ => 16,
        }
    }
}

impl TextureFormat {
    /// The 32-bit code of this format.
    pub fn code(self) -> (r: u32)
        ensures
            r == format_code(self),
    {
        match self {
            TextureFormat::Unknown => 4294967295,
            TextureFormat::A8 => 0,
            TextureFormat::RGB8 => 1,
            TextureFormat::RGBA8 => 2,
            TextureFormat::RGB5 => 3,
            TextureFormat::RGB5A1 => 4,
            TextureFormat::RGBA4 => 5,
            TextureFormat::DXT1 => 6,
            TextureFormat::DXT1a => 7,
            TextureFormat::DXT3 => 8,
            TextureFormat::DXT5 => 9,
            TextureFormat::ATI1 => 10,
            TextureFormat::ATI2 => 11,
            TextureFormat::L8 => 12,
            TextureFormat::L8A8 => 13,
            TextureFormat::BC7 => 15,
            TextureFormat::BC6H => 127,
        }
    }

    /// The pixel format with code `c`; `None` for a code outside the table.
    pub fn from_code(c: u32) -> (r: Option<TextureFormat>)
        ensures
            r == format_of_code(c),
            r matches Some(f) ==> format_code(f) == c,
    {
        match c {
            4294967295 => Some(TextureFormat::Unknown),
            0 => Some(TextureFormat::A8),
            1 => Some(TextureFormat::RGB8),
            2 => Some(TextureFormat::RGBA8),
            3 => Some(TextureFormat::RGB5),
            4 => Some(TextureFormat::RGB5A1),
            5 => Some(TextureFormat::RGBA4),
            6 => Some(TextureFormat::DXT1),
            7 => Some(TextureFormat::DXT1a),
            8 => Some(TextureFormat::DXT3),
            9 => Some(TextureFormat::DXT5),
            10 => Some(TextureFormat::ATI1),
            11 => Some(TextureFormat::ATI2),
            12 => Some(TextureFormat::L8),
            13 => Some(TextureFormat::L8A8),
            15 => Some(TextureFormat::BC7),
            127 => Some(TextureFormat::BC6H),
            _ => None,
        }
    }

    /// The block encoding this format is decoded with, if it has one.
    pub fn block_format(self) -> (r: Option<BlockFormat>)
        ensures
            r == spec_block_format(self),
    {
        match self {
            TextureFormat::DXT1 => Some(BlockFormat::Bc1),
            TextureFormat::DXT1a => Some(BlockFormat::Bc1),
            TextureFormat::DXT5 => Some(BlockFormat::Bc3),
            TextureFormat::ATI1 => Some(BlockFormat::Bc4),
            TextureFormat::ATI2 => Some(BlockFormat::Bc5),
            _ => None,
        }
    }
}

/// Target display resolutions a sprite is authored for; `Custom` is the
/// fallback for anything else.
#[derive(Clone, Copy, Debug, PartialEq, Eq, Structural)]
#[allow(non_camel_case_types)]
pub enum ScreenMode {
    QVGA,
    VGA,
    SVGA,
    XGA,
    SXGA,
    SXGAPLUS,
    UXGA,
    WVGA,
    WSVGA,
    WXGA,
    WXGA_,
    WUXGA,
    WQXGA,
    HDTV720,
    HDTV1080,
    WQHD,
    HVGA,
    QHD,
    Custom,
}

/// The 32-bit code of each screen mode.
pub open spec fn mode_code(m: ScreenMode) -> u32 {
    match m {
        ScreenMode::QVGA => 0u32,
        ScreenMode::VGA => 1u32,
        ScreenMode::SVGA => 2u32,
        ScreenMode::XGA => 3u32,
        ScreenMode::SXGA => 4u32,
        ScreenMode::SXGAPLUS => 5u32,
        ScreenMode::UXGA => 6u32,
        ScreenMode::WVGA => 7u32,
        ScreenMode::WSVGA => 8u32,
        ScreenMode::WXGA => 9u32,
        ScreenMode::WXGA_ => 10u32,
        ScreenMode::WUXGA => 11u32,
        ScreenMode::WQXGA => 12u32,
        ScreenMode::HDTV720 => 13u32,
        ScreenMode::HDTV1080 => 14u32,
        ScreenMode::WQHD => 15u32,
        ScreenMode::HVGA => 16u32,
        ScreenMode::QHD => 17u32,
        ScreenMode::Custom => 18u32,
    }
}

/// The screen mode with code `c`, if any.
pub open spec fn mode_of_code(c: u32) -> Option<ScreenMode> {
    if c == 0u32 {
        Some(ScreenMode::QVGA)
    } else if c == 1u32 {
        Some(ScreenMode::VGA)
    } else if c == 2u32 {
        Some(ScreenMode::SVGA)
    } else if c == 3u32 {
        Some(ScreenMode::XGA)
    } else if c == 4u32 {
        Some(ScreenMode::SXGA)
    } else if c == 5u32 {
        Some(ScreenMode::SXGAPLUS)
    } else if c == 6u32 {
        Some(ScreenMode::UXGA)
    } else if c == 7u32 {
        Some(ScreenMode::WVGA)
    } else if c == 8u32 {
        Some(ScreenMode::WSVGA)
    } else if c == 9u32 {
        Some(ScreenMode::WXGA)
    } else if c == 10u32 {
        Some(ScreenMode::WXGA_)
    } else if c == 11u32 {
        Some(ScreenMode::WUXGA)
    } else if c == 12u32 {
        Some(ScreenMode::WQXGA)
    } else if c == 13u32 {
        Some(ScreenMode::HDTV720)
    } else if c == 14u32 {
        Some(ScreenMode::HDTV1080)
    } else if c == 15u32 {
        Some(ScreenMode::WQHD)
    } else if c == 16u32 {
        Some(ScreenMode::HVGA)
    } else if c == 17u32 {
        Some(ScreenMode::QHD)
    } else if c == 18u32 {
        Some(ScreenMode::Custom)
    } else {
        None
    }
}

/// The number of screen modes; their codes are `0 .. SCREEN_MODE_COUNT`.
pub const SCREEN_MODE_COUNT: u32 = 19;

impl ScreenMode {
    /// The 32-bit code of this mode.
    pub fn code(self) -> (r: u32)
        ensures
            r == mode_code(self),
            r < SCREEN_MODE_COUNT,
    {
        match self {
            ScreenMode::QVGA => 0,
            ScreenMode::VGA => 1,
            ScreenMode::SVGA => 2,
            ScreenMode::XGA => 3,
            ScreenMode::SXGA => 4,
            ScreenMode::SXGAPLUS => 5,
            ScreenMode::UXGA => 6,
            ScreenMode::WVGA => 7,
            ScreenMode::WSVGA => 8,
            ScreenMode::WXGA => 9,
            ScreenMode::WXGA_ => 10,
            ScreenMode::WUXGA => 11,
            ScreenMode::WQXGA => 12,
            ScreenMode::HDTV720 => 13,
            ScreenMode::HDTV1080 => 14,
            ScreenMode::WQHD => 15,
            ScreenMode::HVGA => 16,
            ScreenMode::QHD => 17,
            ScreenMode::Custom => 18,
        }
    }

    /// The mode with code `c`; `None` unless `c < SCREEN_MODE_COUNT`.
    pub fn from_code(c: u32) -> (r: Option<ScreenMode>)
        ensures
            r == mode_of_code(c),
            r is Some <==> c < SCREEN_MODE_COUNT,
            r matches Some(m) ==> mode_code(m) == c,
    {
        match c {
            0 => Some(ScreenMode::QVGA),
            1 => Some(ScreenMode::VGA),
            2 => Some(ScreenMode::SVGA),
            3 => Some(ScreenMode::XGA),
            4 => Some(ScreenMode::SXGA),
            5 => Some(ScreenMode::SXGAPLUS),
            6 => Some(ScreenMode::UXGA),
            7 => Some(ScreenMode::WVGA),
            8 => Some(ScreenMode::WSVGA),
            9 => Some(ScreenMode::WXGA),
            10 => Some(ScreenMode::WXGA_),
            11 => Some(ScreenMode::WUXGA),
            12 => Some(ScreenMode::WQXGA),
            13 => Some(ScreenMode::HDTV720),
            14 => Some(ScreenMode::HDTV1080),
            15 => Some(ScreenMode::WQHD),
            16 => Some(ScreenMode::HVGA),
            17 => Some(ScreenMode::QHD),
            18 => Some(ScreenMode::Custom),
            _ => None,
        }
    }
}

} // verus!
