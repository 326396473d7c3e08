//! The records of a container as they stand in the file, before names are
//! resolved and pixels decoded.
use vstd::prelude::*;
use crate::format::{ScreenMode, TextureFormat};

verus! {

/// Four IEEE-754 single-precision values, held as their bit patterns: the
/// library carries them through unchanged and never computes with them.
#[derive(Clone, Copy, Debug, PartialEq, Eq, Structural)]
pub struct Vec4 {
    pub x: u32,
    pub y: u32,
    pub z: u32,
    pub w: u32,
}

/// One mip-level record.
#[derive(Clone, Debug)]
pub struct MipLevel {
    pub width: i32,
    pub height: i32,
    pub format: TextureFormat,
    pub index: u8,
    pub array_index: u8,
    pub data: Vec<u8>,
}

pub ghost struct MipView {
    pub width: i32,
    pub height: i32,
    pub format: TextureFormat,
    pub index: u8,
    pub array_index: u8,
    pub data: Seq<u8>,
}

impl View for MipLevel {
    type V = MipView;

    open spec fn view(&self) -> MipView {
        MipView {
            width: self.width,
            height: self.height,
            format: self.format,
            index: self.index,
            array_index: self.array_index,
            data: self.data@,
        }
    }
}

/// The two texture entry kinds.
#[derive(Clone, Copy, Debug, PartialEq, Eq, Structural)]
pub enum TextureKind {
    Plane,
    CubeMap,
}

/// One texture entry: a mip chain for each array slice or cube face.
#[derive(Clone, Debug)]
pub struct Texture {
    pub kind: TextureKind,
    pub mip_count_total: u32,
    /// The raw mip-level field of the entry.
    pub mip_levels: u8,
    pub array_size: u8,
    pub depth: u8,
    pub dimensions: u8,
    /// Mip levels read for each slice or face.
    pub levels_per_face: u8,
    pub faces: Vec<Vec<MipLevel>>,
}

pub ghost struct TextureView {
    pub kind: TextureKind,
    pub mip_count_total: u32,
    pub mip_levels: u8,
    pub array_size: u8,
    pub depth: u8,
    pub dimensions: u8,
    pub levels_per_face: u8,
    pub faces: Seq<Seq<MipView>>,
}

pub open spec fn face_view(f: Vec<MipLevel>) -> Seq<MipView> {
    f@.map_values(|m: MipLevel| m@)
}

impl View for Texture {
    type V = TextureView;

    open spec fn view(&self) -> TextureView {
        TextureView {
            kind: self.kind,
            mip_count_total: self.mip_count_total,
            mip_levels: self.mip_levels,
            array_size: self.array_size,
            depth: self.depth,
            dimensions: self.dimensions,
            levels_per_face: self.levels_per_face,
            faces: self.faces@.map_values(|f: Vec<MipLevel>| face_view(f)),
        }
    }
}

/// One sprite record as stored: texture position, rotation flag, and the
/// texel and pixel rectangles.
#[derive(Clone, Copy, Debug, PartialEq, Eq, Structural)]
pub struct SpriteRecord {
    pub texture_index: i32,
    pub rotate: i32,
    pub texel_region: Vec4,
    pub pixel_region: Vec4,
}

/// A whole container as stored, with every pointer resolved.
#[derive(Clone, Debug)]
pub struct RawSet {
    pub flags: u32,
    pub textures: Vec<Texture>,
    pub sprites: Vec<SpriteRecord>,
    pub texture_names: Vec<String>,
    pub sprite_names: Vec<String>,
    pub screen_modes: Vec<ScreenMode>,
}

pub ghost struct RawSetView {
    pub flags: u32,
    pub textures: Seq<TextureView>,
    pub sprites: Seq<SpriteRecord>,
    pub texture_names: Seq<Seq<char>>,
    pub sprite_names: Seq<Seq<char>>,
    pub screen_modes: Seq<ScreenMode>,
}

impl View for RawSet {
    type V = RawSetView;

    open spec fn view(&self) -> RawSetView {
        RawSetView {
            flags: self.flags,
            textures: self.textures@.map_values(|t: Texture| t@),
            sprites: self.sprites@,
            texture_names: self.texture_names@.map_values(|n: String| n@),
            sprite_names: self.sprite_names@.map_values(|n: String| n@),
            screen_modes: self.screen_modes@,
        }
    }
}

} // verus!
