//! What the sprite atlas is asked for and what it hands out.
use vstd::prelude::*;

use crate::geometry::Bounds;

verus! {

/// What the pixels of a texture stand for.
#[derive(Clone, Copy, Debug, PartialEq, Eq, Structural, Hash)]
pub enum AtlasTextureKind {
    /// Coverage only: one byte per pixel.
    Monochrome,
    /// Full colour: four bytes per pixel.
    Polychrome,
    /// Coverage per colour component. The Metal renderer has no such textures.
    Subpixel,
}

/// Names one texture of the atlas.
#[derive(Clone, Copy, Debug, PartialEq, Eq, Structural, Hash)]
pub struct AtlasTextureId {
    /// The slot of the texture in the list of its kind.
    pub index: u32,
    pub kind: AtlasTextureKind,
}

/// Names one allocation within a texture.
#[derive(Clone, Copy, Debug, PartialEq, Eq, Structural, Hash)]
pub struct TileId(pub u32);

/// Where the pixels of a key are found.
#[derive(Clone, Copy, Debug, PartialEq, Eq, Structural, Hash)]
pub struct AtlasTile {
    pub texture_id: AtlasTextureId,
    pub tile_id: TileId,
    pub padding: u32,
    pub bounds: Bounds,
}

/// What a tile is cached under: the kind of texture that its pixels belong in,
/// and a number that tells it from every other key of that kind.
#[derive(Clone, Copy, Debug, PartialEq, Eq, Structural, Hash)]
pub struct AtlasKey {
    pub kind: AtlasTextureKind,
    pub id: u128,
}

impl AtlasKey {
    /// The key of one frame of an image. Images are full colour.
    pub fn image(image_id: u64, frame_index: u64) -> (key: AtlasKey)
        ensures
            key == AtlasKey::spec_image(image_id, frame_index),
    {
        AtlasKey {
            kind: AtlasTextureKind::Polychrome,
            id: image_id as u128 * 0x1_0000_0000_0000_0000u128 + frame_index as u128,
        }
    }

    /// The key that `image` makes: the image's number above 64 bits of frame index.
    pub open spec fn spec_image(image_id: u64, frame_index: u64) -> AtlasKey {
        AtlasKey {
            kind: AtlasTextureKind::Polychrome,
            id: (image_id * 0x1_0000_0000_0000_0000 + frame_index) as u128,
        }
    }

    /// The kind of texture that the key's pixels belong in.
    pub fn texture_kind(&self) -> (kind: AtlasTextureKind)
        ensures
            kind == self.kind,
    {
        self.kind
    }
}

/// Two frames have one key only if they are the same frame of the same image.
pub proof fn image_keys_are_distinct(image_a: u64, frame_a: u64, image_b: u64, frame_b: u64)
    requires
        AtlasKey::spec_image(image_a, frame_a) == AtlasKey::spec_image(image_b, frame_b),
    ensures
        image_a == image_b,
        frame_a == frame_b,
{
}

} // verus!
