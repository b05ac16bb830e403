//! What the device is asked for and where pixels go, in numbers.
use vstd::prelude::*;

use crate::allocator::extent;
use crate::atlas_model::AtlasModel;
use crate::atlas_types::{AtlasKey, AtlasTextureId, AtlasTextureKind, TileId};
use crate::external_texture::{size_of_extent, with_sign};
use crate::geometry::{greater, lesser, Bounds, Size};
use crate::placements::{can_grow, notes};
use crate::texture::{
    spec_pixel_format, spec_texture_descriptor, spec_texture_size, spec_upload, PixelFormat,
    StorageMode, TextureUsage,
};
use crate::texture_list::can_be_placed;

verus! {

/// A pixel of coverage takes one byte and a pixel of colour four.
pub proof fn pixels_take_one_byte_or_four(format: PixelFormat)
    ensures
        format == PixelFormat::A8Unorm ==> format.spec_bytes_per_pixel() == 1,
        format == PixelFormat::R8Unorm ==> format.spec_bytes_per_pixel() == 1,
        format == PixelFormat::RGBA8Unorm ==> format.spec_bytes_per_pixel() == 4,
        format == PixelFormat::BGRA8Unorm ==> format.spec_bytes_per_pixel() == 4,
{
}

/// The pixels of a tile are its rows, one behind the other without a gap. An
/// upload writes to just the texels of the tile, and to the texel at column `x`
/// and row `y` of the texture the pixel that stands in the same column and row of
/// the tile: where the device reads for it is where that pixel starts.
pub proof fn each_texel_gets_its_pixel(bounds: Bounds, format: PixelFormat, x: int, y: int)
    requires
        0 <= bounds.origin.x.0,
        0 <= bounds.origin.y.0,
        0 <= bounds.size.width.0,
        0 <= bounds.size.height.0,
    ensures
        ({
            let upload = spec_upload(bounds, format);
            let bytes_per_pixel: int = if format == PixelFormat::A8Unorm || format
                == PixelFormat::R8Unorm {
                1
            } else {
                4
            };
            let column = x - bounds.origin.x.0;
            let row = y - bounds.origin.y.0;
            let is_written = upload.x <= x < upload.x + upload.width && upload.y <= y < upload.y
                + upload.height;
            &&& is_written <==> 0 <= column < bounds.size.width.0 && 0 <= row
                < bounds.size.height.0
            &&& is_written ==> (y - upload.y) * upload.bytes_per_row + (x - upload.x)
                * bytes_per_pixel == (row * bounds.size.width.0 + column) * bytes_per_pixel
            &&& upload.bytes_per_row == bounds.size.width.0 * bytes_per_pixel
            &&& upload.mipmap_level == 0
        }),
{
    let upload = spec_upload(bounds, format);
    let bytes: int = format.spec_bytes_per_pixel() as int;
    let w = bounds.size.width.0 as int;
    let column = x - bounds.origin.x.0;
    let row = y - bounds.origin.y.0;
    assert(0 <= w * bytes <= 4 * w) by (nonlinear_arith)
        requires
            0 <= w,
            1 <= bytes <= 4,
    ;
    assert(upload.bytes_per_row == w * bytes);
    assert(row * (w * bytes) + column * bytes == (row * w + column) * bytes) by (nonlinear_arith);
}

/// A texture of glyphs holds coverage and one of images colour, in every state.
pub proof fn textures_have_the_format_of_their_kind<T>(model: AtlasModel<T>, id: AtlasTextureId)
    requires
        model.valid(),
        model.texture(id) is Some,
    ensures
        model.texture(id)->0.id == id,
        model.texture(id)->0.pixel_format == (if id.kind == AtlasTextureKind::Monochrome {
            PixelFormat::A8Unorm
        } else {
            PixelFormat::BGRA8Unorm
        }),
        1024 <= extent(model.texture(id)->0.allocator).width.0 <= 16384,
        1024 <= extent(model.texture(id)->0.allocator).height.0 <= 16384,
{
    assert(model.list(id.kind).slots[id.index as int] is Some);
}

/// A texture is as large as the tile that it is made for, but no side is under
/// 1024 or over 16384.
pub proof fn textures_are_as_large_as_their_tile(min_size: Size)
    ensures
        ({
            let size = spec_texture_size(min_size);
            let (w, h) = (min_size.width.0, min_size.height.0);
            &&& w <= 1024 ==> size.width.0 == 1024
            &&& 1024 <= w <= 16384 ==> size.width.0 == w
            &&& 16384 <= w ==> size.width.0 == 16384
            &&& h <= 1024 ==> size.height.0 == 1024
            &&& 1024 <= h <= 16384 ==> size.height.0 == h
            &&& 16384 <= h ==> size.height.0 == 16384
        }),
{
}

/// A tile can be placed just if it has a pixel and fits a texture that is made
/// for it, which is if both its sides are from 1 to 16384.
pub proof fn tiles_are_placed_if_they_fit_a_texture(size: Size)
    ensures
        can_be_placed(size) <==> 1 <= size.width.0 <= 16384 && 1 <= size.height.0 <= 16384,
        can_be_placed(size) <==> 1 <= size.width.0 <= spec_texture_size(size).width.0 && 1
            <= size.height.0 <= spec_texture_size(size).height.0,
{
}

/// The device is asked for a texture of the size that the allocator covers, of
/// coverage for glyphs and of colour for images, that shaders read, in shared
/// memory on an Apple GPU and in managed memory else.
pub proof fn textures_are_asked_for_by_kind(
    min_size: Size,
    kind: AtlasTextureKind,
    is_apple_gpu: bool,
)
    ensures
        ({
            let descriptor = spec_texture_descriptor(min_size, kind, is_apple_gpu);
            &&& descriptor.width == spec_texture_size(min_size).width.0
            &&& descriptor.height == spec_texture_size(min_size).height.0
            &&& kind == AtlasTextureKind::Monochrome ==> descriptor.pixel_format
                == PixelFormat::A8Unorm && spec_pixel_format(kind) == PixelFormat::A8Unorm
            &&& kind == AtlasTextureKind::Polychrome ==> descriptor.pixel_format
                == PixelFormat::BGRA8Unorm && spec_pixel_format(kind) == PixelFormat::BGRA8Unorm
            &&& descriptor.usage == TextureUsage::ShaderRead
            &&& is_apple_gpu ==> descriptor.storage_mode == StorageMode::Shared
            &&& !is_apple_gpu ==> descriptor.storage_mode == StorageMode::Managed
        }),
{
}

/// The lesser of two numbers is one of them and not above either; the greater is
/// one of them and not below either.
pub proof fn lesser_and_greater_are_bounds(a: int, b: int)
    ensures
        lesser(a, b) == a || lesser(a, b) == b,
        lesser(a, b) <= a,
        lesser(a, b) <= b,
        greater(a, b) == a || greater(a, b) == b,
        greater(a, b) >= a,
        greater(a, b) >= b,
{
}

/// The size of an external texture is its width and its height; a number that
/// takes the sign bit is read with the sign.
pub proof fn external_sizes_keep_their_bits(width: u32, height: u32)
    ensures
        width <= 2147483647 ==> size_of_extent((width, height)).width.0 == width,
        width > 2147483647 ==> size_of_extent((width, height)).width.0 == width - 4294967296,
        height <= 2147483647 ==> size_of_extent((width, height)).height.0 == height,
        height > 2147483647 ==> size_of_extent((width, height)).height.0 == height - 4294967296,
        (width - with_sign(width)) % 4294967296 == 0,
{
}

/// Each frame of each image has a key of its own among the images.
pub proof fn image_keys_hold_image_and_frame(image_id: u64, frame_index: u64)
    ensures
        AtlasKey::spec_image(image_id, frame_index).kind == AtlasTextureKind::Polychrome,
        AtlasKey::spec_image(image_id, frame_index).id / 18446744073709551616 == image_id,
        AtlasKey::spec_image(image_id, frame_index).id % 18446744073709551616 == frame_index,
{
}

/// A tile that is granted counts once in its bucket, which its name tells, and in
/// no other: no count grows by more than one.
pub proof fn buckets_count_one_by_one(counts: Seq<u16>, post: Seq<u16>, id: TileId, bucket: int)
    requires
        notes(counts, post, id),
        can_grow(counts),
        0 <= bucket < post.len(),
    ensures
        ({
            let before: int = if bucket < counts.len() {
                counts[bucket] as int
            } else {
                0
            };
            &&& bucket != id.0 % 4096 ==> post[bucket] == before
            &&& bucket == id.0 % 4096 ==> post[bucket] == before + 1 || post[bucket] == 1
            &&& bucket == id.0 % 4096 && post[bucket] != before + 1 ==> (before + 1) % 4096 != (
            id.0 / 4096) % 4096
        }),
        counts.len() <= post.len(),
{
}

/// Counts can grow until one of them is at 65535.
pub proof fn counts_grow_up_to_their_end(counts: Seq<u16>)
    ensures
        can_grow(counts) <==> (forall|bucket: int|
            0 <= bucket < counts.len() ==> #[trigger] counts[bucket] < 65535),
{
}

} // verus!
