use gpui_platform::atlas_types::{AtlasTextureId, AtlasTextureKind, TileId};
use gpui_platform::geometry::{Bounds, DevicePixels, Point, Size};
use gpui_platform::metal_atlas::MetalAtlas;
use gpui_platform::texture::{
    texture_descriptor, texture_size, MetalAtlasTexture, PixelFormat, StorageMode,
    TextureDescriptor, TextureUpload, TextureUsage,
};
use gpui_platform::texture_list::AtlasTextureList;

fn size(width: i32, height: i32) -> Size {
    Size { width: DevicePixels(width), height: DevicePixels(height) }
}

fn id(index: u32) -> AtlasTextureId {
    AtlasTextureId { index, kind: AtlasTextureKind::Polychrome }
}

#[test]
fn sizes_are_compared_by_side() {
    let a = size(3, 8);
    let b = size(5, -2);
    assert_eq!(a.min(&b), size(3, -2));
    assert_eq!(a.max(&b), size(5, 8));
}

#[test]
fn rows_take_bytes() {
    assert_eq!(DevicePixels(0).to_bytes(4), 0);
    assert_eq!(DevicePixels(700).to_bytes(4), 2800);
    assert_eq!(DevicePixels(16384).to_bytes(255), 4177920);
}

#[test]
fn texture_sizes_are_clamped() {
    assert_eq!(texture_size(size(1, 1)), size(1024, 1024));
    assert_eq!(texture_size(size(-5, 0)), size(1024, 1024));
    assert_eq!(texture_size(size(1025, 16383)), size(1025, 16383));
    assert_eq!(texture_size(size(16384, 16385)), size(16384, 16384));
    assert_eq!(texture_size(size(i32::MAX, i32::MIN)), size(16384, 1024));
}

#[test]
fn descriptors_follow_kind_and_gpu() {
    let expected = TextureDescriptor {
        width: 2000,
        height: 1024,
        pixel_format: PixelFormat::A8Unorm,
        usage: TextureUsage::ShaderRead,
        storage_mode: StorageMode::Shared,
    };
    let glyphs = AtlasTextureKind::Monochrome;
    let images = AtlasTextureKind::Polychrome;
    assert_eq!(texture_descriptor(size(2000, 5), glyphs, true), expected);
    assert_eq!(
        texture_descriptor(size(2000, 5), images, false),
        TextureDescriptor {
            pixel_format: PixelFormat::BGRA8Unorm,
            storage_mode: StorageMode::Managed,
            ..expected
        }
    );
}

#[test]
fn pixels_take_bytes() {
    assert_eq!(PixelFormat::A8Unorm.bytes_per_pixel(), 1);
    assert_eq!(PixelFormat::R8Unorm.bytes_per_pixel(), 1);
    assert_eq!(PixelFormat::RGBA8Unorm.bytes_per_pixel(), 4);
    assert_eq!(PixelFormat::BGRA8Unorm.bytes_per_pixel(), 4);
}

#[test]
fn a_texture_counts_its_keys() {
    let mut texture = MetalAtlasTexture::new(id(3), size(1024, 1024), "handle");
    assert_eq!(texture.id(), id(3));
    assert_eq!(*texture.metal_texture(), "handle");
    assert_eq!(texture.bytes_per_pixel(), 4);
    assert!(texture.is_unreferenced());
    let tile = texture.allocate(size(10, 10)).unwrap();
    assert_eq!(tile.texture_id, id(3));
    assert_eq!(tile.bounds.size, size(10, 10));
    assert_eq!(tile.padding, 0);
    assert!(!texture.is_unreferenced());
    texture.decrement_ref_count();
    assert!(texture.is_unreferenced());
    texture.deallocate(tile.tile_id);
    assert!(texture.allocate(size(1024, 1024)).is_some());
}

#[test]
fn a_full_texture_refuses() {
    let mut texture = MetalAtlasTexture::new(id(0), size(1024, 1024), ());
    assert_eq!(texture.allocate(size(1025, 1)), None);
    assert_eq!(texture.allocate(size(0, 1)), None);
    assert!(texture.is_unreferenced());
    assert!(texture.allocate(size(1024, 1024)).is_some());
    assert_eq!(texture.allocate(size(1, 1)), None);
}

#[test]
fn retired_allocations_are_released_by_age() {
    let mut texture = MetalAtlasTexture::new(id(0), size(1024, 1024), ());
    let a: TileId = texture.allocate(size(10, 10)).unwrap().tile_id;
    let b: TileId = texture.allocate(size(10, 10)).unwrap().tile_id;
    let c: TileId = texture.allocate(size(10, 10)).unwrap().tile_id;
    assert!(a != b && b != c && a != c);
    texture.decrement_ref_count();
    texture.retire(5, a);
    texture.decrement_ref_count();
    texture.retire(3, b);
    texture.decrement_ref_count();
    texture.retire(8, c);
    assert_eq!(texture.retired_len(), 3);
    assert_eq!(texture.release_retired(Some(3)), 0);
    assert_eq!(texture.release_retired(Some(4)), 1);
    assert_eq!(texture.release_retired(Some(6)), 1);
    assert_eq!(texture.retired_len(), 1);
    assert_eq!(texture.release_retired(None), 1);
    assert_eq!(texture.retired_len(), 0);
    assert!(texture.allocate(size(1024, 1024)).is_some());
}

#[test]
fn uploads_follow_the_format() {
    let bounds = Bounds {
        origin: Point { x: DevicePixels(7), y: DevicePixels(9) },
        size: size(30, 20),
    };
    let images = MetalAtlasTexture::new(id(0), size(1024, 1024), ());
    let expected = TextureUpload {
        x: 7,
        y: 9,
        width: 30,
        height: 20,
        mipmap_level: 0,
        bytes_per_row: 120,
    };
    assert_eq!(images.upload(bounds), expected);
    let glyph_id = AtlasTextureId { index: 0, kind: AtlasTextureKind::Monochrome };
    let glyphs = MetalAtlasTexture::new(glyph_id, size(1024, 1024), ());
    assert_eq!(glyphs.upload(bounds), TextureUpload { bytes_per_row: 30, ..expected });
}

#[test]
fn slots_are_reused_last_first() {
    let kind = AtlasTextureKind::Polychrome;
    let mut list: AtlasTextureList<char> = AtlasTextureList::new();
    assert!(list.has_room());
    assert_eq!(list.allocate(kind, size(1, 1)), None);
    let mut tiles = Vec::new();
    for (slot, handle) in ['a', 'b', 'c'].into_iter().enumerate() {
        assert_eq!(list.push(kind, size(1024, 1024), handle), slot);
        tiles.push(list.allocate_in(kind, slot, size(1024, 1024)).unwrap());
    }
    assert_eq!(list.allocate(kind, size(1, 1)), None);
    assert_eq!(list.give_up(kind, 0, tiles[0].tile_id, None), (0, 0));
    assert_eq!(list.give_up(kind, 2, tiles[2].tile_id, Some(1)), (0, 0));
    assert!(!list.has_texture(0) && list.has_texture(1) && !list.has_texture(2));
    assert!(!list.has_texture(3));
    assert_eq!(list.push(kind, size(1024, 1024), 'd'), 2);
    assert_eq!(list.push(kind, size(1024, 1024), 'e'), 0);
    assert_eq!(list.push(kind, size(1024, 1024), 'f'), 3);
    assert_eq!(*list.texture(0).metal_texture(), 'e');
    assert_eq!(*list.texture(2).metal_texture(), 'd');
    assert_eq!(list.texture(3).id(), id(3));
}

#[test]
fn lists_release_what_no_longer_waits() {
    let kind = AtlasTextureKind::Polychrome;
    let mut list: AtlasTextureList<()> = AtlasTextureList::new();
    for slot in 0..2 {
        list.push(kind, size(1024, 1024), ());
        let first = list.allocate_in(kind, slot, size(8, 8)).unwrap();
        list.allocate_in(kind, slot, size(8, 8)).unwrap();
        let waiting = list.give_up(kind, slot, first.tile_id, Some(slot as u64));
        assert_eq!(waiting, (0, 1));
    }
    assert_eq!(list.release_retired(kind, Some(0), 2), 2);
    assert_eq!(list.release_retired(kind, Some(1), 2), 1);
    assert_eq!(list.release_retired(kind, None, 1), 0);
}

#[test]
fn an_atlas_of_another_gpu_asks_for_managed_storage() {
    let mut atlas: MetalAtlas<StorageMode> = MetalAtlas::new(false);
    let key = gpui_platform::atlas_types::AtlasKey::image(1, 1);
    let result: Result<_, gpui_platform::metal_atlas::AtlasError<String>> = atlas
        .get_or_insert_with(
            &key,
            || Ok(Some((size(1, 1), ()))),
            |descriptor| descriptor.storage_mode,
            |_: &StorageMode, _, _: ()| {},
        );
    let tile = result.unwrap().unwrap();
    assert_eq!(*atlas.metal_texture(tile.texture_id), StorageMode::Managed);
}
