use std::cell::{Cell, RefCell};
use std::rc::Rc;

use gpui_platform::atlas_types::{AtlasKey, AtlasTextureId, AtlasTextureKind, AtlasTile};
use gpui_platform::geometry::{DevicePixels, Point, Size};
use gpui_platform::metal_atlas::{AtlasError, MetalAtlas, MetalAtlasFrame};
use gpui_platform::texture::{
    MetalAtlasTexture, PixelFormat, StorageMode, TextureDescriptor, TextureUpload, TextureUsage,
};

/// A texture in memory.
struct Surface {
    serial: u32,
    descriptor: TextureDescriptor,
    pixels: RefCell<Vec<u8>>,
}

impl Surface {
    fn bytes_per_pixel(&self) -> usize {
        self.descriptor.pixel_format.bytes_per_pixel() as usize
    }

    fn offset(&self, x: u64, y: u64) -> usize {
        (y * self.descriptor.width + x) as usize * self.bytes_per_pixel()
    }

    fn replace(&self, upload: TextureUpload, bytes: &[u8]) {
        assert!(upload.x + upload.width <= self.descriptor.width);
        assert!(upload.y + upload.height <= self.descriptor.height);
        assert_eq!(upload.mipmap_level, 0);
        let row = upload.width as usize * self.bytes_per_pixel();
        let mut pixels = self.pixels.borrow_mut();
        for y in 0..upload.height {
            let from = y as usize * upload.bytes_per_row as usize;
            let to = self.offset(upload.x, upload.y + y);
            pixels[to..to + row].copy_from_slice(&bytes[from..from + row]);
        }
    }
}

/// A device that makes textures in memory.
struct Device {
    made: Cell<u32>,
}

impl Device {
    fn new() -> Device {
        Device { made: Cell::new(0) }
    }

    fn new_texture(&self, descriptor: TextureDescriptor) -> Rc<Surface> {
        let serial = self.made.get();
        self.made.set(serial + 1);
        let format_bytes = descriptor.pixel_format.bytes_per_pixel() as usize;
        let length = (descriptor.width * descriptor.height) as usize * format_bytes;
        Rc::new(Surface { serial, descriptor, pixels: RefCell::new(vec![0u8; length]) })
    }
}

type Atlas = MetalAtlas<Rc<Surface>>;

fn create_atlas() -> (Device, Atlas) {
    (Device::new(), MetalAtlas::new(true))
}

fn make_image_key(image_id: u64, frame_index: u64) -> AtlasKey {
    AtlasKey::image(image_id, frame_index)
}

fn size(width: i32, height: i32) -> Size {
    Size { width: DevicePixels(width), height: DevicePixels(height) }
}

fn try_insert(
    device: &Device,
    atlas: &mut Atlas,
    key: &AtlasKey,
    built: Result<Option<(Size, Vec<u8>)>, String>,
) -> Result<Option<AtlasTile>, AtlasError<String>> {
    atlas.get_or_insert_with(
        key,
        || built,
        |descriptor| device.new_texture(descriptor),
        |surface: &Rc<Surface>, upload, bytes: Vec<u8>| surface.replace(upload, &bytes),
    )
}

fn fill_tile(
    device: &Device,
    atlas: &mut Atlas,
    key: &AtlasKey,
    size: Size,
    byte: u8,
) -> AtlasTile {
    let byte_count = (size.width.0 as usize) * (size.height.0 as usize) * 4;
    try_insert(device, atlas, key, Ok(Some((size, vec![byte; byte_count]))))
        .expect("allocation should succeed")
        .expect("callback returns Some")
}

fn insert_tile(device: &Device, atlas: &mut Atlas, key: &AtlasKey, size: Size) -> AtlasTile {
    fill_tile(device, atlas, key, size, 0)
}

fn pixel(atlas: &Atlas, tile: &AtlasTile) -> Vec<u8> {
    let surface = atlas.metal_texture(tile.texture_id);
    let from = surface.offset(tile.bounds.origin.x.0 as u64, tile.bounds.origin.y.0 as u64);
    surface.pixels.borrow()[from..from + surface.bytes_per_pixel()].to_vec()
}

#[test]
fn test_remove_clears_stale_keys_from_tiles_by_key() {
    let (device, mut atlas) = create_atlas();

    let small = size(64, 64);

    let key_a = make_image_key(1, 0);
    let key_b = make_image_key(2, 0);
    let key_c = make_image_key(3, 0);

    let tile_a = insert_tile(&device, &mut atlas, &key_a, small);
    let tile_b = insert_tile(&device, &mut atlas, &key_b, small);
    let tile_c = insert_tile(&device, &mut atlas, &key_c, small);

    assert_eq!(tile_a.texture_id, tile_b.texture_id);
    assert_eq!(tile_b.texture_id, tile_c.texture_id);

    // Remove A: texture still has B and C, so it stays.
    // The key for A must be forgotten.
    atlas.remove(&key_a);

    // Remove B: texture still has C.
    atlas.remove(&key_b);

    // Remove C: texture becomes unreferenced and is deleted.
    atlas.remove(&key_c);
    assert!(!atlas.has_texture(tile_c.texture_id));

    // Inserting A again must allocate a fresh tile on a new texture,
    // not return a stale tile that refers to the deleted texture.
    let tile_a2 = insert_tile(&device, &mut atlas, &key_a, small);

    assert!(atlas.has_texture(tile_a2.texture_id));
    assert_eq!(atlas.metal_texture(tile_a2.texture_id).serial, 1);
}

#[test]
fn test_remove_deallocates_tile_space_for_reuse() {
    let (device, mut atlas) = create_atlas();

    let small = size(64, 64);
    let big = size(700, 700);

    let keeper_key = make_image_key(1, 0);
    let big_key_a = make_image_key(2, 0);
    let big_key_b = make_image_key(3, 0);

    let keeper_tile = insert_tile(&device, &mut atlas, &keeper_key, small);
    let tile_a = insert_tile(&device, &mut atlas, &big_key_a, big);
    assert_eq!(keeper_tile.texture_id, tile_a.texture_id);

    atlas.remove(&big_key_a);
    let tile_b = insert_tile(&device, &mut atlas, &big_key_b, big);
    assert_eq!(tile_b.texture_id, keeper_tile.texture_id);
}

#[test]
fn test_remove_nonexistent_key_is_noop() {
    let (_device, mut atlas) = create_atlas();
    let key = make_image_key(999, 0);
    atlas.remove(&key);
    assert!(!atlas.contains_key(&key));
    assert_eq!(atlas.pending_allocations(), 0);
}

#[test]
fn retired_tiles_wait_for_all_older_frames_but_not_newer_frames() {
    fn require_send<T: Send>() {}
    require_send::<MetalAtlasFrame>();
    let (device, mut atlas) = create_atlas();
    let keeper = make_image_key(10, 0);
    let old = make_image_key(11, 0);
    let extent = size(700, 700);
    insert_tile(&device, &mut atlas, &keeper, size(64, 64));
    let tile = insert_tile(&device, &mut atlas, &old, extent);
    let mut first = atlas.begin_frame();
    let mut second = atlas.begin_frame();
    atlas.remove(&old);
    atlas.remove(&old);
    assert_eq!(atlas.pending_allocations(), 1);
    assert!(!atlas.contains_key(&old));
    let mut newer = atlas.begin_frame();
    second.complete(&mut atlas);
    assert_eq!(atlas.pending_allocations(), 1);
    let replacement = insert_tile(&device, &mut atlas, &make_image_key(12, 0), extent);
    assert_ne!(replacement.texture_id, tile.texture_id);
    first.complete(&mut atlas);
    first.complete(&mut atlas);
    assert_eq!(atlas.pending_allocations(), 0);
    assert_eq!(atlas.active_frames(), 1);
    let reused = insert_tile(&device, &mut atlas, &make_image_key(13, 0), extent);
    assert_eq!(reused.texture_id, tile.texture_id);
    assert_eq!(reused.bounds, tile.bounds);
    newer.complete(&mut atlas);
    assert_eq!(atlas.active_frames(), 0);
}

#[test]
fn retirement_does_not_follow_recycled_texture_indices() {
    let (device, mut atlas) = create_atlas();
    let extent = size(700, 700);
    let keeper = make_image_key(20, 0);
    let old = make_image_key(21, 0);
    insert_tile(&device, &mut atlas, &keeper, size(64, 64));
    let tile = insert_tile(&device, &mut atlas, &old, extent);
    let original_texture = atlas.metal_texture(tile.texture_id).clone();
    let mut first = atlas.begin_frame();
    atlas.remove(&old);
    atlas.remove(&keeper);
    assert_eq!(atlas.pending_allocations(), 0);
    let next_keeper = make_image_key(22, 0);
    let next = make_image_key(23, 0);
    let keeper_tile = insert_tile(&device, &mut atlas, &next_keeper, size(64, 64));
    assert_eq!(keeper_tile.texture_id, tile.texture_id);
    assert_ne!(
        Rc::as_ptr(atlas.metal_texture(keeper_tile.texture_id)),
        Rc::as_ptr(&original_texture)
    );
    let next_tile = insert_tile(&device, &mut atlas, &next, extent);
    let mut second = atlas.begin_frame();
    atlas.remove(&next);
    first.complete(&mut atlas);
    assert_eq!(atlas.pending_allocations(), 1);
    assert!(atlas.contains_key(&next_keeper));
    second.complete(&mut atlas);
    assert_eq!(atlas.pending_allocations(), 0);
    let reused = insert_tile(&device, &mut atlas, &make_image_key(24, 0), extent);
    assert_eq!(reused.texture_id, next_tile.texture_id);
    assert_eq!(reused.bounds, next_tile.bounds);
}

#[derive(Debug, PartialEq, Eq)]
enum Status {
    Waiting,
    Completed,
}

/// Commands that copy one pixel of a texture when they run.
struct Commands {
    texture: Rc<Surface>,
    origin: Point,
    destination_offset: usize,
    status: Status,
}

impl Commands {
    fn copy(texture: &Rc<Surface>, tile: &AtlasTile, destination_offset: usize) -> Commands {
        Commands {
            texture: texture.clone(),
            origin: tile.bounds.origin,
            destination_offset,
            status: Status::Waiting,
        }
    }

    fn run(&mut self, output: &mut [u8]) {
        let from = self.texture.offset(self.origin.x.0 as u64, self.origin.y.0 as u64);
        let pixels = self.texture.pixels.borrow();
        output[self.destination_offset..self.destination_offset + 4]
            .copy_from_slice(&pixels[from..from + 4]);
        self.status = Status::Completed;
    }
}

#[test]
fn inflight_replacement_preserves_old_pixels_and_reuses_space_after_completion() {
    let (device, mut atlas) = create_atlas();
    let keeper = make_image_key(40, 0);
    insert_tile(&device, &mut atlas, &keeper, size(64, 64));
    let old = make_image_key(41, 0);
    let extent = size(700, 700);
    let tile = fill_tile(&device, &mut atlas, &old, extent, 0x11);
    let mut frame = atlas.begin_frame();
    let texture = atlas.metal_texture(tile.texture_id).clone();
    let mut output = vec![0u8; 512];
    let mut commands = Commands::copy(&texture, &tile, 0);
    assert_eq!(commands.status, Status::Waiting);
    atlas.remove(&old);
    let replacement = fill_tile(&device, &mut atlas, &make_image_key(42, 0), extent, 0x99);
    assert_ne!(replacement.texture_id, tile.texture_id);
    let replacement_texture = atlas.metal_texture(replacement.texture_id).clone();
    let mut replacement_commands = Commands::copy(&replacement_texture, &replacement, 256);
    replacement_commands.run(&mut output);
    commands.run(&mut output);
    frame.complete(&mut atlas);
    assert_eq!(commands.status, Status::Completed);
    assert_eq!(replacement_commands.status, Status::Completed);
    let bytes = &output[..260];
    assert_eq!(&bytes[..4], &[0x11; 4]);
    assert_eq!(&bytes[256..260], &[0x99; 4]);
    assert_eq!(atlas.pending_allocations(), 0);
    let reused = insert_tile(&device, &mut atlas, &make_image_key(43, 0), extent);
    assert_eq!(reused.texture_id, tile.texture_id);
    assert_eq!(reused.bounds, tile.bounds);
}

#[test]
fn a_new_atlas_is_empty() {
    let (_device, atlas) = create_atlas();
    assert_eq!(atlas.pending_allocations(), 0);
    assert_eq!(atlas.active_frames(), 0);
    assert_eq!(atlas.next_frame(), 0);
    assert!(atlas.accepts(AtlasTextureKind::Monochrome));
    assert!(atlas.accepts(AtlasTextureKind::Polychrome));
    assert!(!atlas.accepts(AtlasTextureKind::Subpixel));
    let id = AtlasTextureId { index: 0, kind: AtlasTextureKind::Polychrome };
    assert!(!atlas.has_texture(id));
}

#[test]
fn a_key_keeps_its_tile() {
    let (device, mut atlas) = create_atlas();
    let key = make_image_key(1, 0);
    let tile = fill_tile(&device, &mut atlas, &key, size(10, 20), 7);
    assert_eq!(tile.bounds.size, size(10, 20));
    assert_eq!(tile.padding, 0);
    // The pixels are not made again, and their size does not matter any more.
    let again = try_insert(&device, &mut atlas, &key, Err("must not be built".to_string()));
    assert_eq!(again, Ok(Some(tile)));
    assert_eq!(device.made.get(), 1);
    assert_eq!(pixel(&atlas, &tile), vec![7u8; 4]);
}

#[test]
fn build_failures_are_passed_on() {
    let (device, mut atlas) = create_atlas();
    let key = make_image_key(1, 0);
    let failed = try_insert(&device, &mut atlas, &key, Err("no pixels".to_string()));
    assert_eq!(failed, Err(AtlasError::Build("no pixels".to_string())));
    assert!(!atlas.contains_key(&key));
    assert_eq!(device.made.get(), 0);
}

#[test]
fn nothing_built_is_nothing_kept() {
    let (device, mut atlas) = create_atlas();
    let key = make_image_key(1, 0);
    assert_eq!(try_insert(&device, &mut atlas, &key, Ok(None)), Ok(None));
    assert!(!atlas.contains_key(&key));
    assert_eq!(device.made.get(), 0);
}

#[test]
fn subpixel_keys_without_pixels_are_accepted() {
    let (device, mut atlas) = create_atlas();
    let key = AtlasKey { kind: AtlasTextureKind::Subpixel, id: 5 };
    assert_eq!(try_insert(&device, &mut atlas, &key, Ok(None)), Ok(None));
    atlas.remove(&key);
    assert!(!atlas.contains_key(&key));
}

fn refused_size(width: i32, height: i32) {
    let made = Cell::new(0u32);
    let mut atlas: MetalAtlas<u32> = MetalAtlas::new(true);
    let key = make_image_key(1, 0);
    let result: Result<Option<AtlasTile>, AtlasError<String>> = atlas.get_or_insert_with(
        &key,
        || Ok(Some((size(width, height), ()))),
        |_| {
            made.set(made.get() + 1);
            made.get()
        },
        |_: &u32, _, _: ()| panic!("nothing to write"),
    );
    assert_eq!(result, Err(AtlasError::FailedToAllocate));
    assert!(!atlas.contains_key(&key));
    // The texture that was made for the tile stays.
    assert_eq!(made.get(), 1);
    let id = AtlasTextureId { index: 0, kind: AtlasTextureKind::Polychrome };
    assert_eq!(*atlas.metal_texture(id), 1);
}

#[test]
fn sizes_without_pixels_are_refused() {
    refused_size(0, 10);
    refused_size(10, 0);
    refused_size(-1, 10);
    refused_size(10, i32::MIN);
}

#[test]
fn sizes_beyond_any_texture_are_refused() {
    refused_size(16385, 10);
    refused_size(10, 16385);
    refused_size(i32::MAX, i32::MAX);
}

fn granted_size(width: i32, height: i32, expected: TextureDescriptor) {
    let asked = RefCell::new(Vec::new());
    let mut atlas: MetalAtlas<u32> = MetalAtlas::new(false);
    let result: Result<Option<AtlasTile>, AtlasError<String>> = atlas.get_or_insert_with(
        &make_image_key(1, 0),
        || Ok(Some((size(width, height), ()))),
        |descriptor| {
            asked.borrow_mut().push(descriptor);
            0
        },
        |_: &u32, _, _: ()| {},
    );
    let tile = result.unwrap().unwrap();
    assert_eq!(tile.bounds.size, size(width, height));
    assert_eq!(asked.into_inner(), vec![expected]);
}

#[test]
fn textures_grow_with_their_first_tile() {
    let descriptor = |width, height| TextureDescriptor {
        width,
        height,
        pixel_format: PixelFormat::BGRA8Unorm,
        usage: TextureUsage::ShaderRead,
        storage_mode: StorageMode::Managed,
    };
    granted_size(1, 1, descriptor(1024, 1024));
    granted_size(1024, 1024, descriptor(1024, 1024));
    granted_size(1025, 3, descriptor(1025, 1024));
    granted_size(3, 2000, descriptor(1024, 2000));
    granted_size(16384, 16384, descriptor(16384, 16384));
}

#[test]
fn glyphs_and_images_have_textures_of_their_own() {
    let (device, mut atlas) = create_atlas();
    let glyph = AtlasKey { kind: AtlasTextureKind::Monochrome, id: 1 };
    let image = AtlasKey { kind: AtlasTextureKind::Polychrome, id: 1 };
    let pixels = vec![9u8; 8 * 8];
    let glyph_tile =
        try_insert(&device, &mut atlas, &glyph, Ok(Some((size(8, 8), pixels)))).unwrap().unwrap();
    let image_tile = fill_tile(&device, &mut atlas, &image, size(8, 8), 5);
    assert_eq!(glyph_tile.texture_id.kind, AtlasTextureKind::Monochrome);
    assert_eq!(image_tile.texture_id.kind, AtlasTextureKind::Polychrome);
    assert_eq!(glyph_tile.texture_id.index, 0);
    assert_eq!(image_tile.texture_id.index, 0);
    let format = |id| atlas.metal_texture(id).descriptor.pixel_format;
    assert_eq!(format(glyph_tile.texture_id), PixelFormat::A8Unorm);
    assert_eq!(format(image_tile.texture_id), PixelFormat::BGRA8Unorm);
    assert_eq!(pixel(&atlas, &glyph_tile), vec![9u8]);
    assert_eq!(pixel(&atlas, &image_tile), vec![5u8; 4]);
    atlas.remove(&glyph);
    assert!(!atlas.contains_key(&glyph));
    assert!(atlas.contains_key(&image));
    assert!(!atlas.has_texture(glyph_tile.texture_id));
    assert!(atlas.has_texture(image_tile.texture_id));
}

#[test]
fn uploads_name_the_pixels_of_the_tile() {
    let mut atlas: MetalAtlas<u32> = MetalAtlas::new(true);
    let uploads = RefCell::new(Vec::new());
    for image in 0..3 {
        let result: Result<Option<AtlasTile>, AtlasError<String>> = atlas.get_or_insert_with(
            &make_image_key(image, 0),
            || Ok(Some((size(40, 30), image))),
            |_| 17,
            |handle: &u32, upload, pixels: u64| uploads.borrow_mut().push((*handle, upload, pixels)),
        );
        let tile = result.unwrap().unwrap();
        let expected = TextureUpload {
            x: tile.bounds.origin.x.0 as u64,
            y: tile.bounds.origin.y.0 as u64,
            width: 40,
            height: 30,
            mipmap_level: 0,
            bytes_per_row: 160,
        };
        assert_eq!(uploads.borrow().last(), Some(&(17, expected, image)));
    }
}

fn overlap(a: &AtlasTile, b: &AtlasTile) -> bool {
    let (a, b) = (a.bounds, b.bounds);
    a.origin.x.0 < b.origin.x.0 + b.size.width.0
        && b.origin.x.0 < a.origin.x.0 + a.size.width.0
        && a.origin.y.0 < b.origin.y.0 + b.size.height.0
        && b.origin.y.0 < a.origin.y.0 + a.size.height.0
}

#[test]
fn tiles_lie_in_their_textures_and_do_not_overlap() {
    let mut atlas: MetalAtlas<TextureDescriptor> = MetalAtlas::new(true);
    let mut live: Vec<(AtlasKey, AtlasTile)> = Vec::new();
    for step in 0u64..600 {
        let key = make_image_key(step, step % 3);
        let extent = size((step * 37 % 150) as i32 + 1, (step * 53 % 120) as i32 + 1);
        let result: Result<Option<AtlasTile>, AtlasError<String>> = atlas.get_or_insert_with(
            &key,
            || Ok(Some((extent, ()))),
            |descriptor| descriptor,
            |_: &TextureDescriptor, _, _: ()| {},
        );
        let tile = result.unwrap().unwrap();
        assert_eq!(tile.bounds.size, extent);
        let surface = atlas.metal_texture(tile.texture_id);
        assert!(tile.bounds.origin.x.0 >= 0 && tile.bounds.origin.y.0 >= 0);
        assert!((tile.bounds.origin.x.0 + extent.width.0) as u64 <= surface.width);
        assert!((tile.bounds.origin.y.0 + extent.height.0) as u64 <= surface.height);
        for (_, other) in &live {
            assert!(other.texture_id != tile.texture_id || !overlap(other, &tile));
        }
        live.push((key, tile));
        if step % 3 == 2 {
            let (removed, _) = live.swap_remove((step * 7) as usize % live.len());
            atlas.remove(&removed);
            assert!(!atlas.contains_key(&removed));
        }
    }
    for (key, _) in &live {
        assert!(atlas.contains_key(key));
    }
}

#[test]
fn pixels_of_active_frames_stay_taken() {
    let (device, mut atlas) = create_atlas();
    let keeper = make_image_key(0, 0);
    insert_tile(&device, &mut atlas, &keeper, size(4, 4));
    let mut frames: Vec<MetalAtlasFrame> = Vec::new();
    let mut waiting: Vec<(usize, AtlasTile)> = Vec::new();
    for step in 1usize..60 {
        let key = make_image_key(step as u64, 0);
        let tile = insert_tile(&device, &mut atlas, &key, size(100, 100));
        for (_, other) in &waiting {
            assert!(other.texture_id != tile.texture_id || !overlap(other, &tile));
        }
        frames.push(atlas.begin_frame());
        atlas.remove(&key);
        // The last frame that may sample the tile is the one that just began.
        waiting.push((step - 1, tile));
        if step >= 5 {
            let done = step - 5;
            frames[done].complete(&mut atlas);
            assert!(frames[done].is_complete());
            waiting.retain(|(frame, _)| *frame > done);
        }
        assert_eq!(atlas.pending_allocations(), waiting.len() as u64);
    }
    for frame in &mut frames {
        frame.complete(&mut atlas);
    }
    assert_eq!(atlas.active_frames(), 0);
    assert_eq!(atlas.pending_allocations(), 0);
}

#[test]
fn a_key_keeps_its_tile_over_many_operations() {
    let (device, mut atlas) = create_atlas();
    let key = make_image_key(7, 7);
    let tile = fill_tile(&device, &mut atlas, &key, size(33, 44), 0x42);
    let mut frames: Vec<MetalAtlasFrame> = Vec::new();
    for step in 0..50 {
        let other = make_image_key(100 + step, 0);
        fill_tile(&device, &mut atlas, &other, size(200, 150), step as u8);
        frames.push(atlas.begin_frame());
        if step % 2 == 0 {
            atlas.remove(&other);
        }
        if step % 3 == 0 {
            frames[step as usize / 3].complete(&mut atlas);
        }
    }
    let (pending, active) = (atlas.pending_allocations(), atlas.active_frames());
    let again = try_insert(&device, &mut atlas, &key, Err("must not be built".to_string()));
    assert_eq!(again, Ok(Some(tile)));
    assert_eq!(pixel(&atlas, &tile), vec![0x42u8; 4]);
    assert_eq!(atlas.pending_allocations(), pending);
    assert_eq!(atlas.active_frames(), active);
}

#[test]
fn frames_complete_in_any_order() {
    let (device, mut atlas) = create_atlas();
    insert_tile(&device, &mut atlas, &make_image_key(0, 0), size(4, 4));
    let key = make_image_key(1, 0);
    insert_tile(&device, &mut atlas, &key, size(4, 4));
    let mut a = atlas.begin_frame();
    let mut b = atlas.begin_frame();
    let mut c = atlas.begin_frame();
    assert_eq!(atlas.next_frame(), 3);
    atlas.remove(&key);
    assert_eq!(atlas.pending_allocations(), 1);
    c.complete(&mut atlas);
    assert_eq!(atlas.pending_allocations(), 1);
    a.complete(&mut atlas);
    assert_eq!(atlas.pending_allocations(), 1);
    b.complete(&mut atlas);
    assert_eq!(atlas.pending_allocations(), 0);
}

#[test]
fn removal_without_frames_waits_for_nothing() {
    let (device, mut atlas) = create_atlas();
    insert_tile(&device, &mut atlas, &make_image_key(0, 0), size(4, 4));
    let key = make_image_key(1, 0);
    insert_tile(&device, &mut atlas, &key, size(4, 4));
    atlas.remove(&key);
    assert_eq!(atlas.pending_allocations(), 0);
    assert!(!atlas.contains_key(&key));
}

#[test]
fn the_last_texture_with_room_is_used() {
    let (device, mut atlas) = create_atlas();
    let first = insert_tile(&device, &mut atlas, &make_image_key(0, 0), size(1000, 1000));
    let second = insert_tile(&device, &mut atlas, &make_image_key(1, 0), size(1000, 900));
    assert_eq!(first.texture_id.index, 0);
    assert_eq!(second.texture_id.index, 1);
    let third = insert_tile(&device, &mut atlas, &make_image_key(2, 0), size(20, 20));
    assert_eq!(third.texture_id.index, 1);
    // A slot that is left is filled before a new one is made.
    atlas.remove(&make_image_key(0, 0));
    assert!(!atlas.has_texture(first.texture_id));
    let fourth = insert_tile(&device, &mut atlas, &make_image_key(3, 0), size(1000, 1000));
    assert_eq!(fourth.texture_id.index, 0);
    assert_eq!(atlas.metal_texture(fourth.texture_id).serial, 2);
}

#[test]
fn image_frames_have_keys_of_their_own() {
    assert_eq!(AtlasKey::image(0, 0).id, 0);
    assert_eq!(AtlasKey::image(0, u64::MAX).id, u64::MAX as u128);
    assert_eq!(AtlasKey::image(1, 0).id, 1u128 << 64);
    assert_eq!(AtlasKey::image(u64::MAX, u64::MAX).id, u128::MAX);
    assert_eq!(AtlasKey::image(1, 2).texture_kind(), AtlasTextureKind::Polychrome);
    assert_ne!(AtlasKey::image(1, 2), AtlasKey::image(2, 1));
}

#[test]
fn a_bucket_that_is_used_up_is_left_alone() {
    let mut atlas: MetalAtlas<u32> = MetalAtlas::new(true);
    let made = Cell::new(0u32);
    let place = |atlas: &mut MetalAtlas<u32>, key: &AtlasKey, size: Size| {
        let result: Result<Option<AtlasTile>, AtlasError<String>> = atlas.get_or_insert_with(
            key,
            || Ok(Some((size, ()))),
            |_| {
                made.set(made.get() + 1);
                made.get()
            },
            |_: &u32, _, _: ()| {},
        );
        result.unwrap().unwrap()
    };
    // Shelves that are merged again and again fill one bucket only.
    place(&mut atlas, &make_image_key(1, 0), size(1024, 512));
    place(&mut atlas, &make_image_key(2, 0), size(1024, 256));
    place(&mut atlas, &make_image_key(3, 0), size(1024, 256));
    atlas.remove(&make_image_key(1, 0));
    atlas.remove(&make_image_key(2, 0));
    let key = make_image_key(4, 0);
    let mut placed = 1u32;
    while atlas.accepts(AtlasTextureKind::Polychrome) {
        let tile = place(&mut atlas, &key, size(1024, 700));
        placed += 1;
        assert_eq!(tile.texture_id.index, 0);
        assert_eq!(tile.tile_id.0 % 4096, 0);
        assert_eq!((tile.tile_id.0 / 4096) % 4096, placed % 4096);
        atlas.remove(&key);
    }
    assert_eq!(placed, 65535);
    assert_eq!(made.get(), 1);
    // Other kinds are not affected, and keys that have a tile keep it.
    assert!(atlas.accepts(AtlasTextureKind::Monochrome));
    assert!(atlas.contains_key(&make_image_key(3, 0)));
    let again = atlas.get_or_insert_with(
        &make_image_key(3, 0),
        || Err("must not be built".to_string()),
        |_| panic!("no texture is needed"),
        |_: &u32, _, _: ()| panic!("nothing to write"),
    );
    assert!(matches!(again, Ok(Some(_))));
    // A texture that goes takes its buckets with it.
    atlas.remove(&make_image_key(3, 0));
    assert!(atlas.accepts(AtlasTextureKind::Polychrome));
}

#[test]
fn buckets_of_long_lived_textures_start_anew() {
    let mut texture = MetalAtlasTexture::new(
        AtlasTextureId { index: 0, kind: AtlasTextureKind::Monochrome },
        size(1024, 1024),
        (),
    );
    let keeper = texture.allocate(size(8, 8)).unwrap();
    for _ in 0..200_000 {
        assert!(texture.can_place());
        let tile = texture.allocate(size(900, 900)).unwrap();
        texture.decrement_ref_count();
        texture.deallocate(tile.tile_id);
    }
    assert_eq!(keeper.bounds.size, size(8, 8));
    assert!(texture.can_place());
}
