//! One texture of the atlas: what it is made of, which rectangles of it are
//! taken, and which of those wait for the GPU before they can be taken again.
use etagere::BucketedAtlasAllocator;
use vstd::prelude::*;

use crate::allocator::{
    allocate_rectangle, allocated, answer, deallocate_rectangle, extent, new_allocator, placed,
    rectangles_are_no_more_than_pixels, well_packed, Allocation, Rectangle,
};
use crate::atlas_types::{AtlasTextureId, AtlasTextureKind, AtlasTile, TileId};
use crate::frames::must_wait;
use crate::geometry::{greater, lesser, Bounds, DevicePixels, Size};
use crate::placements::{
    bounds_placed, can_grow, lemma_bounded_can_grow, lemma_noted_bounds, notes, Placements,
};

verus! {

/// The side of a texture that is made for small tiles.
pub const DEFAULT_ATLAS_SIDE: i32 = 1024;

/// The greatest side of a texture on all modern Apple GPUs. The driver stops on
/// anything bigger when it checks the texture against the device.
pub const MAX_ATLAS_SIDE: i32 = 16384;

/// How a pixel is laid out in memory.
#[derive(Clone, Copy, Debug, PartialEq, Eq, Structural)]
pub enum PixelFormat {
    A8Unorm,
    R8Unorm,
    RGBA8Unorm,
    BGRA8Unorm,
}

/// What the GPU does with a texture.
#[derive(Clone, Copy, Debug, PartialEq, Eq, Structural)]
pub enum TextureUsage {
    ShaderRead,
}

/// Where the pixels of a texture live.
#[derive(Clone, Copy, Debug, PartialEq, Eq, Structural)]
pub enum StorageMode {
    /// One copy that the processor and the GPU share. Apple GPUs only.
    Shared,
    /// A copy on either side.
    Managed,
}

/// What the device is asked for when the atlas needs a texture.
#[derive(Clone, Copy, Debug, PartialEq, Eq, Structural)]
pub struct TextureDescriptor {
    pub width: u64,
    pub height: u64,
    pub pixel_format: PixelFormat,
    pub usage: TextureUsage,
    pub storage_mode: StorageMode,
}

/// Which pixels of a texture to replace, and how far apart the rows of the
/// source lie.
#[derive(Clone, Copy, Debug, PartialEq, Eq, Structural)]
pub struct TextureUpload {
    pub x: u64,
    pub y: u64,
    pub width: u64,
    pub height: u64,
    pub mipmap_level: u64,
    pub bytes_per_row: u64,
}

/// The size of the texture that is made to hold a tile of size `min_size`: as
/// large as the tile, but neither smaller than usual nor larger than a GPU takes.
pub open spec fn spec_texture_size(min_size: Size) -> Size {
    Size {
        width: DevicePixels(
            greater(
                lesser(min_size.width.0 as int, MAX_ATLAS_SIDE as int),
                DEFAULT_ATLAS_SIDE as int,
            ) as i32,
        ),
        height: DevicePixels(
            greater(
                lesser(min_size.height.0 as int, MAX_ATLAS_SIDE as int),
                DEFAULT_ATLAS_SIDE as int,
            ) as i32,
        ),
    }
}

/// The pixel format of the textures of a kind.
pub open spec fn spec_pixel_format(kind: AtlasTextureKind) -> PixelFormat {
    match kind {
        AtlasTextureKind::Monochrome => PixelFormat::A8Unorm,
        _ => PixelFormat::BGRA8Unorm,
    }
}

/// What the device is asked for when a tile of size `min_size` and a kind needs
/// a texture.
pub open spec fn spec_texture_descriptor(
    min_size: Size,
    kind: AtlasTextureKind,
    is_apple_gpu: bool,
) -> TextureDescriptor {
    TextureDescriptor {
        width: spec_texture_size(min_size).width.0 as u64,
        height: spec_texture_size(min_size).height.0 as u64,
        pixel_format: spec_pixel_format(kind),
        usage: TextureUsage::ShaderRead,
        storage_mode: if is_apple_gpu {
            StorageMode::Shared
        } else {
            StorageMode::Managed
        },
    }
}

/// The size of the texture that is made to hold a tile of size `min_size`.
pub fn texture_size(min_size: Size) -> (size: Size)
    ensures
        size == spec_texture_size(min_size),
{
    let max = Size { width: DevicePixels(MAX_ATLAS_SIDE), height: DevicePixels(MAX_ATLAS_SIDE) };
    let default = Size {
        width: DevicePixels(DEFAULT_ATLAS_SIDE),
        height: DevicePixels(DEFAULT_ATLAS_SIDE),
    };
    min_size.min(&max).max(&default)
}

/// What to ask the device for when a tile of size `min_size` needs a texture.
pub fn texture_descriptor(min_size: Size, kind: AtlasTextureKind, is_apple_gpu: bool) -> (descriptor:
    TextureDescriptor)
    requires
        kind != AtlasTextureKind::Subpixel,
    ensures
        descriptor == spec_texture_descriptor(min_size, kind, is_apple_gpu),
{
    let size = texture_size(min_size);
    let pixel_format = match kind {
        AtlasTextureKind::Monochrome => PixelFormat::A8Unorm,
        _ => PixelFormat::BGRA8Unorm,
    };
    TextureDescriptor {
        width: size.width.0 as u64,
        height: size.height.0 as u64,
        pixel_format,
        usage: TextureUsage::ShaderRead,
        storage_mode: if is_apple_gpu {
            StorageMode::Shared
        } else {
            StorageMode::Managed
        },
    }
}

impl PixelFormat {
    /// The bytes that one pixel takes.
    pub open spec fn spec_bytes_per_pixel(self) -> u8 {
        match self {
            PixelFormat::A8Unorm => 1,
            PixelFormat::R8Unorm => 1,
            PixelFormat::RGBA8Unorm => 4,
            PixelFormat::BGRA8Unorm => 4,
        }
    }

    /// The bytes that one pixel takes.
    pub fn bytes_per_pixel(self) -> (bytes: u8)
        ensures
            bytes == self.spec_bytes_per_pixel(),
    {
        match self {
            PixelFormat::A8Unorm | PixelFormat::R8Unorm => 1,
            PixelFormat::RGBA8Unorm | PixelFormat::BGRA8Unorm => 4,
        }
    }
}

/// Where to write the pixels of a rectangle.
pub open spec fn spec_upload(bounds: Bounds, format: PixelFormat) -> TextureUpload {
    TextureUpload {
        x: bounds.origin.x.0 as u64,
        y: bounds.origin.y.0 as u64,
        width: bounds.size.width.0 as u64,
        height: bounds.size.height.0 as u64,
        mipmap_level: 0,
        bytes_per_row: (bounds.size.width.0 * format.spec_bytes_per_pixel()) as u64,
    }
}

/// The tile that stands for an allocation of a size in a texture.
pub open spec fn spec_tile(id: AtlasTextureId, allocation: Allocation, size: Size) -> AtlasTile {
    AtlasTile {
        texture_id: id,
        tile_id: allocation.id,
        padding: 0,
        bounds: Bounds { origin: allocation.rectangle.min, size },
    }
}

/// A texture of the atlas, with the handle `T` by which the device knows it.
pub struct MetalAtlasTexture<T> {
    id: AtlasTextureId,
    allocator: BucketedAtlasAllocator,
    metal_texture: T,
    pixel_format: PixelFormat,
    live_atlas_keys: u32,
    retired_allocations: Vec<(u64, TileId)>,
    placements: Placements,
}

/// A texture as the contracts see it.
pub struct TextureModel<T> {
    pub id: AtlasTextureId,
    pub allocator: BucketedAtlasAllocator,
    pub metal_texture: T,
    pub pixel_format: PixelFormat,
    /// How many keys have a tile in the texture.
    pub live_atlas_keys: nat,
    /// The allocations of removed keys, each with the last frame that may
    /// sample it, in the order of removal.
    pub retired: Seq<(u64, TileId)>,
    /// How often each bucket of the allocator was used, at most.
    pub placements: Seq<u16>,
}

/// The names among `retired` that do not have to wait.
pub open spec fn released_ids(
    retired: Seq<(u64, TileId)>,
    first_active: Option<u64>,
) -> Set<TileId> {
    Set::new(
        |id: TileId|
            exists|i: int|
                0 <= i < retired.len() && (#[trigger] retired[i]).1 == id && !must_wait(
                    first_active,
                    retired[i].0,
                ),
    )
}

impl<T> TextureModel<T> {
    /// The rectangles of the texture that are taken.
    pub open spec fn rectangles(self) -> Map<TileId, Rectangle> {
        allocated(self.allocator)
    }

    /// True of a texture whose rectangles share no pixel, each of them taken by
    /// a key or waiting for the GPU, and whose counts agree with that.
    pub open spec fn well_formed(self) -> bool {
        &&& self.id.kind != AtlasTextureKind::Subpixel
        &&& self.pixel_format == spec_pixel_format(self.id.kind)
        &&& DEFAULT_ATLAS_SIDE <= extent(self.allocator).width.0 <= MAX_ATLAS_SIDE
        &&& DEFAULT_ATLAS_SIDE <= extent(self.allocator).height.0 <= MAX_ATLAS_SIDE
        &&& well_packed(self.allocator)
        &&& self.retired_are_distinct()
        &&& self.live_atlas_keys + self.retired.len() == self.rectangles().len()
        &&& bounds_placed(self.placements, self.allocator)
    }

    /// True if the allocator can count one more allocation, whichever bucket it
    /// takes.
    pub open spec fn can_place(self) -> bool {
        can_grow(self.placements)
    }

    /// True if no allocation was granted since `other`.
    pub open spec fn same_placements(self, other: TextureModel<T>) -> bool {
        &&& self.placements == other.placements
        &&& placed(self.allocator) == placed(other.allocator)
    }

    /// True if the retired allocations are all taken and none stands twice.
    pub open spec fn retired_are_distinct(self) -> bool {
        &&& forall|i: int|
            0 <= i < self.retired.len() ==> self.rectangles().contains_key(
                (#[trigger] self.retired[i]).1,
            )
        &&& forall|i: int, j: int|
            0 <= i < j < self.retired.len() ==> (#[trigger] self.retired[i]).1 != (
            #[trigger] self.retired[j]).1
    }

    /// True if all but the allocator, the key count and the retired allocations
    /// is as in `other`.
    pub open spec fn same_surface(self, other: TextureModel<T>) -> bool {
        &&& self.id == other.id
        &&& self.metal_texture == other.metal_texture
        &&& self.pixel_format == other.pixel_format
        &&& extent(self.allocator) == extent(other.allocator)
    }

    /// True of a texture of a size from which nothing was ever allocated.
    pub open spec fn is_fresh(self, id: AtlasTextureId, size: Size, metal_texture: T) -> bool {
        &&& self.id == id
        &&& self.metal_texture == metal_texture
        &&& self.pixel_format == spec_pixel_format(id.kind)
        &&& self.live_atlas_keys == 0
        &&& self.retired.len() == 0
        &&& extent(self.allocator) == size
        &&& self.placements.len() == 0
        &&& forall|id: TileId| !(#[trigger] self.rectangles().contains_key(id))
        &&& forall|bucket: u32| !(#[trigger] placed(self.allocator).contains_key(bucket))
        &&& forall|request: Size|
            request.covers_pixels() && request.fits_in(size) ==> (#[trigger] answer(
                self.allocator,
                request,
            )) is Some
    }

    /// True if the texture became `post` when it granted `allocation`.
    pub open spec fn grants(self, post: TextureModel<T>, allocation: Allocation, size: Size) -> bool {
        &&& post.same_surface(self)
        &&& post.live_atlas_keys == self.live_atlas_keys + 1
        &&& post.retired == self.retired
        &&& !self.rectangles().contains_key(allocation.id)
        &&& post.rectangles() == self.rectangles().insert(allocation.id, allocation.rectangle)
        &&& allocation.rectangle.lies_within(extent(self.allocator))
        &&& allocation.rectangle.max.x.0 - allocation.rectangle.min.x.0 == size.width.0
        &&& allocation.rectangle.max.y.0 - allocation.rectangle.min.y.0 >= size.height.0
        &&& forall|id: TileId| #[trigger]
            self.rectangles().contains_key(id) ==> allocation.rectangle.disjoint(
                self.rectangles()[id],
            )
        &&& notes(self.placements, post.placements, allocation.id)
        &&& bounds_placed(post.placements, post.allocator)
    }

    /// True if the texture became `post` when a key gave up the allocation
    /// `tile_id`: it waits for the frame `retire_after`, or is given back at
    /// once if there is none.
    pub open spec fn gives_up(
        self,
        post: TextureModel<T>,
        tile_id: TileId,
        retire_after: Option<u64>,
    ) -> bool {
        &&& post.same_surface(self)
        &&& post.same_placements(self)
        &&& post.live_atlas_keys == self.live_atlas_keys - 1
        &&& match retire_after {
            Some(serial) => {
                &&& post.retired == self.retired.push((serial, tile_id))
                &&& post.allocator == self.allocator
            },
            None => {
                &&& post.retired == self.retired
                &&& post.rectangles() == self.rectangles().remove(tile_id)
            },
        }
    }

    /// True if the texture became `post` when it gave back what no longer has
    /// to wait.
    pub open spec fn releases(self, post: TextureModel<T>, first_active: Option<u64>) -> bool {
        &&& post.same_surface(self)
        &&& post.same_placements(self)
        &&& post.live_atlas_keys == self.live_atlas_keys
        &&& post.retired == self.retired.filter(
            |entry: (u64, TileId)| must_wait(first_active, entry.0),
        )
        &&& post.rectangles() == self.rectangles().remove_keys(
            released_ids(self.retired, first_active),
        )
    }
}

/// An allocator stays well packed when it takes rectangles back.
pub(crate) proof fn lemma_packed_after_removal(
    pre: BucketedAtlasAllocator,
    post: BucketedAtlasAllocator,
)
    requires
        well_packed(pre),
        extent(post) == extent(pre),
        allocated(post).submap_of(allocated(pre)),
    ensures
        well_packed(post),
{
    vstd::set_lib::lemma_set_subset_finite(allocated(pre).dom(), allocated(post).dom());
    assert forall|id: TileId| #[trigger] allocated(post).contains_key(id) implies allocated(
        post,
    )[id].lies_within(extent(post)) by {
        assert(allocated(pre).contains_key(id));
    }
    assert forall|a: TileId, b: TileId|
        #![trigger allocated(post).contains_key(a), allocated(post).contains_key(b)]
        allocated(post).contains_key(a) && allocated(post).contains_key(b) && a
            != b implies allocated(post)[a].disjoint(allocated(post)[b]) by {
        assert(allocated(pre).contains_key(a) && allocated(pre).contains_key(b));
    }
}

impl<T> View for MetalAtlasTexture<T> {
    type V = TextureModel<T>;

    closed spec fn view(&self) -> TextureModel<T> {
        TextureModel {
            id: self.id,
            allocator: self.allocator,
            metal_texture: self.metal_texture,
            pixel_format: self.pixel_format,
            live_atlas_keys: self.live_atlas_keys as nat,
            retired: self.retired_allocations@,
            placements: self.placements@,
        }
    }
}

impl<T> MetalAtlasTexture<T> {
    /// A texture of a size, with nothing in it, under the handle that the
    /// device gave it.
    pub fn new(id: AtlasTextureId, size: Size, metal_texture: T) -> (texture: Self)
        requires
            id.kind != AtlasTextureKind::Subpixel,
            DEFAULT_ATLAS_SIDE <= size.width.0 <= MAX_ATLAS_SIDE,
            DEFAULT_ATLAS_SIDE <= size.height.0 <= MAX_ATLAS_SIDE,
        ensures
            texture@.well_formed(),
            texture@.is_fresh(id, size, metal_texture),
    {
        let texture = MetalAtlasTexture {
            id,
            allocator: new_allocator(size),
            metal_texture,
            pixel_format: match id.kind {
                AtlasTextureKind::Monochrome => PixelFormat::A8Unorm,
                _ => PixelFormat::BGRA8Unorm,
            },
            live_atlas_keys: 0,
            retired_allocations: Vec::new(),
            placements: Placements::new(),
        };
        proof {
            assert(texture@.rectangles().dom() =~= Set::<TileId>::empty());
        }
        texture
    }

    /// Tells whether the allocator can count one more allocation.
    pub fn can_place(&self) -> (can: bool)
        ensures
            can == self@.can_place(),
    {
        self.placements.can_grow()
    }

    /// Takes room for a tile of a size, if the texture has it.
    pub fn allocate(&mut self, size: Size) -> (tile: Option<AtlasTile>)
        requires
            old(self)@.well_formed(),
            old(self)@.can_place(),
        ensures
            final(self)@.well_formed(),
            match answer(old(self)@.allocator, size) {
                Some(allocation) => {
                    &&& tile == Some(spec_tile(old(self)@.id, allocation, size))
                    &&& old(self)@.grants(final(self)@, allocation, size)
                },
                None => tile is None && final(self)@ == old(self)@,
            },
            !(size.covers_pixels() && size.fits_in(extent(old(self)@.allocator))) ==> tile is None,
    {
        let ghost pre = self@;
        proof {
            lemma_bounded_can_grow(pre.placements, pre.allocator);
        }
        let allocation = match allocate_rectangle(&mut self.allocator, size) {
            Some(allocation) => allocation,
            None => {
                return None;
            },
        };
        self.placements.note(allocation.id);
        proof {
            lemma_noted_bounds(
                pre.placements,
                self@.placements,
                pre.allocator,
                self.allocator,
                allocation.id,
            );
            rectangles_are_no_more_than_pixels(pre.allocator);
            let w = extent(self.allocator).width.0 as int;
            let h = extent(self.allocator).height.0 as int;
            assert(w * h <= 16384 * 16384) by (nonlinear_arith)
                requires
                    0 <= w <= 16384,
                    0 <= h <= 16384,
            ;
        }
        let tile = AtlasTile {
            texture_id: self.id,
            tile_id: allocation.id,
            bounds: Bounds { origin: allocation.rectangle.min, size },
            padding: 0,
        };
        self.live_atlas_keys += 1;
        proof {
            lemma_granted_is_well_formed(pre, self@, allocation, size);
        }
        Some(tile)
    }

    /// Where and how to write the pixels of a tile of the texture.
    pub fn upload(&self, bounds: Bounds) -> (upload: TextureUpload)
        requires
            0 <= bounds.origin.x.0,
            0 <= bounds.origin.y.0,
            0 <= bounds.size.width.0,
            bounds.size.width.0 * self@.pixel_format.spec_bytes_per_pixel() <= u32::MAX,
            0 <= bounds.size.height.0,
        ensures
            upload == spec_upload(bounds, self@.pixel_format),
    {
        TextureUpload {
            x: bounds.origin.x.0 as u64,
            y: bounds.origin.y.0 as u64,
            width: bounds.size.width.0 as u64,
            height: bounds.size.height.0 as u64,
            mipmap_level: 0,
            bytes_per_row: bounds.size.width.to_bytes(self.bytes_per_pixel()) as u64,
        }
    }

    /// The bytes that one pixel of the texture takes.
    pub fn bytes_per_pixel(&self) -> (bytes: u8)
        ensures
            bytes == self@.pixel_format.spec_bytes_per_pixel(),
    {
        self.pixel_format.bytes_per_pixel()
    }

    /// The handle by which the device knows the texture.
    pub fn metal_texture(&self) -> (handle: &T)
        ensures
            *handle == self@.metal_texture,
    {
        &self.metal_texture
    }

    /// The name of the texture.
    pub fn id(&self) -> (id: AtlasTextureId)
        ensures
            id == self@.id,
    {
        self.id
    }

    /// How many allocations wait for the GPU.
    pub fn retired_len(&self) -> (len: usize)
        ensures
            len == self@.retired.len(),
    {
        self.retired_allocations.len()
    }

    /// Counts one key less.
    pub fn decrement_ref_count(&mut self)
        requires
            old(self)@.live_atlas_keys > 0,
        ensures
            final(self)@ == (TextureModel {
                live_atlas_keys: (old(self)@.live_atlas_keys - 1) as nat,
                ..old(self)@
            }),
    {
        self.live_atlas_keys -= 1;
    }

    /// Tells whether no key has a tile in the texture.
    pub fn is_unreferenced(&self) -> (unreferenced: bool)
        ensures
            unreferenced == (self@.live_atlas_keys == 0),
    {
        self.live_atlas_keys == 0
    }

    /// Has an allocation wait until every frame up to `serial` is complete.
    pub fn retire(&mut self, serial: u64, id: TileId)
        ensures
            final(self)@ == (TextureModel {
                retired: old(self)@.retired.push((serial, id)),
                ..old(self)@
            }),
    {
        self.retired_allocations.push((serial, id));
    }

    /// Gives an allocation back at once.
    pub fn deallocate(&mut self, id: TileId)
        requires
            old(self)@.rectangles().contains_key(id),
        ensures
            final(self)@.same_surface(old(self)@),
            final(self)@.same_placements(old(self)@),
            final(self)@.live_atlas_keys == old(self)@.live_atlas_keys,
            final(self)@.retired == old(self)@.retired,
            final(self)@.rectangles() == old(self)@.rectangles().remove(id),
    {
        deallocate_rectangle(&mut self.allocator, id);
    }

    /// Gives back the retired allocations that no active frame can sample any
    /// more, and tells how many they were.
    pub fn release_retired(&mut self, first_active: Option<u64>) -> (released: usize)
        requires
            old(self)@.well_formed(),
        ensures
            final(self)@.well_formed(),
            old(self)@.releases(final(self)@, first_active),
            released == old(self)@.retired.len() - final(self)@.retired.len(),
    {
        let ghost pre = self@;
        let ghost keeps = |entry: (u64, TileId)| must_wait(first_active, entry.0);
        let mut kept: Vec<(u64, TileId)> = Vec::new();
        let count: usize = self.retired_allocations.len();
        let mut i: usize = 0;
        proof {
            assert(pre.retired.take(0).filter(keeps) =~= kept@) by {
                reveal(Seq::filter);
            }
            assert(left_after(pre, first_active, 0) =~= pre.rectangles());
        }
        while i < count
            invariant
                i <= count,
                count == pre.retired.len(),
                pre.well_formed(),
                self@.same_surface(pre),
                self@.same_placements(pre),
                self@.live_atlas_keys == pre.live_atlas_keys,
                self.retired_allocations@ == pre.retired,
                keeps == (|entry: (u64, TileId)| must_wait(first_active, entry.0)),
                kept@ == pre.retired.take(i as int).filter(keeps),
                kept@.len() <= i,
                self@.rectangles() == left_after(pre, first_active, i as int),
            decreases count - i,
        {
            let (serial, allocation): (u64, TileId) = self.retired_allocations[i];
            let wait = match first_active {
                Some(active) => active <= serial,
                None => false,
            };
            proof {
                lemma_release_step(pre, first_active, i as int);
            }
            if wait {
                kept.push((serial, allocation));
            } else {
                deallocate_rectangle(&mut self.allocator, allocation);
            }
            i += 1;
        }
        let released: usize = count - kept.len();
        self.retired_allocations = kept;
        proof {
            assert(pre.retired.take(count as int) =~= pre.retired);
            lemma_released_is_well_formed(pre, self@, first_active);
        }
        released
    }
}

/// A texture stays in order when it grants an allocation.
pub(crate) proof fn lemma_granted_is_well_formed<T>(
    pre: TextureModel<T>,
    post: TextureModel<T>,
    allocation: Allocation,
    size: Size,
)
    requires
        pre.well_formed(),
        pre.grants(post, allocation, size),
    ensures
        post.well_formed(),
{
    let before = pre.rectangles();
    let after = post.rectangles();
    assert forall|id: TileId| #[trigger] after.contains_key(id) implies after[id].lies_within(
        extent(post.allocator),
    ) by {
        if id != allocation.id {
            assert(before.contains_key(id));
        }
    }
    assert forall|a: TileId, b: TileId|
        #![trigger after.contains_key(a), after.contains_key(b)]
        after.contains_key(a) && after.contains_key(b) && a != b implies after[a].disjoint(
        after[b],
    ) by {
        if a != allocation.id {
            assert(before.contains_key(a));
        }
        if b != allocation.id {
            assert(before.contains_key(b));
        }
    }
    assert(well_packed(post.allocator));
    assert forall|i: int| 0 <= i < post.retired.len() implies after.contains_key(
        (#[trigger] post.retired[i]).1,
    ) by {
        assert(before.contains_key(pre.retired[i].1));
    }
}

/// The rectangles that are left when the first `n` retired allocations were
/// looked at.
spec fn left_after<T>(pre: TextureModel<T>, first_active: Option<u64>, n: int) -> Map<
    TileId,
    Rectangle,
> {
    pre.rectangles().remove_keys(released_ids(pre.retired.take(n), first_active))
}

/// How one more retired allocation is kept or given back.
proof fn lemma_release_step<T>(pre: TextureModel<T>, first_active: Option<u64>, i: int)
    requires
        pre.retired_are_distinct(),
        0 <= i < pre.retired.len(),
    ensures
        ({
            let keeps = |entry: (u64, TileId)| must_wait(first_active, entry.0);
            let entry = pre.retired[i];
            let kept = pre.retired.take(i).filter(keeps);
            let left = left_after(pre, first_active, i);
            &&& left.contains_key(entry.1)
            &&& pre.retired.take(i + 1).filter(keeps) == (if must_wait(first_active, entry.0) {
                kept.push(entry)
            } else {
                kept
            })
            &&& left_after(pre, first_active, i + 1) == (if must_wait(first_active, entry.0) {
                left
            } else {
                left.remove(entry.1)
            })
        }),
{
    let keeps = |entry: (u64, TileId)| must_wait(first_active, entry.0);
    let entry = pre.retired[i];
    let before = pre.retired.take(i);
    let after = pre.retired.take(i + 1);
    let wait = must_wait(first_active, entry.0);
    assert(after =~= before.push(entry));
    assert(after.drop_last() =~= before);
    reveal(Seq::filter);
    assert(after.filter(keeps) == (if keeps(entry) {
        before.filter(keeps).push(entry)
    } else {
        before.filter(keeps)
    }));
    assert forall|id: TileId|
        released_ids(after, first_active).contains(id) == (released_ids(
            before,
            first_active,
        ).contains(id) || (!wait && id == entry.1)) by {
        if released_ids(before, first_active).contains(id) {
            let j = choose|j: int|
                0 <= j < before.len() && (#[trigger] before[j]).1 == id && !must_wait(
                    first_active,
                    before[j].0,
                );
            assert(after[j] == before[j]);
        }
        if !wait && id == entry.1 {
            assert(after[i].1 == id);
        }
        if released_ids(after, first_active).contains(id) {
            let j = choose|j: int|
                0 <= j < after.len() && (#[trigger] after[j]).1 == id && !must_wait(
                    first_active,
                    after[j].0,
                );
            if j < i {
                assert(before[j] == after[j]);
            }
        }
    }
    assert(!released_ids(before, first_active).contains(entry.1)) by {
        if released_ids(before, first_active).contains(entry.1) {
            let j = choose|j: int|
                0 <= j < before.len() && (#[trigger] before[j]).1 == entry.1 && !must_wait(
                    first_active,
                    before[j].0,
                );
            assert(pre.retired[j].1 != pre.retired[i].1);
        }
    }
    assert(pre.rectangles().contains_key(pre.retired[i].1));
    let left = left_after(pre, first_active, i);
    assert(left_after(pre, first_active, i + 1) =~= (if wait {
        left
    } else {
        left.remove(entry.1)
    }));
}

/// As many rectangles are given back as retired allocations are not kept.
proof fn lemma_left_len<T>(pre: TextureModel<T>, first_active: Option<u64>, n: int)
    requires
        pre.well_formed(),
        0 <= n <= pre.retired.len(),
    ensures
        left_after(pre, first_active, n).dom().finite(),
        left_after(pre, first_active, n).len() + n == pre.rectangles().len()
            + pre.retired.take(n).filter(
            |entry: (u64, TileId)| must_wait(first_active, entry.0),
        ).len(),
    decreases n,
{
    let keeps = |entry: (u64, TileId)| must_wait(first_active, entry.0);
    if n == 0 {
        reveal(Seq::filter);
        assert(left_after(pre, first_active, 0) =~= pre.rectangles());
        assert(pre.retired.take(0).filter(keeps).len() == 0);
    } else {
        lemma_left_len(pre, first_active, n - 1);
        lemma_release_step(pre, first_active, n - 1);
    }
}

/// A texture stays in order when it gives back what no longer has to wait.
pub(crate) proof fn lemma_released_is_well_formed<T>(
    pre: TextureModel<T>,
    post: TextureModel<T>,
    first_active: Option<u64>,
)
    requires
        pre.well_formed(),
        pre.releases(post, first_active),
    ensures
        post.well_formed(),
{
    let n = pre.retired.len() as int;
    assert(pre.retired.take(n) =~= pre.retired);
    lemma_left_len(pre, first_active, n);
    lemma_packed_after_removal(pre.allocator, post.allocator);
    lemma_kept_are_distinct(pre, post, first_active);
}

/// What has to wait is still taken, each allocation once.
proof fn lemma_kept_are_distinct<T>(
    pre: TextureModel<T>,
    post: TextureModel<T>,
    first_active: Option<u64>,
)
    requires
        pre.retired_are_distinct(),
        pre.releases(post, first_active),
    ensures
        post.retired_are_distinct(),
{
    let keeps = |entry: (u64, TileId)| must_wait(first_active, entry.0);
    lemma_filter_keeps_distinct(pre.retired, keeps);
    assert forall|i: int| 0 <= i < post.retired.len() implies post.rectangles().contains_key(
        (#[trigger] post.retired[i]).1,
    ) by {
        let entry = post.retired[i];
        assert(pre.retired.filter(keeps).contains(entry));
        let j = choose|j: int| 0 <= j < pre.retired.len() && pre.retired[j] == entry;
        assert(pre.rectangles().contains_key(pre.retired[j].1));
        if released_ids(pre.retired, first_active).contains(entry.1) {
            let k = choose|k: int|
                0 <= k < pre.retired.len() && (#[trigger] pre.retired[k]).1 == entry.1
                    && !must_wait(first_active, pre.retired[k].0);
            if k < j {
                assert(pre.retired[k].1 != pre.retired[j].1);
            } else if j < k {
                assert(pre.retired[j].1 != pre.retired[k].1);
            }
        }
    }
}

/// Filtering keeps only entries of the sequence that pass, and keeps their names distinct.
proof fn lemma_filter_keeps_distinct(
    entries: Seq<(u64, TileId)>,
    keeps: spec_fn((u64, TileId)) -> bool,
)
    requires
        forall|i: int, j: int|
            0 <= i < j < entries.len() ==> (#[trigger] entries[i]).1 != (#[trigger] entries[j]).1,
    ensures
        forall|entry: (u64, TileId)| #[trigger]
            entries.filter(keeps).contains(entry) ==> entries.contains(entry) && keeps(entry),
        forall|i: int, j: int|
            0 <= i < j < entries.filter(keeps).len() ==> (#[trigger] entries.filter(keeps)[i]).1
                != (#[trigger] entries.filter(keeps)[j]).1,
    decreases entries.len(),
{
    reveal(Seq::filter);
    if entries.len() > 0 {
        let rest = entries.drop_last();
        let last = entries.last();
        assert forall|i: int, j: int| 0 <= i < j < rest.len() implies (#[trigger] rest[i]).1 != (
        #[trigger] rest[j]).1 by {
            assert(entries[i].1 != entries[j].1);
        }
        lemma_filter_keeps_distinct(rest, keeps);
        let kept = rest.filter(keeps);
        let all = entries.filter(keeps);
        assert(all == if keeps(last) {
            kept.push(last)
        } else {
            kept
        });
        assert forall|entry: (u64, TileId)| #[trigger] all.contains(entry) implies entries.contains(
            entry,
        ) && keeps(entry) by {
            let i = choose|i: int| 0 <= i < all.len() && all[i] == entry;
            if i < kept.len() {
                assert(kept[i] == entry);
                assert(kept.contains(entry));
                let j = choose|j: int| 0 <= j < rest.len() && rest[j] == entry;
                assert(entries[j] == entry);
            } else {
                assert(entries[entries.len() - 1] == entry);
            }
        }
        assert forall|i: int, j: int| 0 <= i < j < all.len() implies (#[trigger] all[i]).1 != (
        #[trigger] all[j]).1 by {
            if j < kept.len() {
                assert(kept[i].1 != kept[j].1);
            } else {
                assert(kept.contains(kept[i]));
                let k = choose|k: int| 0 <= k < rest.len() && rest[k] == kept[i];
                assert(entries[k].1 != entries[entries.len() - 1].1);
            }
        }
    }
}

} // verus!
