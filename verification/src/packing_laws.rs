//! What each operation does to the textures and the room in them, told by what
//! the allocators answer and by which frames are active.
use vstd::prelude::*;

use crate::allocator::{answer, extent};
use crate::atlas_laws::{every_tile_lies_in_its_texture, tiles_do_not_overlap};
use crate::atlas_model::{lemma_removal_changes_one_texture, AtlasModel};
use crate::atlas_runs::{performs, stores_with, Operation};
use crate::atlas_types::{AtlasKey, AtlasTextureId, AtlasTextureKind, AtlasTile, TileId};
use crate::frames::{
    is_least, lemma_has_least, must_wait, newest, newest_is_not_older, oldest,
};
use crate::geometry::{Bounds, Size};
use crate::metal_atlas::AtlasError;
use crate::texture::{
    spec_texture_descriptor, spec_texture_size, spec_upload, PixelFormat, StorageMode,
    TextureDescriptor, TextureModel, TextureUsage,
};
use crate::texture_laws::{each_texel_gets_its_pixel, textures_have_the_format_of_their_kind};
use crate::texture_list::{
    can_be_placed, lemma_total_retired_push, lemma_total_retired_update, total_retired,
};

verus! {

/// The slots of the textures of a kind.
pub open spec fn slots_of<T>(model: AtlasModel<T>, kind: AtlasTextureKind) -> Seq<
    Option<TextureModel<T>>,
> {
    if kind == AtlasTextureKind::Monochrome {
        model.monochrome.slots
    } else {
        model.polychrome.slots
    }
}

/// A texture is made for a tile just if the allocator of every texture of its
/// kind refuses the size.
pub proof fn textures_are_made_only_if_all_refuse<T>(
    pre: AtlasModel<T>,
    post: AtlasModel<T>,
    kind: AtlasTextureKind,
    size: Size,
    made: Option<T>,
    tile: Option<AtlasTile>,
)
    requires
        pre.places(post, kind, size, made, tile),
    ensures
        made is Some <==> (forall|i: int|
            0 <= i < slots_of(pre, kind).len() && (#[trigger] slots_of(pre, kind)[i]) is Some
                ==> answer(slots_of(pre, kind)[i]->0.allocator, size) is None),
{
    let list = pre.list(kind);
    assert(list.slots == slots_of(pre, kind));
    if made is Some {
        assert forall|i: int|
            0 <= i < slots_of(pre, kind).len() && (
            #[trigger] slots_of(pre, kind)[i]) is Some implies answer(
            slots_of(pre, kind)[i]->0.allocator,
            size,
        ) is None by {
            assert(!list.fits(i, size));
        }
    } else {
        let i = choose|i: int| #[trigger] list.fits(i, size);
        assert(slots_of(pre, kind)[i] is Some);
    }
}

/// Where no texture is made, the last texture of the kind whose allocator grants
/// the size serves: the tile is what that allocator answers, all other textures
/// stay as they are, and so does what this one had.
pub proof fn the_last_texture_that_grants_serves<T>(
    pre: AtlasModel<T>,
    post: AtlasModel<T>,
    kind: AtlasTextureKind,
    size: Size,
    tile: Option<AtlasTile>,
) -> (i: int)
    requires
        pre.textures_valid(),
        kind != AtlasTextureKind::Subpixel,
        pre.places(post, kind, size, None, tile),
    ensures
        0 <= i < slots_of(pre, kind).len(),
        slots_of(pre, kind)[i] is Some,
        answer(slots_of(pre, kind)[i]->0.allocator, size) is Some,
        forall|j: int|
            i < j < slots_of(pre, kind).len() && (#[trigger] slots_of(pre, kind)[j]) is Some
                ==> answer(slots_of(pre, kind)[j]->0.allocator, size) is None,
        ({
            let before = slots_of(pre, kind)[i]->0;
            let after = slots_of(post, kind)[i]->0;
            let granted = answer(before.allocator, size)->0;
            &&& tile == Some(
                AtlasTile {
                    texture_id: AtlasTextureId { index: i as u32, kind },
                    tile_id: granted.id,
                    padding: 0,
                    bounds: Bounds { origin: granted.rectangle.min, size },
                },
            )
            &&& slots_of(post, kind)[i] is Some
            &&& after.metal_texture == before.metal_texture
            &&& after.retired == before.retired
            &&& after.live_atlas_keys == before.live_atlas_keys + 1
            &&& !before.rectangles().contains_key(granted.id)
            &&& after.rectangles() == before.rectangles().insert(granted.id, granted.rectangle)
        }),
        slots_of(post, kind).len() == slots_of(pre, kind).len(),
        forall|j: int|
            0 <= j < slots_of(pre, kind).len() && j != i ==> #[trigger] slots_of(post, kind)[j]
                == slots_of(pre, kind)[j],
        post.tiles == pre.tiles,
        post.pending == pre.pending,
        post.active == pre.active,
        post.next_frame == pre.next_frame,
        post.is_apple_gpu == pre.is_apple_gpu,
        kind == AtlasTextureKind::Monochrome ==> post.polychrome == pre.polychrome,
        kind == AtlasTextureKind::Polychrome ==> post.monochrome == pre.monochrome,
{
    let list = pre.list(kind);
    let (i, texture) = choose|i: int, texture: TextureModel<T>|
        list.is_last_fit(i, size) && #[trigger] list.grants_at(
            post.list(kind),
            i,
            texture,
            size,
            tile,
        );
    assert(list.slots[i] is Some);
    assert forall|j: int|
        i < j < slots_of(pre, kind).len() && (
        #[trigger] slots_of(pre, kind)[j]) is Some implies answer(
        slots_of(pre, kind)[j]->0.allocator,
        size,
    ) is None by {
        assert(!list.fits(j, size));
    }
    i
}

/// A texture that is made for a tile takes the slot that became free last, or a
/// new one at the end if none is free. It has the handle that the device gave it
/// and holds the tile and nothing else, or nothing if the tile has no pixel or
/// fits no texture. All other textures stay as they are.
pub proof fn a_new_texture_holds_its_tile_alone<T>(
    pre: AtlasModel<T>,
    post: AtlasModel<T>,
    kind: AtlasTextureKind,
    size: Size,
    metal_texture: T,
    tile: Option<AtlasTile>,
) -> (id: AtlasTextureId)
    requires
        pre.textures_valid(),
        kind != AtlasTextureKind::Subpixel,
        pre.list(kind).has_room(),
        pre.places(post, kind, size, Some(metal_texture), tile),
    ensures
        id.kind == kind,
        ({
            let free = if kind == AtlasTextureKind::Monochrome {
                pre.monochrome.free
            } else {
                pre.polychrome.free
            };
            if free.len() > 0 {
                id.index == free.last()
            } else {
                id.index == slots_of(pre, kind).len()
            }
        }),
        pre.texture(id) is None,
        post.texture(id) is Some,
        post.texture(id)->0.metal_texture == metal_texture,
        post.texture(id)->0.retired.len() == 0,
        forall|other: AtlasTextureId|
            other != id ==> #[trigger] post.texture(other) == pre.texture(other),
        tile is Some <==> 1 <= size.width.0 <= 16384 && 1 <= size.height.0 <= 16384,
        match tile {
            Some(tile) => {
                let rectangles = post.texture(id)->0.rectangles();
                &&& tile.texture_id == id
                &&& tile.padding == 0
                &&& tile.bounds.size == size
                &&& forall|t: TileId| #[trigger] rectangles.contains_key(t) <==> t == tile.tile_id
                &&& tile.bounds.origin == rectangles[tile.tile_id].min
                &&& post.texture(id)->0.live_atlas_keys == 1
            },
            None => {
                &&& forall|t: TileId| !(#[trigger] post.texture(id)->0.rectangles().contains_key(t))
                &&& post.texture(id)->0.live_atlas_keys == 0
            },
        },
        ({
            let surface = extent(post.texture(id)->0.allocator);
            &&& size.width.0 <= 1024 ==> surface.width.0 == 1024
            &&& 1024 <= size.width.0 <= 16384 ==> surface.width.0 == size.width.0
            &&& 16384 <= size.width.0 ==> surface.width.0 == 16384
            &&& size.height.0 <= 1024 ==> surface.height.0 == 1024
            &&& 1024 <= size.height.0 <= 16384 ==> surface.height.0 == size.height.0
            &&& 16384 <= size.height.0 ==> surface.height.0 == 16384
        }),
        post.tiles == pre.tiles,
        post.pending == pre.pending,
        post.active == pre.active,
        post.next_frame == pre.next_frame,
        post.is_apple_gpu == pre.is_apple_gpu,
{
    let list = pre.list(kind);
    let id = AtlasTextureId { index: list.next_slot() as u32, kind };
    if list.free.len() > 0 {
        assert(list.free[list.free.len() - 1] == list.next_slot());
    }
    let fresh = choose|fresh: TextureModel<T>|
        {
            &&& fresh.is_fresh(id, spec_texture_size(size), metal_texture)
            &&& #[trigger] list.serves_with(post.list(kind), fresh, size, tile)
        };
    if can_be_placed(size) {
        let texture = choose|texture: TextureModel<T>| #[trigger]
            list.adds_and_grants(post.list(kind), fresh, texture, size, tile);
        assert(post.texture(id) == Some(texture));
        let granted = answer(fresh.allocator, size)->0;
        assert(texture.rectangles() == fresh.rectangles().insert(granted.id, granted.rectangle));
        assert forall|t: TileId| #[trigger] texture.rectangles().contains_key(t) <==> t
            == granted.id by {
            assert(!fresh.rectangles().contains_key(t));
        }
    } else {
        assert(post.texture(id) == Some(fresh));
    }
    assert forall|other: AtlasTextureId| other != id implies #[trigger] post.texture(other)
        == pre.texture(other) by {
        if other.kind == kind {
            assert(other.index != id.index);
        }
    }
    id
}

/// The side of a texture that is made for a tile with that side.
pub open spec fn side_for(side: i32) -> u64 {
    if side < 1024 {
        1024
    } else if side > 16384 {
        16384
    } else {
        side as u64
    }
}

/// An insertion asks the device for a texture just if the allocator of every
/// texture of the kind refuses the size. It asks for one that is large enough, of
/// the kind's format and in the memory that the GPU takes, and the tile is put on
/// the texture that the device gave.
pub proof fn insertion_asks_for_the_texture_it_uses<T, E, C: FnOnce(TextureDescriptor) -> T>(
    pre: AtlasModel<T>,
    post: AtlasModel<T>,
    key: AtlasKey,
    size: Size,
    new_texture: C,
    result: Result<Option<AtlasTile>, AtlasError<E>>,
) -> (made: Option<T>)
    requires
        pre.textures_valid(),
        pre.can_be_asked(key.kind, size),
        pre.inserts(post, key, size, new_texture, result),
    ensures
        made is Some <==> (forall|i: int|
            0 <= i < slots_of(pre, key.kind).len() && (
            #[trigger] slots_of(pre, key.kind)[i]) is Some ==> answer(
                slots_of(pre, key.kind)[i]->0.allocator,
                size,
            ) is None),
        made matches Some(handle) ==> call_ensures(
            new_texture,
            (
                TextureDescriptor {
                    width: side_for(size.width.0),
                    height: side_for(size.height.0),
                    pixel_format: if key.kind == AtlasTextureKind::Monochrome {
                        PixelFormat::A8Unorm
                    } else {
                        PixelFormat::BGRA8Unorm
                    },
                    usage: TextureUsage::ShaderRead,
                    storage_mode: if pre.is_apple_gpu {
                        StorageMode::Shared
                    } else {
                        StorageMode::Managed
                    },
                },
            ),
            handle,
        ),
        match result {
            Ok(Some(tile)) => {
                &&& post.tiles == pre.tiles.insert(key, tile)
                &&& tile.bounds.size == size
                &&& tile.texture_id.kind == key.kind
                &&& made matches Some(handle) ==> {
                    &&& pre.texture(tile.texture_id) is None
                    &&& post.texture(tile.texture_id) is Some
                    &&& post.texture(tile.texture_id)->0.metal_texture == handle
                }
                &&& made is None ==> {
                    &&& pre.texture(tile.texture_id) is Some
                    &&& post.texture(tile.texture_id) is Some
                    &&& post.texture(tile.texture_id)->0.metal_texture == pre.texture(
                        tile.texture_id,
                    )->0.metal_texture
                }
            },
            Ok(None) => false,
            Err(error) => error is FailedToAllocate && post.tiles == pre.tiles && made is Some,
        },
        post.pending == pre.pending,
        post.active == pre.active,
        post.next_frame == pre.next_frame,
{
    let (mid, made, tile) = choose|mid: AtlasModel<T>, made: Option<T>, tile: Option<AtlasTile>|
        {
            &&& #[trigger] pre.places(mid, key.kind, size, made, tile)
            &&& made matches Some(handle) ==> call_ensures(
                new_texture,
                (spec_texture_descriptor(size, key.kind, pre.is_apple_gpu),),
                handle,
            )
            &&& match tile {
                Some(tile) => {
                    &&& post == (AtlasModel { tiles: mid.tiles.insert(key, tile), ..mid })
                    &&& result == Ok::<_, AtlasError<E>>(Some(tile))
                },
                None => {
                    &&& post == mid
                    &&& result == Err::<Option<AtlasTile>, _>(AtlasError::<E>::FailedToAllocate)
                },
            }
        };
    textures_are_made_only_if_all_refuse(pre, mid, key.kind, size, made, tile);
    match made {
        Some(handle) => {
            let id = a_new_texture_holds_its_tile_alone(pre, mid, key.kind, size, handle, tile);
            assert(post.texture(id) == mid.texture(id));
        },
        None => {
            let i = the_last_texture_that_grants_serves(pre, mid, key.kind, size, tile);
            assert(pre.list(key.kind).slots[i] is Some);
            let id = tile->0.texture_id;
            assert(id.index == i);
            assert(post.texture(id) == mid.texture(id));
        },
    }
    made
}

/// No pixel of a texture belongs to the tiles of two keys, and each belongs to the
/// texture.
pub proof fn no_pixel_has_two_keys<T>(
    model: AtlasModel<T>,
    a: AtlasKey,
    b: AtlasKey,
    x: int,
    y: int,
)
    requires
        model.valid(),
        model.tiles.contains_key(a),
        model.tiles.contains_key(b),
        a != b,
        model.tiles[a].texture_id == model.tiles[b].texture_id,
    ensures
        ({
            let (p, q) = (model.tiles[a].bounds, model.tiles[b].bounds);
            !(p.origin.x.0 <= x < p.origin.x.0 + p.size.width.0 && p.origin.y.0 <= y
                < p.origin.y.0 + p.size.height.0 && q.origin.x.0 <= x < q.origin.x.0
                + q.size.width.0 && q.origin.y.0 <= y < q.origin.y.0 + q.size.height.0)
        }),
{
    tiles_do_not_overlap(model, a, b);
}

/// What is uploaded for a key that has a tile fills the tile: each texel of it
/// gets the pixel of its row and column, a byte for glyphs and four for images,
/// and no other texel is written.
pub proof fn uploads_fill_their_tile<T>(model: AtlasModel<T>, key: AtlasKey, x: int, y: int)
    requires
        model.valid(),
        model.tiles.contains_key(key),
    ensures
        ({
            let bounds = model.tiles[key].bounds;
            let texture = model.texture(model.tiles[key].texture_id)->0;
            let upload = spec_upload(bounds, texture.pixel_format);
            let bytes_per_pixel: int = if key.kind == AtlasTextureKind::Monochrome {
                1
            } else {
                4
            };
            let column = x - bounds.origin.x.0;
            let row = y - bounds.origin.y.0;
            let is_written = upload.x <= x < upload.x + upload.width && upload.y <= y < upload.y
                + upload.height;
            &&& is_written <==> 0 <= column < bounds.size.width.0 && 0 <= row
                < bounds.size.height.0
            &&& is_written ==> (y - upload.y) * upload.bytes_per_row + (x - upload.x)
                * bytes_per_pixel == (row * bounds.size.width.0 + column) * bytes_per_pixel
            &&& is_written ==> 0 <= x < extent(texture.allocator).width.0 && 0 <= y < extent(
                texture.allocator,
            ).height.0
            &&& upload.mipmap_level == 0
        }),
{
    let id = model.tiles[key].texture_id;
    every_tile_lies_in_its_texture(model, key);
    textures_have_the_format_of_their_kind(model, id);
    each_texel_gets_its_pixel(
        model.tiles[key].bounds,
        model.texture(id)->0.pixel_format,
        x,
        y,
    );
}

/// A removal touches the texture of the tile and no other. If the texture stays,
/// it keeps its handle and everything but the room of the tile: while no frame is
/// active the room is given back at once, and else it waits, which counts.
pub proof fn removal_changes_the_room_of_one_tile<T>(
    pre: AtlasModel<T>,
    post: AtlasModel<T>,
    key: AtlasKey,
)
    requires
        pre.valid(),
        pre.tiles.contains_key(key),
        pre.removes(post, key),
    ensures
        forall|other: AtlasTextureId|
            other != pre.tiles[key].texture_id ==> #[trigger] post.texture(other) == pre.texture(
                other,
            ),
        ({
            let id = pre.tiles[key].texture_id;
            let tile_id = pre.tiles[key].tile_id;
            let before = pre.texture(id)->0;
            match post.texture(id) {
                Some(after) => {
                    &&& after.metal_texture == before.metal_texture
                    &&& after.pixel_format == before.pixel_format
                    &&& after.live_atlas_keys == before.live_atlas_keys - 1
                    &&& (forall|frame: u64| !(#[trigger] pre.active.contains(frame))) ==> {
                        &&& after.rectangles() == before.rectangles().remove(tile_id)
                        &&& after.retired == before.retired
                        &&& post.pending == pre.pending
                    }
                    &&& (exists|frame: u64| #[trigger] pre.active.contains(frame)) ==> {
                        &&& after.rectangles() == before.rectangles()
                        &&& after.retired.len() == before.retired.len() + 1
                        &&& after.retired.drop_last() == before.retired
                        &&& after.retired.last().1 == tile_id
                        &&& pre.active.contains(after.retired.last().0)
                        &&& forall|frame: u64| #[trigger]
                            pre.active.contains(frame) ==> frame <= after.retired.last().0
                        &&& post.pending == pre.pending + 1
                    }
                },
                None => post.pending == pre.pending - before.retired.len(),
            }
        }),
        post.active == pre.active,
        post.next_frame == pre.next_frame,
        post.is_apple_gpu == pre.is_apple_gpu,
{
    let id = pre.tiles[key].texture_id;
    assert(pre.tile_valid(key));
    lemma_removal_changes_one_texture(pre, post, key);
    let slots = pre.list(id.kind).slots;
    lemma_total_retired_update(slots, id.index as int, None);
    assert(slots[id.index as int] is Some);
    if exists|frame: u64| #[trigger] pre.active.contains(frame) {
        let frame = choose|frame: u64| #[trigger] pre.active.contains(frame);
        assert forall|other: u64| #[trigger] pre.active.contains(other) implies other <= newest(
            pre.active,
        )->0 by {
            newest_is_not_older(pre.active, other);
        }
        newest_is_not_older(pre.active, frame);
        if post.texture(id) is Some {
            let after = post.texture(id)->0;
            let before = pre.texture(id)->0;
            assert(after.retired.drop_last() =~= before.retired);
        }
    }
}

/// A frame that is complete is no longer active, and else nothing changes but
/// room that is given back: every texture stays, with its handle and its keys.
pub proof fn completion_ends_one_frame<T>(
    pre: AtlasModel<T>,
    post: AtlasModel<T>,
    serial: u64,
    id: AtlasTextureId,
)
    requires
        pre.valid(),
        pre.completes(post, serial),
    ensures
        forall|frame: u64| #[trigger]
            post.active.contains(frame) <==> pre.active.contains(frame) && frame != serial,
        post.next_frame == pre.next_frame,
        post.tiles == pre.tiles,
        post.is_apple_gpu == pre.is_apple_gpu,
        post.texture(id) is Some <==> pre.texture(id) is Some,
        post.texture(id) matches Some(after) ==> {
            let before = pre.texture(id)->0;
            &&& after.metal_texture == before.metal_texture
            &&& after.pixel_format == before.pixel_format
            &&& after.live_atlas_keys == before.live_atlas_keys
            &&& forall|t: TileId| #[trigger]
                after.rectangles().contains_key(t) ==> before.rectangles().contains_key(t)
                    && after.rectangles()[t] == before.rectangles()[t]
        },
        post.monochrome.free == pre.monochrome.free,
        post.polychrome.free == pre.polychrome.free,
{
    let first = oldest(post.active);
    if id.kind != AtlasTextureKind::Subpixel {
        let list = pre.list(id.kind);
        assert(list.releases(post.list(id.kind), first));
        if 0 <= id.index < list.slots.len() {
            assert(list.slots[id.index as int] is Some || list.slots[id.index as int] is None);
        }
    }
}

/// A frame that begins is active under the next serial number, and nothing else
/// changes.
pub proof fn a_frame_begins_under_the_next_number<T>(pre: AtlasModel<T>, post: AtlasModel<T>)
    requires
        pre.next_frame < u64::MAX,
        pre.begins(post),
    ensures
        post.next_frame == pre.next_frame + 1,
        forall|frame: u64| #[trigger]
            post.active.contains(frame) <==> pre.active.contains(frame) || frame
                == pre.next_frame,
        post.tiles == pre.tiles,
        post.monochrome == pre.monochrome,
        post.polychrome == pre.polychrome,
        post.pending == pre.pending,
        post.is_apple_gpu == pre.is_apple_gpu,
{
}

/// A new atlas has no keys, no textures and no frames, and numbers its frames
/// from 0.
pub proof fn a_new_atlas_has_nothing<T>(is_apple_gpu: bool, key: AtlasKey, id: AtlasTextureId)
    ensures
        ({
            let model = AtlasModel::<T>::empty(is_apple_gpu);
            &&& model.is_apple_gpu == is_apple_gpu
            &&& !model.tiles.contains_key(key)
            &&& model.texture(id) is None
            &&& model.monochrome.slots.len() == 0
            &&& model.polychrome.slots.len() == 0
            &&& model.monochrome.free.len() == 0
            &&& model.polychrome.free.len() == 0
            &&& model.next_frame == 0
            &&& forall|frame: u64| !(#[trigger] model.active.contains(frame))
            &&& model.pending == 0
        }),
{
}

/// Tiles of a kind are accepted if it is not subpixel, a slot is free or one more
/// can be numbered, and no bucket of a texture of the kind was used 65535 times.
pub proof fn tiles_are_accepted_while_there_are_numbers<T>(
    model: AtlasModel<T>,
    kind: AtlasTextureKind,
)
    ensures
        ({
            let free = if kind == AtlasTextureKind::Monochrome {
                model.monochrome.free
            } else {
                model.polychrome.free
            };
            model.accepts(kind) <==> {
                &&& kind != AtlasTextureKind::Subpixel
                &&& free.len() > 0 || slots_of(model, kind).len() <= 4294967295
                &&& forall|i: int, bucket: int|
                    0 <= i < slots_of(model, kind).len() && slots_of(model, kind)[i] is Some && 0
                        <= bucket < slots_of(model, kind)[i]->0.placements.len() ==> (
                    #[trigger] slots_of(model, kind)[i]->0.placements[bucket]) < 65535
            }
        }),
{
    let list = model.list(kind);
    assert(list.slots == slots_of(model, kind));
    if list.can_place() {
        assert forall|i: int, bucket: int|
            0 <= i < list.slots.len() && list.slots[i] is Some && 0 <= bucket
                < list.slots[i]->0.placements.len() implies (
        #[trigger] list.slots[i]->0.placements[bucket]) < 65535 by {
            assert(list.slots[i]->0.can_place());
        }
    }
    if forall|i: int, bucket: int|
        0 <= i < list.slots.len() && list.slots[i] is Some && 0 <= bucket
            < list.slots[i]->0.placements.len() ==> (
        #[trigger] list.slots[i]->0.placements[bucket]) < 65535 {
        assert forall|i: int| list.has_texture(i) implies (
        #[trigger] list.slots[i])->0.can_place() by {
            let counts = list.slots[i]->0.placements;
            assert forall|bucket: int| 0 <= bucket < counts.len() implies #[trigger] counts[bucket]
                < u16::MAX by {
                assert(list.slots[i]->0.placements[bucket] < 65535);
            }
        }
    }
}

/// What waits in the textures is added up slot by slot.
pub proof fn what_waits_is_added_up<T>(
    slots: Seq<Option<TextureModel<T>>>,
    slot: Option<TextureModel<T>>,
)
    ensures
        total_retired(Seq::<Option<TextureModel<T>>>::empty()) == 0,
        slot is None ==> total_retired(slots.push(slot)) == total_retired(slots),
        slot is Some ==> total_retired(slots.push(slot)) == total_retired(slots)
            + slot->0.retired.len(),
{
    lemma_total_retired_push(slots, slot);
}

/// The oldest active frame is active and none is older; there is none just if no
/// frame is active.
pub proof fn the_oldest_frame_is_active(active: Set<u64>, frame: u64)
    requires
        active.contains(frame),
    ensures
        oldest(active) is Some,
        active.contains(oldest(active)->0),
        oldest(active)->0 <= frame,
{
    lemma_has_least(active, frame);
    assert(is_least(active, oldest(active)->0));
}

/// What was retired after a frame waits just if the oldest active frame is no
/// newer.
pub proof fn only_older_frames_are_waited_for(first_active: Option<u64>, serial: u64)
    ensures
        must_wait(first_active, serial) <==> (first_active is Some && first_active->0 <= serial),
{
}

/// What kind of GPU an atlas is for does not change.
pub proof fn the_gpu_stays_the_same<T>(
    pre: AtlasModel<T>,
    post: AtlasModel<T>,
    operation: Operation,
)
    requires
        performs(pre, post, operation),
    ensures
        post.is_apple_gpu == pre.is_apple_gpu,
{
    if let Operation::Insert(key) = operation {
        if post != pre {
            let (mid, size, made, tile) = choose|
                mid: AtlasModel<T>,
                size: Size,
                made: Option<T>,
                tile: Option<AtlasTile>,
            | #[trigger]
                stores_with(pre, mid, post, key, size, made, tile);
            assert(mid.is_apple_gpu == pre.is_apple_gpu);
        }
    }
}

} // verus!
