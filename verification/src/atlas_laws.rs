//! What the atlas promises beyond single operations.
use vstd::prelude::*;

use crate::allocator::extent;
use crate::atlas_model::{covers, AtlasModel};
use crate::atlas_types::{AtlasKey, AtlasTextureId, AtlasTextureKind, AtlasTile, TileId};
use crate::frames::{must_wait, oldest, waiting_for_the_oldest_is_enough, waits_for};
use crate::geometry::Size;
use crate::metal_atlas::AtlasError;
use crate::texture::{released_ids, spec_texture_size, TextureDescriptor, TextureModel};
use crate::texture_list::{total_retired, ListModel};

verus! {

/// The tile of every key lies in a texture that exists, and within its surface.
pub proof fn every_tile_lies_in_its_texture<T>(model: AtlasModel<T>, key: AtlasKey)
    requires
        model.valid(),
        model.tiles.contains_key(key),
    ensures
        model.texture(model.tiles[key].texture_id) is Some,
        model.tiles[key].texture_id.kind == key.kind,
        ({
            let bounds = model.tiles[key].bounds;
            let surface = extent(model.texture(model.tiles[key].texture_id)->0.allocator);
            &&& bounds.size.covers_pixels()
            &&& 0 <= bounds.origin.x.0
            &&& 0 <= bounds.origin.y.0
            &&& bounds.origin.x.0 + bounds.size.width.0 <= surface.width.0
            &&& bounds.origin.y.0 + bounds.size.height.0 <= surface.height.0
        }),
{
    assert(model.tile_valid(key));
    let id = model.tiles[key].texture_id;
    assert(model.list(id.kind).slots[id.index as int] is Some);
}

/// The tiles of two keys share no pixel.
pub proof fn tiles_do_not_overlap<T>(model: AtlasModel<T>, a: AtlasKey, b: AtlasKey)
    requires
        model.valid(),
        model.tiles.contains_key(a),
        model.tiles.contains_key(b),
        a != b,
        model.tiles[a].texture_id == model.tiles[b].texture_id,
    ensures
        model.tiles[a].bounds.disjoint(model.tiles[b].bounds),
{
    assert(model.tile_valid(a));
    assert(model.tile_valid(b));
    let id = model.tiles[a].texture_id;
    assert(model.list(id.kind).slots[id.index as int] is Some);
}

/// No tile of a key shares a pixel with an allocation that waits for the GPU.
pub proof fn waiting_pixels_are_not_reused<T>(model: AtlasModel<T>, key: AtlasKey, i: int)
    requires
        model.valid(),
        model.tiles.contains_key(key),
        0 <= i < model.texture(model.tiles[key].texture_id)->0.retired.len(),
    ensures
        ({
            let texture = model.texture(model.tiles[key].texture_id)->0;
            &&& texture.rectangles().contains_key(texture.retired[i].1)
            &&& texture.rectangles().contains_key(model.tiles[key].tile_id)
            &&& texture.rectangles()[texture.retired[i].1].disjoint(
                texture.rectangles()[model.tiles[key].tile_id],
            )
            &&& covers(texture.rectangles()[model.tiles[key].tile_id], model.tiles[key].bounds)
        }),
{
    assert(model.tile_valid(key));
    let id = model.tiles[key].texture_id;
    assert(model.list(id.kind).slots[id.index as int] is Some);
    let texture = model.texture(id)->0;
    assert(texture.rectangles().contains_key(texture.retired[i].1));
}

/// While no frame is active, nothing waits.
pub proof fn nothing_waits_without_frames<T>(model: AtlasModel<T>)
    requires
        model.valid(),
        model.active.is_empty(),
    ensures
        model.pending == 0,
        forall|id: AtlasTextureId| (#[trigger] model.texture(id)) is Some ==> model.texture(
            id,
        )->0.retired.len() == 0,
{
    lemma_list_does_not_wait(model.monochrome, model.active);
    lemma_list_does_not_wait(model.polychrome, model.active);
}

proof fn lemma_list_does_not_wait<T>(list: ListModel<T>, active: Set<u64>)
    requires
        list.retired_wait(active),
        active.is_empty(),
    ensures
        total_retired(list.slots) == 0,
        forall|i: int| list.has_texture(i) ==> (#[trigger] list.slots[i])->0.retired.len() == 0,
    decreases list.slots.len(),
{
    assert forall|i: int| list.has_texture(i) implies (#[trigger] list.slots[i])->0.retired.len()
        == 0 by {
        if list.slots[i]->0.retired.len() > 0 {
            assert(waits_for(active, list.slots[i]->0.retired[0].0));
        }
    }
    if list.slots.len() > 0 {
        let rest = ListModel { slots: list.slots.drop_last(), free: list.free };
        assert forall|i: int, j: int|
            0 <= i < rest.slots.len() && rest.slots[i] is Some && 0 <= j
                < rest.slots[i]->0.retired.len() implies waits_for(
            active,
            (#[trigger] rest.slots[i]->0.retired[j]).0,
        ) by {
            assert(waits_for(active, list.slots[i]->0.retired[j].0));
        }
        lemma_list_does_not_wait(rest, active);
        assert(list.slots[list.slots.len() - 1] is Some
            ==> list.slots[list.slots.len() - 1]->0.retired.len() == 0);
    }
}

/// A removed key has no tile, every other key keeps its tile, and no frame begins
/// or completes. To remove a key that has no tile changes nothing.
pub proof fn removal_takes_one_key<T>(
    pre: AtlasModel<T>,
    post: AtlasModel<T>,
    key: AtlasKey,
    other: AtlasKey,
)
    requires
        pre.valid(),
        pre.removes(post, key),
    ensures
        !post.tiles.contains_key(key),
        other != key ==> post.tiles.contains_key(other) == pre.tiles.contains_key(other),
        other != key && pre.tiles.contains_key(other) ==> post.tiles[other] == pre.tiles[other],
        post.active == pre.active,
        post.next_frame == pre.next_frame,
        !pre.tiles.contains_key(key) ==> post == pre,
{
}

/// To remove a key again changes nothing.
pub proof fn removing_twice_is_removing_once<T>(
    pre: AtlasModel<T>,
    mid: AtlasModel<T>,
    post: AtlasModel<T>,
    key: AtlasKey,
)
    requires
        pre.valid(),
        pre.removes(mid, key),
        mid.removes(post, key),
    ensures
        post == mid,
{
}

/// A key that was inserted is found under its tile, and every other key keeps its tile.
pub proof fn insertion_adds_one_key<T, E, C: FnOnce(TextureDescriptor) -> T>(
    pre: AtlasModel<T>,
    post: AtlasModel<T>,
    key: AtlasKey,
    size: Size,
    new_texture: C,
    tile: AtlasTile,
)
    requires
        pre.inserts(post, key, size, new_texture, Ok::<_, AtlasError<E>>(Some(tile))),
    ensures
        post.tiles == pre.tiles.insert(key, tile),
        tile.bounds.size == size,
        tile.padding == 0,
{
}

/// A failed insertion leaves every key its tile.
pub proof fn failed_insertion_keeps_tiles<T, E, C: FnOnce(TextureDescriptor) -> T>(
    pre: AtlasModel<T>,
    post: AtlasModel<T>,
    key: AtlasKey,
    size: Size,
    new_texture: C,
    error: AtlasError<E>,
)
    requires
        pre.inserts(post, key, size, new_texture, Err::<Option<AtlasTile>, _>(error)),
    ensures
        post.tiles == pre.tiles,
        error is FailedToAllocate,
{
}

/// A texture goes when its last key is removed, and only then; its slot is the
/// next to be used.
pub proof fn texture_goes_with_its_last_key<T>(
    pre: AtlasModel<T>,
    post: AtlasModel<T>,
    key: AtlasKey,
)
    requires
        pre.valid(),
        pre.tiles.contains_key(key),
        pre.removes(post, key),
    ensures
        post.texture(pre.tiles[key].texture_id) is None <==> (forall|other: AtlasKey|
            other != key && #[trigger] pre.tiles.contains_key(other) ==> pre.tiles[other].texture_id
                != pre.tiles[key].texture_id),
        post.texture(pre.tiles[key].texture_id) is None ==> post.list(
            pre.tiles[key].texture_id.kind,
        ).next_slot() == pre.tiles[key].texture_id.index,
{
    let id = pre.tiles[key].texture_id;
    assert(pre.tile_valid(key));
    let keys = pre.keys_on(id);
    assert(keys.contains(key));
    assert(keys.remove(key).len() == keys.len() - 1);
    if keys.len() == 1 {
        assert forall|other: AtlasKey|
            other != key && #[trigger] pre.tiles.contains_key(other) implies pre.tiles[other].texture_id
            != id by {
            if pre.tiles[other].texture_id == id {
                assert(keys.remove(key).contains(other));
            }
        }
    } else {
        let other = keys.remove(key).choose();
        assert(keys.remove(key).contains(other));
        assert(pre.tiles.contains_key(other));
    }
}

/// A texture that was made for a tile has nothing that waits, whatever waited
/// in the texture that had its slot before, and no other tile.
pub proof fn retirement_does_not_follow_the_slot<T>(
    pre: AtlasModel<T>,
    post: AtlasModel<T>,
    kind: AtlasTextureKind,
    size: Size,
    metal_texture: T,
    tile: AtlasTile,
)
    requires
        pre.valid(),
        pre.places(post, kind, size, Some(metal_texture), Some(tile)),
        kind != AtlasTextureKind::Subpixel,
        pre.list(kind).has_room(),
    ensures
        pre.texture(tile.texture_id) is None,
        post.texture(tile.texture_id) is Some,
        post.texture(tile.texture_id)->0.metal_texture == metal_texture,
        post.texture(tile.texture_id)->0.retired.len() == 0,
        post.texture(tile.texture_id)->0.live_atlas_keys == 1,
        tile.texture_id == (AtlasTextureId { index: pre.list(kind).next_slot() as u32, kind }),
{
    let list = pre.list(kind);
    let id = AtlasTextureId { index: list.next_slot() as u32, kind };
    if list.free.len() > 0 {
        assert(list.free[list.free.len() - 1] == list.next_slot());
    }
    let fresh = choose|fresh: TextureModel<T>|
        {
            &&& fresh.is_fresh(id, spec_texture_size(size), metal_texture)
            &&& #[trigger] list.serves_with(post.list(kind), fresh, size, Some(tile))
        };
    let texture = choose|texture: TextureModel<T>| #[trigger]
        list.adds_and_grants(post.list(kind), fresh, texture, size, Some(tile));
    assert(post.texture(id) == Some(texture));
}

/// An allocation that was retired while frames were active stays taken for as
/// long as a frame is active that is no newer than the newest of them was, and
/// no longer.
pub proof fn retired_room_waits_for_older_frames_only<T>(
    pre: AtlasModel<T>,
    post: AtlasModel<T>,
    serial: u64,
    id: AtlasTextureId,
    i: int,
)
    requires
        pre.valid(),
        pre.completes(post, serial),
        pre.texture(id) is Some,
        0 <= i < pre.texture(id)->0.retired.len(),
    ensures
        post.texture(id) is Some,
        post.texture(id)->0.rectangles().contains_key(pre.texture(id)->0.retired[i].1)
            <==> waits_for(post.active, pre.texture(id)->0.retired[i].0),
{
    let before = pre.texture(id)->0;
    let entry = before.retired[i];
    let first = oldest(post.active);
    assert(pre.list(id.kind).slots[id.index as int] is Some);
    assert(pre.list(id.kind).releases(post.list(id.kind), first));
    let after = post.texture(id)->0;
    waiting_for_the_oldest_is_enough(post.active, entry.0);
    assert(before.rectangles().contains_key(entry.1));
    assert(released_ids(before.retired, first).contains(entry.1) == !must_wait(first, entry.0)) by {
        if released_ids(before.retired, first).contains(entry.1) {
            let j = choose|j: int|
                0 <= j < before.retired.len() && (#[trigger] before.retired[j]).1 == entry.1
                    && !must_wait(first, before.retired[j].0);
            if j < i {
                assert(before.retired[j].1 != before.retired[i].1);
            } else if i < j {
                assert(before.retired[i].1 != before.retired[j].1);
            }
        }
    }
}

/// True if the pixels of an allocation may be sampled by a frame: a key has it,
/// or it waits for that frame or a newer one.
pub open spec fn holds<T>(
    model: AtlasModel<T>,
    id: AtlasTextureId,
    tile_id: TileId,
    frame: u64,
) -> bool {
    &&& model.texture(id) is Some
    &&& ({
        ||| exists|key: AtlasKey| #[trigger] has_tile(model, key, id, tile_id)
        ||| exists|i: int| #[trigger] waits_since(model, i, id, tile_id, frame)
    })
}

/// True if a key has the allocation.
pub open spec fn has_tile<T>(
    model: AtlasModel<T>,
    key: AtlasKey,
    id: AtlasTextureId,
    tile_id: TileId,
) -> bool {
    &&& model.tiles.contains_key(key)
    &&& model.tiles[key].texture_id == id
    &&& model.tiles[key].tile_id == tile_id
}

/// True if the allocation is the one that waits at position `i`, for `frame` or a newer one.
pub open spec fn waits_since<T>(
    model: AtlasModel<T>,
    i: int,
    id: AtlasTextureId,
    tile_id: TileId,
    frame: u64,
) -> bool {
    &&& 0 <= i < model.texture(id)->0.retired.len()
    &&& model.texture(id)->0.retired[i].1 == tile_id
    &&& frame <= model.texture(id)->0.retired[i].0
}

/// An allocation that a frame may sample is taken, so nothing is placed over it.
pub proof fn held_pixels_are_taken<T>(
    model: AtlasModel<T>,
    id: AtlasTextureId,
    tile_id: TileId,
    frame: u64,
)
    requires
        model.valid(),
        holds(model, id, tile_id, frame),
    ensures
        model.texture(id)->0.rectangles().contains_key(tile_id),
{
    assert(model.list(id.kind).slots[id.index as int] is Some);
    if exists|key: AtlasKey| #[trigger] has_tile(model, key, id, tile_id) {
        let key = choose|key: AtlasKey| #[trigger] has_tile(model, key, id, tile_id);
        assert(model.tile_valid(key));
    } else {
        let i = choose|i: int| #[trigger] waits_since(model, i, id, tile_id, frame);
        assert(model.texture(id)->0.rectangles().contains_key(
            model.texture(id)->0.retired[i].1,
        ));
    }
}

/// Removing keys while a frame is active gives back nothing that the frame may
/// sample, unless the whole texture goes.
pub proof fn removal_keeps_pixels_in_flight<T>(
    pre: AtlasModel<T>,
    post: AtlasModel<T>,
    key: AtlasKey,
    id: AtlasTextureId,
    tile_id: TileId,
    frame: u64,
)
    requires
        pre.valid(),
        pre.removes(post, key),
        pre.active.contains(frame),
        holds(pre, id, tile_id, frame),
    ensures
        post.texture(id) is Some ==> {
            &&& holds(post, id, tile_id, frame)
            &&& post.texture(id)->0.metal_texture == pre.texture(id)->0.metal_texture
        },
        post.texture(id) is None ==> pre.tiles.contains_key(key) && pre.tiles[key].texture_id == id,
{
    if pre.tiles.contains_key(key) {
        assert(pre.tile_valid(key));
        let removed = pre.tiles[key];
        crate::frames::newest_is_not_older(pre.active, frame);
        if exists|k: AtlasKey| #[trigger] has_tile(pre, k, id, tile_id) {
            let k = choose|k: AtlasKey| #[trigger] has_tile(pre, k, id, tile_id);
            if k != key {
                assert(has_tile(post, k, id, tile_id));
            } else if post.texture(id) is Some {
                let last = pre.texture(id)->0.retired.len() as int;
                assert(waits_since(post, last, id, tile_id, frame));
            }
        } else {
            let i = choose|i: int| #[trigger] waits_since(pre, i, id, tile_id, frame);
            if post.texture(id) is Some {
                if removed.texture_id == id {
                    assert(post.texture(id)->0.retired[i] == pre.texture(id)->0.retired[i]);
                } else {
                    assert(post.texture(id) == pre.texture(id));
                }
                assert(waits_since(post, i, id, tile_id, frame));
            }
        }
    }
}

/// Completing another frame gives back nothing that an active frame may sample.
pub proof fn completion_keeps_pixels_in_flight<T>(
    pre: AtlasModel<T>,
    post: AtlasModel<T>,
    serial: u64,
    id: AtlasTextureId,
    tile_id: TileId,
    frame: u64,
)
    requires
        pre.valid(),
        pre.completes(post, serial),
        pre.active.contains(frame),
        serial != frame,
        holds(pre, id, tile_id, frame),
    ensures
        holds(post, id, tile_id, frame),
        post.texture(id)->0.metal_texture == pre.texture(id)->0.metal_texture,
{
    let before = pre.texture(id)->0;
    let first = oldest(post.active);
    assert(pre.list(id.kind).slots[id.index as int] is Some);
    assert(pre.list(id.kind).releases(post.list(id.kind), first));
    let after = post.texture(id)->0;
    if exists|key: AtlasKey| #[trigger] has_tile(pre, key, id, tile_id) {
        let key = choose|key: AtlasKey| #[trigger] has_tile(pre, key, id, tile_id);
        assert(has_tile(post, key, id, tile_id));
    } else {
        let i = choose|i: int| #[trigger] waits_since(pre, i, id, tile_id, frame);
        let entry = before.retired[i];
        let keeps = |entry: (u64, TileId)| must_wait(first, entry.0);
        assert(post.active.contains(frame));
        waiting_for_the_oldest_is_enough(post.active, entry.0);
        assert(keeps(before.retired[i]));
        before.retired.lemma_filter_contains(keeps, i);
        let j = choose|j: int| 0 <= j < after.retired.len() && after.retired[j] == entry;
        assert(waits_since(post, j, id, tile_id, frame));
    }
}

/// Placing a tile takes no pixel that a frame may sample.
pub proof fn insertion_keeps_pixels_in_flight<T, E, C: FnOnce(TextureDescriptor) -> T>(
    pre: AtlasModel<T>,
    post: AtlasModel<T>,
    key: AtlasKey,
    size: Size,
    new_texture: C,
    result: Result<Option<AtlasTile>, AtlasError<E>>,
    id: AtlasTextureId,
    tile_id: TileId,
    frame: u64,
)
    requires
        pre.valid(),
        post.valid(),
        !pre.tiles.contains_key(key),
        key.kind != AtlasTextureKind::Subpixel,
        pre.inserts(post, key, size, new_texture, result),
        holds(pre, id, tile_id, frame),
    ensures
        holds(post, id, tile_id, frame),
        post.texture(id)->0.metal_texture == pre.texture(id)->0.metal_texture,
        result matches Ok(Some(tile)) ==> (tile.texture_id == id ==> {
            let rectangles = post.texture(id)->0.rectangles();
            &&& tile.tile_id != tile_id
            &&& covers(rectangles[tile.tile_id], tile.bounds)
            &&& rectangles[tile_id] == pre.texture(id)->0.rectangles()[tile_id]
            &&& rectangles[tile.tile_id].disjoint(rectangles[tile_id])
        }),
{
    let (mid, made, tile) = choose|mid: AtlasModel<T>, made: Option<T>, tile: Option<AtlasTile>|
        {
            &&& #[trigger] pre.places(mid, key.kind, size, made, tile)
            &&& made matches Some(handle) ==> call_ensures(
                new_texture,
                (crate::texture::spec_texture_descriptor(size, key.kind, pre.is_apple_gpu),),
                handle,
            )
            &&& match tile {
                Some(tile) => {
                    &&& post == (AtlasModel { tiles: mid.tiles.insert(key, tile), ..mid })
                    &&& result == Ok::<_, AtlasError<E>>(Some(tile))
                },
                None => {
                    &&& post == mid
                    &&& result == Err::<Option<AtlasTile>, _>(AtlasError::<E>::FailedToAllocate)
                },
            }
        };
    lemma_placing_keeps_textures(pre, mid, key.kind, size, made, tile, id);
    held_pixels_are_taken(pre, id, tile_id, frame);
    if exists|k: AtlasKey| #[trigger] has_tile(pre, k, id, tile_id) {
        let k = choose|k: AtlasKey| #[trigger] has_tile(pre, k, id, tile_id);
        assert(has_tile(post, k, id, tile_id));
    } else {
        let i = choose|i: int| #[trigger] waits_since(pre, i, id, tile_id, frame);
        assert(waits_since(post, i, id, tile_id, frame));
    }
    if tile is Some {
        assert(post.tiles.contains_key(key));
        assert(post.tile_valid(key));
        assert(post.list(id.kind).slots[id.index as int] is Some);
    }
}

/// Placing a tile leaves every texture that exists its handle, its rectangles
/// and what waits; the tile's own allocation is new.
pub(crate) proof fn lemma_placing_keeps_textures<T>(
    pre: AtlasModel<T>,
    mid: AtlasModel<T>,
    kind: AtlasTextureKind,
    size: Size,
    made: Option<T>,
    tile: Option<AtlasTile>,
    id: AtlasTextureId,
)
    requires
        pre.valid(),
        kind != AtlasTextureKind::Subpixel,
        pre.places(mid, kind, size, made, tile),
        mid.list(kind).slots.len() <= u32::MAX + 1,
        pre.texture(id) is Some,
    ensures
        mid.tiles == pre.tiles,
        mid.texture(id) is Some,
        mid.texture(id)->0.metal_texture == pre.texture(id)->0.metal_texture,
        mid.texture(id)->0.retired == pre.texture(id)->0.retired,
        pre.texture(id)->0.rectangles().submap_of(mid.texture(id)->0.rectangles()),
        tile matches Some(tile) ==> (tile.texture_id == id ==> !pre.texture(
            id,
        )->0.rectangles().contains_key(tile.tile_id)),
{
    let list = pre.list(kind);
    match made {
        None => {
            let (i, texture) = choose|i: int, texture: TextureModel<T>|
                list.is_last_fit(i, size) && #[trigger] list.grants_at(
                    mid.list(kind),
                    i,
                    texture,
                    size,
                    tile,
                );
            assert(list.slots[i] is Some);
        },
        Some(metal_texture) => {
            if list.free.len() > 0 {
                assert(list.free[list.free.len() - 1] == list.next_slot());
            }
            let slot = list.next_slot();
            let fresh = choose|fresh: TextureModel<T>|
                {
                    &&& fresh.is_fresh(
                        AtlasTextureId { index: slot as u32, kind },
                        spec_texture_size(size),
                        metal_texture,
                    )
                    &&& #[trigger] list.serves_with(mid.list(kind), fresh, size, tile)
                };
            assert(id.kind == kind ==> id.index as int != slot);
            if tile is Some {
                let texture = choose|texture: TextureModel<T>| #[trigger]
                    list.adds_and_grants(mid.list(kind), fresh, texture, size, tile);
                assert(mid.texture(id) == pre.texture(id));
            } else {
                assert(mid.texture(id) == pre.texture(id));
            }
        },
    }
}

/// Every allocation of a texture is held by a key or waits: no room is lost.
pub proof fn no_room_is_lost<T>(model: AtlasModel<T>, id: AtlasTextureId, tile_id: TileId)
    requires
        model.valid(),
        model.texture(id) is Some,
        model.texture(id)->0.rectangles().contains_key(tile_id),
    ensures
        (exists|key: AtlasKey| #[trigger] has_tile(model, key, id, tile_id)) || (exists|i: int|
            0 <= i < model.texture(id)->0.retired.len() && (
            #[trigger] model.texture(id)->0.retired[i]).1 == tile_id),
{
    let texture = model.texture(id)->0;
    assert(model.list(id.kind).slots[id.index as int] is Some);
    let taken = texture.rectangles().dom();
    let keys = model.keys_on(id);
    let name = |key: AtlasKey| model.tiles[key].tile_id;
    let held = keys.map(name);
    assert(vstd::relations::injective_on(name, keys)) by {
        assert forall|a: AtlasKey, b: AtlasKey|
            keys.contains(a) && keys.contains(b) && #[trigger] name(a) == #[trigger] name(
                b,
            ) implies a == b by {
            assert(model.tiles.contains_key(a) && model.tiles.contains_key(b));
        }
    }
    vstd::set_lib::lemma_map_size(keys, held, name);
    let names = texture.retired.map_values(|entry: (u64, TileId)| entry.1);
    let waiting = names.to_set();
    assert(names.no_duplicates()) by {
        assert forall|i: int, j: int|
            0 <= i < names.len() && 0 <= j < names.len() && i != j implies names[i] != names[j] by {
            if i < j {
                assert(texture.retired[i].1 != texture.retired[j].1);
            } else {
                assert(texture.retired[j].1 != texture.retired[i].1);
            }
        }
    }
    names.unique_seq_to_set();
    vstd::seq_lib::seq_to_set_is_finite(names);
    assert(held.disjoint(waiting)) by {
        assert forall|t: TileId| held.contains(t) implies !waiting.contains(t) by {
            let key = choose|key: AtlasKey| keys.contains(key) && t == name(key);
            assert(model.tiles.contains_key(key) && model.tile_valid(key));
            if waiting.contains(t) {
                let i = choose|i: int| 0 <= i < names.len() && names[i] == t;
                assert(texture.retired[i].1 != t);
            }
        }
    }
    vstd::set_lib::lemma_set_disjoint_lens(held, waiting);
    let all = held + waiting;
    assert(all.subset_of(taken)) by {
        assert forall|t: TileId| all.contains(t) implies taken.contains(t) by {
            if held.contains(t) {
                let key = choose|key: AtlasKey| keys.contains(key) && t == name(key);
                assert(model.tiles.contains_key(key) && model.tile_valid(key));
            } else {
                let i = choose|i: int| 0 <= i < names.len() && names[i] == t;
                assert(texture.rectangles().contains_key(texture.retired[i].1));
            }
        }
    }
    vstd::set_lib::lemma_subset_equality(all, taken);
    if held.contains(tile_id) {
        let key = choose|key: AtlasKey| keys.contains(key) && tile_id == name(key);
        assert(has_tile(model, key, id, tile_id));
    } else {
        assert(waiting.contains(tile_id));
        let i = choose|i: int| 0 <= i < names.len() && names[i] == tile_id;
        assert(texture.retired[i].1 == tile_id);
    }
}

} // verus!
