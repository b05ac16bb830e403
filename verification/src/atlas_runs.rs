//! What the atlas promises over any number of operations.
use vstd::prelude::*;

use crate::allocator::answer;
use crate::atlas_laws::{
    completion_keeps_pixels_in_flight, has_tile, held_pixels_are_taken, holds,
    lemma_placing_keeps_textures, removal_keeps_pixels_in_flight, waits_since,
};
use crate::atlas_model::{
    covers, lemma_added_texture_keeps_counts, lemma_begun_is_valid, lemma_completed_is_valid,
    lemma_fresh_is_well_formed, lemma_granted_tile_keeps_counts, lemma_placed_is_valid,
    lemma_removal_changes_one_texture, lemma_removed_is_valid, AtlasModel,
};
use crate::atlas_types::{AtlasKey, AtlasTextureId, AtlasTextureKind, AtlasTile, TileId};
use crate::frames::{
    must_wait, newest, newest_is_not_older, oldest, waiting_for_the_oldest_is_enough, waits_for,
};
use crate::geometry::Size;
use crate::texture::{
    lemma_granted_is_well_formed, lemma_released_is_well_formed, released_ids, spec_texture_size,
    TextureModel,
};
use crate::texture_list::{
    can_be_placed, lemma_emptied_slot_keeps_order, lemma_given_up_keeps_order,
    lemma_new_texture_keeps_order, lemma_update_keeps_order, total_retired, ListModel,
};

verus! {

/// What can be done with an atlas.
pub enum Operation {
    /// Asks for the tile of a key, or puts one under it.
    Insert(AtlasKey),
    /// Drops the tile of a key.
    Remove(AtlasKey),
    /// Begins a frame.
    Begin,
    /// Completes a frame.
    Complete(u64),
}

/// True if the atlas became `post` when some pixels were to be kept under a key
/// that it did not have.
pub open spec fn stores<T>(pre: AtlasModel<T>, post: AtlasModel<T>, key: AtlasKey) -> bool {
    exists|mid: AtlasModel<T>, size: Size, made: Option<T>, tile: Option<AtlasTile>| #[trigger]
        stores_with(pre, mid, post, key, size, made, tile)
}

/// True if the atlas became `mid` when it placed a tile, and then `post` when the
/// tile, if there is one, was put under the key.
pub open spec fn stores_with<T>(
    pre: AtlasModel<T>,
    mid: AtlasModel<T>,
    post: AtlasModel<T>,
    key: AtlasKey,
    size: Size,
    made: Option<T>,
    tile: Option<AtlasTile>,
) -> bool {
    &&& pre.can_be_asked(key.kind, size)
    &&& pre.places(mid, key.kind, size, made, tile)
    &&& tile is Some <==> can_be_placed(size)
    &&& post == (match tile {
        Some(tile) => AtlasModel { tiles: mid.tiles.insert(key, tile), ..mid },
        None => mid,
    })
}

/// True if the atlas became `post` by an operation. An insertion that makes no
/// pixels, or finds the key, changes nothing.
pub open spec fn performs<T>(
    pre: AtlasModel<T>,
    post: AtlasModel<T>,
    operation: Operation,
) -> bool {
    match operation {
        Operation::Insert(key) => post == pre || (!pre.tiles.contains_key(key) && stores(
            pre,
            post,
            key,
        )),
        Operation::Remove(key) => pre.removes(post, key),
        Operation::Begin => pre.next_frame < u64::MAX && pre.begins(post),
        Operation::Complete(serial) => pre.active.contains(serial) && pre.completes(post, serial),
    }
}

/// True of the states that an atlas went through by a row of operations.
pub open spec fn is_run<T>(models: Seq<AtlasModel<T>>, operations: Seq<Operation>) -> bool {
    &&& models.len() == operations.len() + 1
    &&& forall|i: int|
        0 <= i < operations.len() ==> performs(
            models[i],
            models[i + 1],
            #[trigger] operations[i],
        )
}

/// True if a texture is there in every state.
pub open spec fn stays<T>(models: Seq<AtlasModel<T>>, id: AtlasTextureId) -> bool {
    forall|i: int| 0 <= i < models.len() ==> (#[trigger] models[i]).texture(id) is Some
}

proof fn lemma_stored_is_valid<T>(
    pre: AtlasModel<T>,
    mid: AtlasModel<T>,
    post: AtlasModel<T>,
    key: AtlasKey,
    size: Size,
    made: Option<T>,
    tile: Option<AtlasTile>,
)
    requires
        pre.valid(),
        !pre.tiles.contains_key(key),
        stores_with(pre, mid, post, key, size, made, tile),
    ensures
        mid.textures_valid(),
        post.valid(),
{
    let kind = key.kind;
    let list = pre.list(kind);
    match made {
        None => {
            let (i, texture) = choose|i: int, texture: TextureModel<T>|
                list.is_last_fit(i, size) && #[trigger] list.grants_at(
                    mid.list(kind),
                    i,
                    texture,
                    size,
                    tile,
                );
            let before = list.slots[i]->0;
            assert(list.slots[i] is Some);
            lemma_granted_is_well_formed(
                before,
                texture,
                answer(before.allocator, size)->0,
                size,
            );
            lemma_update_keeps_order(list, i, texture, kind);
            lemma_granted_tile_keeps_counts(pre, mid, kind, i, texture);
        },
        Some(metal_texture) => {
            let id = AtlasTextureId { index: list.next_slot() as u32, kind };
            let fresh = choose|fresh: TextureModel<T>|
                {
                    &&& fresh.is_fresh(id, spec_texture_size(size), metal_texture)
                    &&& #[trigger] list.serves_with(mid.list(kind), fresh, size, tile)
                };
            lemma_fresh_is_well_formed(fresh, id, size, metal_texture);
            if can_be_placed(size) {
                let texture = choose|texture: TextureModel<T>| #[trigger]
                    list.adds_and_grants(mid.list(kind), fresh, texture, size, tile);
                lemma_granted_is_well_formed(
                    fresh,
                    texture,
                    answer(fresh.allocator, size)->0,
                    size,
                );
                lemma_new_texture_keeps_order(list, texture, kind);
                lemma_added_texture_keeps_counts(pre, mid, kind, texture);
            } else {
                lemma_new_texture_keeps_order(list, fresh, kind);
                lemma_added_texture_keeps_counts(pre, mid, kind, fresh);
            }
        },
    }
    lemma_placed_is_valid(pre, mid, key, size, made, tile);
}

proof fn lemma_released_list<T>(
    list: ListModel<T>,
    post: ListModel<T>,
    first_active: Option<u64>,
    kind: AtlasTextureKind,
)
    requires
        list.well_formed(kind),
        list.releases(post, first_active),
    ensures
        post.well_formed(kind),
{
    assert forall|i: int| 0 <= i < post.slots.len() implies ((
    #[trigger] post.slots[i]) matches Some(texture) ==> texture.well_formed() && texture.id == (
    AtlasTextureId { index: i as u32, kind })) by {
        if list.slots[i] is Some {
            lemma_released_is_well_formed(list.slots[i]->0, post.slots[i]->0, first_active);
        }
    }
    assert forall|i: int| 0 <= i < post.free.len() implies (#[trigger] post.free[i])
        < post.slots.len() && post.slots[post.free[i] as int] is None by {
        assert(list.slots[list.free[i] as int] is None);
    }
    assert forall|i: int|
        0 <= i < post.slots.len() && (#[trigger] post.slots[i]) is None implies post.free.contains(
        i as usize,
    ) by {
        assert(list.slots[i] is None);
    }
}

/// A valid atlas stays valid by any operation.
pub proof fn operations_keep_the_atlas_valid<T>(
    pre: AtlasModel<T>,
    post: AtlasModel<T>,
    operation: Operation,
)
    requires
        pre.valid(),
        performs(pre, post, operation),
    ensures
        post.valid(),
{
    match operation {
        Operation::Insert(key) => {
            if post != pre {
                let (mid, size, made, tile) = choose|
                    mid: AtlasModel<T>,
                    size: Size,
                    made: Option<T>,
                    tile: Option<AtlasTile>,
                | #[trigger]
                    stores_with(pre, mid, post, key, size, made, tile);
                lemma_stored_is_valid(pre, mid, post, key, size, made, tile);
            }
        },
        Operation::Remove(key) => {
            if pre.tiles.contains_key(key) {
                let tile = pre.tiles[key];
                let id = tile.texture_id;
                assert(pre.tile_valid(key));
                let list = pre.list(id.kind);
                let slot = id.index as int;
                let texture = list.slots[slot]->0;
                assert(list.slots[slot] is Some);
                assert(pre.texture(id) == Some(texture));
                assert(pre.keys_on(id).contains(key));
                if texture.live_atlas_keys == 1 {
                    lemma_emptied_slot_keeps_order(list, slot as usize, id.kind);
                } else {
                    let kept = choose|kept: TextureModel<T>|
                        {
                            &&& #[trigger] texture.gives_up(
                                kept,
                                tile.tile_id,
                                newest(pre.active),
                            )
                            &&& post.list(id.kind) == (ListModel {
                                slots: list.slots.update(slot, Some(kept)),
                                free: list.free,
                            })
                        };
                    lemma_given_up_keeps_order(
                        texture,
                        kept,
                        tile.tile_id,
                        newest(pre.active),
                    );
                    lemma_update_keeps_order(list, slot, kept, id.kind);
                }
                if newest(pre.active) is Some {
                    let frame = choose|frame: u64| pre.active.contains(frame);
                    newest_is_not_older(pre.active, frame);
                }
                lemma_removed_is_valid(pre, post, key);
            }
        },
        Operation::Begin => {
            lemma_begun_is_valid(pre, post);
        },
        Operation::Complete(serial) => {
            let first = oldest(pre.active.remove(serial));
            lemma_released_list(
                pre.monochrome,
                post.monochrome,
                first,
                AtlasTextureKind::Monochrome,
            );
            lemma_released_list(
                pre.polychrome,
                post.polychrome,
                first,
                AtlasTextureKind::Polychrome,
            );
            lemma_completed_is_valid(pre, post, serial);
        },
    }
}

/// An atlas that is valid at the start of a run is valid all through it.
pub proof fn runs_stay_valid<T>(
    models: Seq<AtlasModel<T>>,
    operations: Seq<Operation>,
    i: int,
)
    requires
        is_run(models, operations),
        models[0].valid(),
        0 <= i < models.len(),
    ensures
        models[i].valid(),
    decreases i,
{
    if i > 0 {
        runs_stay_valid(models, operations, i - 1);
        assert(performs(models[i - 1], models[i - 1 + 1], operations[i - 1]));
        operations_keep_the_atlas_valid(models[i - 1], models[i], operations[i - 1]);
    }
}

/// In every state that a new atlas comes to, the count of what waits is that of
/// all the textures, each texture counts its keys, and every tile lies in a
/// texture that is there.
pub proof fn counts_are_right_in_every_state<T>(
    models: Seq<AtlasModel<T>>,
    operations: Seq<Operation>,
    is_apple_gpu: bool,
    i: int,
    id: AtlasTextureId,
    key: AtlasKey,
)
    requires
        is_run(models, operations),
        models[0] == AtlasModel::<T>::empty(is_apple_gpu),
        0 <= i < models.len(),
    ensures
        models[i].valid(),
        models[i].pending == total_retired(models[i].monochrome.slots) + total_retired(
            models[i].polychrome.slots,
        ),
        models[i].texture(id) matches Some(texture) ==> texture.live_atlas_keys == models[i].keys_on(
            id,
        ).len(),
        models[i].tiles.contains_key(key) ==> models[i].texture(
            models[i].tiles[key].texture_id,
        ) is Some,
{
    runs_stay_valid(models, operations, i);
    assert(models[i].tiles.contains_key(key) ==> models[i].tile_valid(key));
}

/// A key that has a tile has it for as long as the key is not removed, whatever
/// is done with other keys and with frames.
pub proof fn keys_keep_their_tiles<T>(
    models: Seq<AtlasModel<T>>,
    operations: Seq<Operation>,
    key: AtlasKey,
)
    requires
        is_run(models, operations),
        models[0].tiles.contains_key(key),
        forall|i: int| 0 <= i < operations.len() ==> #[trigger] operations[i] != Operation::Remove(
            key,
        ),
    ensures
        models.last().tiles.contains_key(key),
        models.last().tiles[key] == models[0].tiles[key],
    decreases operations.len(),
{
    if operations.len() > 0 {
        let n = operations.len() - 1;
        let before = models.drop_last();
        lemma_shorter_run(models, operations);
        assert forall|i: int| 0 <= i < operations.drop_last().len() implies #[trigger] operations.drop_last()[i]
            != Operation::Remove(key) by {
            assert(operations.drop_last()[i] == operations[i]);
        }
        keys_keep_their_tiles(before, operations.drop_last(), key);
        assert(performs(models[n], models[n + 1], operations[n]));
        assert(operations[n] != Operation::Remove(key));
        let pre = models[n];
        let post = models[n + 1];
        assert(pre == before.last());
        if let Operation::Insert(other) = operations[n] {
            if post != pre {
                let (mid, size, made, tile) = choose|
                    mid: AtlasModel<T>,
                    size: Size,
                    made: Option<T>,
                    tile: Option<AtlasTile>,
                | #[trigger]
                    stores_with(pre, mid, post, other, size, made, tile);
                assert(mid.tiles == pre.tiles);
            }
        }
    }
}

proof fn lemma_shorter_run<T>(models: Seq<AtlasModel<T>>, operations: Seq<Operation>)
    requires
        is_run(models, operations),
        operations.len() > 0,
    ensures
        is_run(models.drop_last(), operations.drop_last()),
{
    let before = models.drop_last();
    let first = operations.drop_last();
    assert forall|i: int| 0 <= i < first.len() implies performs(
        before[i],
        before[i + 1],
        #[trigger] first[i],
    ) by {
        assert(performs(models[i], models[i + 1], operations[i]));
    }
}

/// A frame that is active before and after an operation that could not begin it
/// is older than the next frame all the while.
proof fn lemma_frames_of_an_operation<T>(
    pre: AtlasModel<T>,
    post: AtlasModel<T>,
    operation: Operation,
    frame: u64,
)
    requires
        performs(pre, post, operation),
        frame < pre.next_frame,
    ensures
        frame < post.next_frame,
        post.active.contains(frame) ==> pre.active.contains(frame),
{
    if let Operation::Insert(key) = operation {
        if post != pre {
            let (mid, size, made, tile) = choose|
                mid: AtlasModel<T>,
                size: Size,
                made: Option<T>,
                tile: Option<AtlasTile>,
            | #[trigger]
                stores_with(pre, mid, post, key, size, made, tile);
            assert(mid.active == pre.active && mid.next_frame == pre.next_frame);
        }
    }
}

/// A frame that is active at the start and at the end of a run is active all
/// through it: a frame that is complete does not begin again.
pub proof fn frames_are_active_once<T>(
    models: Seq<AtlasModel<T>>,
    operations: Seq<Operation>,
    frame: u64,
    i: int,
)
    requires
        is_run(models, operations),
        models[0].valid(),
        models[0].active.contains(frame),
        models.last().active.contains(frame),
        0 <= i < models.len(),
    ensures
        models[i].active.contains(frame),
    decreases operations.len(),
{
    if i < operations.len() {
        let n = operations.len() - 1;
        lemma_shorter_run(models, operations);
        lemma_older_than_the_next(models, operations, frame, n);
        assert(performs(models[n], models[n + 1], operations[n]));
        lemma_frames_of_an_operation(models[n], models[n + 1], operations[n], frame);
        let before = models.drop_last();
        assert(before.last() == models[n]);
        frames_are_active_once(before, operations.drop_last(), frame, i);
        assert(before[i] == models[i]);
    }
}

proof fn lemma_older_than_the_next<T>(
    models: Seq<AtlasModel<T>>,
    operations: Seq<Operation>,
    frame: u64,
    i: int,
)
    requires
        is_run(models, operations),
        frame < models[0].next_frame || (models[0].valid() && models[0].active.contains(frame)),
        0 <= i < models.len(),
    ensures
        frame < models[i].next_frame,
    decreases i,
{
    if i > 0 {
        lemma_older_than_the_next(models, operations, frame, i - 1);
        assert(performs(models[i - 1], models[i - 1 + 1], operations[i - 1]));
        lemma_frames_of_an_operation(models[i - 1], models[i], operations[i - 1], frame);
    }
}

/// One operation leaves what an active frame may sample as it is.
proof fn lemma_operation_keeps_pixels<T>(
    pre: AtlasModel<T>,
    post: AtlasModel<T>,
    operation: Operation,
    id: AtlasTextureId,
    tile_id: TileId,
    frame: u64,
)
    requires
        pre.valid(),
        performs(pre, post, operation),
        pre.active.contains(frame),
        post.active.contains(frame),
        holds(pre, id, tile_id, frame),
        post.texture(id) is Some,
    ensures
        holds(post, id, tile_id, frame),
        post.texture(id)->0.metal_texture == pre.texture(id)->0.metal_texture,
        post.texture(id)->0.rectangles()[tile_id] == pre.texture(id)->0.rectangles()[tile_id],
{
    operations_keep_the_atlas_valid(pre, post, operation);
    held_pixels_are_taken(pre, id, tile_id, frame);
    match operation {
        Operation::Insert(key) => {
            if post != pre {
                let (mid, size, made, tile) = choose|
                    mid: AtlasModel<T>,
                    size: Size,
                    made: Option<T>,
                    tile: Option<AtlasTile>,
                | #[trigger]
                    stores_with(pre, mid, post, key, size, made, tile);
                lemma_stored_is_valid(pre, mid, post, key, size, made, tile);
                lemma_placing_keeps_textures(pre, mid, key.kind, size, made, tile, id);
                assert(post.texture(id) == mid.texture(id));
                if exists|k: AtlasKey| #[trigger] has_tile(pre, k, id, tile_id) {
                    let k = choose|k: AtlasKey| #[trigger] has_tile(pre, k, id, tile_id);
                    assert(has_tile(post, k, id, tile_id));
                } else {
                    let j = choose|j: int| #[trigger] waits_since(pre, j, id, tile_id, frame);
                    assert(waits_since(post, j, id, tile_id, frame));
                }
            }
        },
        Operation::Remove(key) => {
            removal_keeps_pixels_in_flight(pre, post, key, id, tile_id, frame);
            if pre.tiles.contains_key(key) {
                newest_is_not_older(pre.active, frame);
                lemma_removal_changes_one_texture(pre, post, key);
            }
        },
        Operation::Begin => {
            assert(post.texture(id) == pre.texture(id));
            if exists|k: AtlasKey| #[trigger] has_tile(pre, k, id, tile_id) {
                let k = choose|k: AtlasKey| #[trigger] has_tile(pre, k, id, tile_id);
                assert(has_tile(post, k, id, tile_id));
            } else {
                let j = choose|j: int| #[trigger] waits_since(pre, j, id, tile_id, frame);
                assert(waits_since(post, j, id, tile_id, frame));
            }
        },
        Operation::Complete(serial) => {
            completion_keeps_pixels_in_flight(pre, post, serial, id, tile_id, frame);
            held_pixels_are_taken(post, id, tile_id, frame);
            assert(pre.list(id.kind).slots[id.index as int] is Some);
            assert(pre.list(id.kind).releases(post.list(id.kind), oldest(post.active)));
        },
    }
}

/// While a frame is active and a texture stays, an allocation of the texture that
/// the frame may sample stays where it is, whatever is done.
pub proof fn pixels_in_flight_stay<T>(
    models: Seq<AtlasModel<T>>,
    operations: Seq<Operation>,
    id: AtlasTextureId,
    tile_id: TileId,
    frame: u64,
)
    requires
        is_run(models, operations),
        models[0].valid(),
        models[0].active.contains(frame),
        models.last().active.contains(frame),
        stays(models, id),
        holds(models[0], id, tile_id, frame),
    ensures
        holds(models.last(), id, tile_id, frame),
        models.last().texture(id)->0.metal_texture == models[0].texture(id)->0.metal_texture,
        models.last().texture(id)->0.rectangles().contains_key(tile_id),
        models.last().texture(id)->0.rectangles()[tile_id] == models[0].texture(
            id,
        )->0.rectangles()[tile_id],
    decreases operations.len(),
{
    runs_stay_valid(models, operations, models.len() - 1);
    if operations.len() > 0 {
        let n = operations.len() - 1;
        let before = models.drop_last();
        lemma_shorter_run(models, operations);
        frames_are_active_once(models, operations, frame, n);
        assert(before.last() == models[n]);
        assert forall|i: int| 0 <= i < before.len() implies (#[trigger] before[i]).texture(
            id,
        ) is Some by {
            assert(before[i] == models[i]);
        }
        pixels_in_flight_stay(before, operations.drop_last(), id, tile_id, frame);
        runs_stay_valid(models, operations, n);
        assert(performs(models[n], models[n + 1], operations[n]));
        assert(models[n + 1].texture(id) is Some);
        lemma_operation_keeps_pixels(
            models[n],
            models[n + 1],
            operations[n],
            id,
            tile_id,
            frame,
        );
    }
    held_pixels_are_taken(models.last(), id, tile_id, frame);
}

/// Where a run ends with a new tile, the tile shares no pixel with an allocation
/// of its texture that a frame which is still active could sample at the start.
pub proof fn new_tiles_miss_pixels_in_flight<T>(
    models: Seq<AtlasModel<T>>,
    operations: Seq<Operation>,
    key: AtlasKey,
    id: AtlasTextureId,
    tile_id: TileId,
    frame: u64,
)
    requires
        is_run(models, operations),
        models[0].valid(),
        models[0].active.contains(frame),
        models.last().active.contains(frame),
        stays(models, id),
        holds(models[0], id, tile_id, frame),
        operations.len() > 0,
        !models[models.len() - 2].tiles.contains_key(key),
        models.last().tiles.contains_key(key),
        models.last().tiles[key].texture_id == id,
    ensures
        ({
            let rectangles = models.last().texture(id)->0.rectangles();
            let tile = models.last().tiles[key];
            &&& tile.tile_id != tile_id
            &&& rectangles.contains_key(tile.tile_id)
            &&& covers(rectangles[tile.tile_id], tile.bounds)
            &&& rectangles[tile.tile_id].disjoint(
                models[0].texture(id)->0.rectangles()[tile_id],
            )
        }),
{
    let n = operations.len() - 1;
    let pre = models[n];
    let post = models[n + 1];
    pixels_in_flight_stay(models, operations, id, tile_id, frame);
    runs_stay_valid(models, operations, n);
    runs_stay_valid(models, operations, n + 1);
    assert(performs(pre, post, operations[n]));
    assert(post.tile_valid(key));
    assert(pre.texture(id) is Some);
    assert(post.list(id.kind).slots[id.index as int] is Some);
    // The allocation is taken before the new tile is placed.
    assert(pre.texture(id)->0.rectangles().contains_key(tile_id)) by {
        let before = models.drop_last();
        lemma_shorter_run(models, operations);
        frames_are_active_once(models, operations, frame, n);
        assert(before.last() == pre);
        assert forall|i: int| 0 <= i < before.len() implies (#[trigger] before[i]).texture(
            id,
        ) is Some by {
            assert(before[i] == models[i]);
        }
        pixels_in_flight_stay(before, operations.drop_last(), id, tile_id, frame);
    }
    match operations[n] {
        Operation::Insert(other) => {
            let (mid, size, made, tile) = choose|
                mid: AtlasModel<T>,
                size: Size,
                made: Option<T>,
                tile: Option<AtlasTile>,
            | #[trigger]
                stores_with(pre, mid, post, other, size, made, tile);
            lemma_stored_is_valid(pre, mid, post, other, size, made, tile);
            lemma_placing_keeps_textures(pre, mid, other.kind, size, made, tile, id);
            assert(other == key);
        },
        _ => {},
    }
}

/// The pixels of a removed tile are not written over while a frame is active
/// that was active when the tile was removed: a new tile in the same texture
/// shares no pixel with it.
pub proof fn removed_tiles_are_not_written_over_in_flight<T>(
    models: Seq<AtlasModel<T>>,
    operations: Seq<Operation>,
    old_key: AtlasKey,
    new_key: AtlasKey,
    frame: u64,
)
    requires
        is_run(models, operations),
        models[0].valid(),
        models[0].tiles.contains_key(old_key),
        models[0].active.contains(frame),
        models.last().active.contains(frame),
        stays(models, models[0].tiles[old_key].texture_id),
        operations.len() > 0,
        operations[0] == Operation::Remove(old_key),
        !models[models.len() - 2].tiles.contains_key(new_key),
        models.last().tiles.contains_key(new_key),
        models.last().tiles[new_key].texture_id == models[0].tiles[old_key].texture_id,
    ensures
        models.last().tiles[new_key].bounds.disjoint(models[0].tiles[old_key].bounds),
{
    let old_tile = models[0].tiles[old_key];
    let id = old_tile.texture_id;
    assert(models[0].tile_valid(old_key));
    assert(has_tile(models[0], old_key, id, old_tile.tile_id));
    new_tiles_miss_pixels_in_flight(models, operations, new_key, id, old_tile.tile_id, frame);
}

/// No pixel of a removed tile belongs to a new tile in the same texture while a
/// frame is active that was active when the tile was removed.
pub proof fn no_pixel_in_flight_gets_a_new_tile<T>(
    models: Seq<AtlasModel<T>>,
    operations: Seq<Operation>,
    old_key: AtlasKey,
    new_key: AtlasKey,
    frame: u64,
    x: int,
    y: int,
)
    requires
        is_run(models, operations),
        models[0].valid(),
        models[0].tiles.contains_key(old_key),
        models[0].active.contains(frame),
        models.last().active.contains(frame),
        stays(models, models[0].tiles[old_key].texture_id),
        operations.len() > 0,
        operations[0] == Operation::Remove(old_key),
        !models[models.len() - 2].tiles.contains_key(new_key),
        models.last().tiles.contains_key(new_key),
        models.last().tiles[new_key].texture_id == models[0].tiles[old_key].texture_id,
    ensures
        ({
            let p = models[0].tiles[old_key].bounds;
            let q = models.last().tiles[new_key].bounds;
            !(p.origin.x.0 <= x < p.origin.x.0 + p.size.width.0 && p.origin.y.0 <= y
                < p.origin.y.0 + p.size.height.0 && q.origin.x.0 <= x < q.origin.x.0
                + q.size.width.0 && q.origin.y.0 <= y < q.origin.y.0 + q.size.height.0)
        }),
{
    removed_tiles_are_not_written_over_in_flight(models, operations, old_key, new_key, frame);
}

/// True if a frame that is active at the start of a run is active at position `i`.
pub open spec fn is_awaited<T>(models: Seq<AtlasModel<T>>, i: int) -> bool {
    exists|frame: u64| #[trigger]
        models[0].active.contains(frame) && models[i].active.contains(frame)
}

/// A frame that is older than the next one at the start of a run and active later
/// was active at the start.
proof fn lemma_active_since_the_start<T>(
    models: Seq<AtlasModel<T>>,
    operations: Seq<Operation>,
    frame: u64,
    i: int,
)
    requires
        is_run(models, operations),
        frame < models[0].next_frame,
        0 <= i < models.len(),
        models[i].active.contains(frame),
    ensures
        models[0].active.contains(frame),
    decreases i,
{
    if i > 0 {
        lemma_older_than_the_next(models, operations, frame, i - 1);
        assert(performs(models[i - 1], models[i - 1 + 1], operations[i - 1]));
        lemma_frames_of_an_operation(models[i - 1], models[i], operations[i - 1], frame);
        lemma_active_since_the_start(models, operations, frame, i - 1);
    }
}

/// One operation leaves an allocation of a texture that waits where it waits, if
/// a frame is active afterwards that it waits for.
proof fn lemma_operation_keeps_waiting<T>(
    pre: AtlasModel<T>,
    post: AtlasModel<T>,
    operation: Operation,
    id: AtlasTextureId,
    entry: (u64, TileId),
    frame: u64,
)
    requires
        pre.valid(),
        performs(pre, post, operation),
        pre.texture(id) is Some,
        post.texture(id) is Some,
        pre.texture(id)->0.retired.contains(entry),
        pre.active.contains(frame),
        post.active.contains(frame),
        frame <= entry.0,
    ensures
        post.texture(id)->0.retired.contains(entry),
{
    let before = pre.texture(id)->0.retired;
    let after = post.texture(id)->0.retired;
    let j = choose|j: int| 0 <= j < before.len() && before[j] == entry;
    match operation {
        Operation::Insert(key) => {
            if post != pre {
                let (mid, size, made, tile) = choose|
                    mid: AtlasModel<T>,
                    size: Size,
                    made: Option<T>,
                    tile: Option<AtlasTile>,
                | #[trigger]
                    stores_with(pre, mid, post, key, size, made, tile);
                lemma_stored_is_valid(pre, mid, post, key, size, made, tile);
                lemma_placing_keeps_textures(pre, mid, key.kind, size, made, tile, id);
                assert(post.texture(id) == mid.texture(id));
            }
        },
        Operation::Remove(key) => {
            if pre.tiles.contains_key(key) {
                newest_is_not_older(pre.active, frame);
                lemma_removal_changes_one_texture(pre, post, key);
                assert(after[j] == entry);
            }
        },
        Operation::Begin => {
            assert(post.texture(id) == pre.texture(id));
        },
        Operation::Complete(serial) => {
            let first = oldest(post.active);
            let keeps = |entry: (u64, TileId)| must_wait(first, entry.0);
            assert(pre.list(id.kind).slots[id.index as int] is Some);
            assert(pre.list(id.kind).releases(post.list(id.kind), first));
            waiting_for_the_oldest_is_enough(post.active, entry.0);
            assert(keeps(before[j]));
            before.lemma_filter_contains(keeps, j);
        },
    }
}

/// The room of a removed tile waits for the newest frame that was active, for as
/// long as one of those that were active is.
proof fn lemma_removed_room_waits<T>(
    models: Seq<AtlasModel<T>>,
    operations: Seq<Operation>,
    key: AtlasKey,
    i: int,
)
    requires
        is_run(models, operations),
        models[0].valid(),
        models[0].tiles.contains_key(key),
        operations.len() > 0,
        operations[0] == Operation::Remove(key),
        stays(models, models[0].tiles[key].texture_id),
        1 <= i < models.len(),
        forall|k: int| 1 <= k <= i ==> #[trigger] is_awaited(models, k),
    ensures
        newest(models[0].active) is Some,
        models[i].texture(models[0].tiles[key].texture_id)->0.retired.contains(
            (newest(models[0].active)->0, models[0].tiles[key].tile_id),
        ),
    decreases i,
{
    let tile = models[0].tiles[key];
    let id = tile.texture_id;
    assert(is_awaited(models, i));
    let frame = choose|frame: u64| #[trigger]
        models[0].active.contains(frame) && models[i].active.contains(frame);
    newest_is_not_older(models[0].active, frame);
    let entry = (newest(models[0].active)->0, tile.tile_id);
    assert(models[i].texture(id) is Some);
    assert(models[i - 1].texture(id) is Some);
    if i == 1 {
        assert(performs(models[i - 1], models[i - 1 + 1], operations[i - 1]));
        lemma_removal_changes_one_texture(models[0], models[1], key);
        let after = models[1].texture(id)->0.retired;
        assert(after[after.len() - 1] == entry);
    } else {
        lemma_removed_room_waits(models, operations, key, i - 1);
        runs_stay_valid(models, operations, i - 1);
        assert(performs(models[i - 1], models[i - 1 + 1], operations[i - 1]));
        lemma_older_than_the_next(models, operations, frame, i - 1);
        lemma_frames_of_an_operation(models[i - 1], models[i], operations[i - 1], frame);
        lemma_operation_keeps_waiting(
            models[i - 1],
            models[i],
            operations[i - 1],
            id,
            entry,
            frame,
        );
    }
}

/// The room of a removed tile is given back as soon as every frame that was active
/// when the tile was removed is complete, whatever frames began since: at once if
/// none was active. (Its texture stays, with the tiles of other keys.)
pub proof fn room_is_given_back_with_the_last_frame<T>(
    models: Seq<AtlasModel<T>>,
    operations: Seq<Operation>,
    key: AtlasKey,
)
    requires
        is_run(models, operations),
        models[0].valid(),
        models[0].tiles.contains_key(key),
        operations.len() > 0,
        operations[0] == Operation::Remove(key),
        stays(models, models[0].tiles[key].texture_id),
        forall|k: int| 1 <= k < operations.len() ==> #[trigger] is_awaited(models, k),
        !is_awaited(models, models.len() - 1),
    ensures
        ({
            let tile = models[0].tiles[key];
            let texture = models.last().texture(tile.texture_id)->0;
            &&& !texture.rectangles().contains_key(tile.tile_id)
            &&& forall|i: int|
                0 <= i < texture.retired.len() ==> (#[trigger] texture.retired[i]).1
                    != tile.tile_id
        }),
{
    let tile = models[0].tiles[key];
    let id = tile.texture_id;
    let n = operations.len() - 1;
    let pre = models[n];
    let post = models[n + 1];
    let active = models[0].active;
    runs_stay_valid(models, operations, n);
    runs_stay_valid(models, operations, n + 1);
    assert(performs(models[n], models[n + 1], operations[n]));
    assert(pre.texture(id) is Some);
    assert(post.texture(id) is Some);
    if n == 0 {
        lemma_removal_changes_one_texture(pre, post, key);
        assert(newest(active) is None) by {
            if newest(active) is Some {
                let frame = choose|frame: u64| active.contains(frame);
                assert(models[0].active.contains(frame) && models[1].active.contains(frame));
            }
        }
    } else {
        assert(is_awaited(models, n));
        lemma_removed_room_waits(models, operations, key, n);
        let frame = choose|frame: u64| #[trigger]
            models[0].active.contains(frame) && models[n].active.contains(frame);
        assert(!post.active.contains(frame));
        lemma_only_completion_ends_frames(pre, post, operations[n], frame);
        let first = oldest(post.active);
        let last_frame = newest(active)->0;
        let before = pre.texture(id)->0;
        let entry = (last_frame, tile.tile_id);
        newest_is_not_older(active, frame);
        assert(!must_wait(first, last_frame)) by {
            waiting_for_the_oldest_is_enough(post.active, last_frame);
            if waits_for(post.active, last_frame) {
                let other = choose|other: u64| #[trigger]
                    post.active.contains(other) && other <= last_frame;
                assert(last_frame < models[0].next_frame);
                lemma_active_since_the_start(models, operations, other, n + 1);
                assert(is_awaited(models, n + 1));
            }
        }
        let j = choose|j: int| 0 <= j < before.retired.len() && before.retired[j] == entry;
        assert(pre.list(id.kind).slots[id.index as int] is Some);
        assert(pre.list(id.kind).releases(post.list(id.kind), first));
        assert(before.retired[j].1 == tile.tile_id && !must_wait(first, before.retired[j].0));
        assert(released_ids(before.retired, first).contains(tile.tile_id));
    }
    assert(post.list(id.kind).slots[id.index as int] is Some);
    let after = post.texture(id)->0;
    assert forall|i: int| 0 <= i < after.retired.len() implies (#[trigger] after.retired[i]).1
        != tile.tile_id by {
        assert(after.rectangles().contains_key(after.retired[i].1));
    }
}

/// Only its completion ends a frame.
proof fn lemma_only_completion_ends_frames<T>(
    pre: AtlasModel<T>,
    post: AtlasModel<T>,
    operation: Operation,
    frame: u64,
)
    requires
        performs(pre, post, operation),
        pre.active.contains(frame),
        !post.active.contains(frame),
    ensures
        operation == Operation::Complete(frame),
{
    if let Operation::Insert(key) = operation {
        if post != pre {
            let (mid, size, made, tile) = choose|
                mid: AtlasModel<T>,
                size: Size,
                made: Option<T>,
                tile: Option<AtlasTile>,
            | #[trigger]
                stores_with(pre, mid, post, key, size, made, tile);
            assert(mid.active == pre.active);
        }
    }
}

/// The slot of a texture that goes is the slot of the texture that is made next.
pub proof fn slots_are_used_again<T>(
    pre: AtlasModel<T>,
    mid: AtlasModel<T>,
    post: AtlasModel<T>,
    key: AtlasKey,
    size: Size,
    metal_texture: T,
    tile: AtlasTile,
)
    requires
        pre.valid(),
        pre.tiles.contains_key(key),
        pre.removes(mid, key),
        mid.texture(pre.tiles[key].texture_id) is None,
        mid.places(post, key.kind, size, Some(metal_texture), Some(tile)),
    ensures
        tile.texture_id == pre.tiles[key].texture_id,
{
    let id = pre.tiles[key].texture_id;
    assert(pre.tile_valid(key));
    lemma_removal_changes_one_texture(pre, mid, key);
    let list = mid.list(id.kind);
    assert(list.free.last() == id.index);
    let new_id = AtlasTextureId { index: list.next_slot() as u32, kind: key.kind };
    let fresh = choose|fresh: TextureModel<T>|
        {
            &&& fresh.is_fresh(new_id, spec_texture_size(size), metal_texture)
            &&& #[trigger] list.serves_with(post.list(key.kind), fresh, size, Some(tile))
        };
    if can_be_placed(size) {
        let texture = choose|texture: TextureModel<T>| #[trigger]
            list.adds_and_grants(post.list(key.kind), fresh, texture, size, Some(tile));
    }
}

} // verus!
