//! The atlas as the contracts see it, what holds of it at all times, and how
//! each operation changes it.
use vstd::prelude::*;

use crate::allocator::{answer, Allocation, Rectangle};
use crate::atlas_types::{AtlasKey, AtlasTextureId, AtlasTextureKind, AtlasTile, TileId};
use crate::frames::{must_wait, newest, oldest, waiting_for_the_oldest_is_enough, waits_for};
use crate::geometry::{Bounds, Size};
use crate::metal_atlas::AtlasError;
use crate::texture::{
    released_ids, spec_texture_descriptor, spec_texture_size, spec_tile, TextureDescriptor,
    TextureModel,
};
use crate::texture_list::{
    lemma_total_retired_push, lemma_total_retired_update, retired_in, total_retired, ListModel,
};

verus! {

/// The whole state of an atlas.
#[verifier::ext_equal]
pub struct AtlasModel<T> {
    pub is_apple_gpu: bool,
    pub monochrome: ListModel<T>,
    pub polychrome: ListModel<T>,
    /// The tile of every key that the atlas has at hand.
    pub tiles: Map<AtlasKey, AtlasTile>,
    /// The serial number of the next frame.
    pub next_frame: u64,
    /// The frames that began and are not complete.
    pub active: Set<u64>,
    /// How many allocations wait for a frame to complete.
    pub pending: nat,
}

/// True if a rectangle starts where the bounds start and covers them.
pub open spec fn covers(rectangle: Rectangle, bounds: Bounds) -> bool {
    &&& rectangle.min == bounds.origin
    &&& rectangle.max.x.0 - rectangle.min.x.0 == bounds.size.width.0
    &&& rectangle.max.y.0 - rectangle.min.y.0 >= bounds.size.height.0
    &&& bounds.size.covers_pixels()
}

impl<T> AtlasModel<T> {
    /// An atlas that has nothing yet.
    pub open spec fn empty(is_apple_gpu: bool) -> AtlasModel<T> {
        AtlasModel {
            is_apple_gpu,
            monochrome: ListModel { slots: Seq::empty(), free: Seq::empty() },
            polychrome: ListModel { slots: Seq::empty(), free: Seq::empty() },
            tiles: Map::empty(),
            next_frame: 0,
            active: Set::empty(),
            pending: 0,
        }
    }

    /// The textures of a kind.
    pub open spec fn list(self, kind: AtlasTextureKind) -> ListModel<T> {
        match kind {
            AtlasTextureKind::Monochrome => self.monochrome,
            _ => self.polychrome,
        }
    }

    /// The atlas with other textures of a kind.
    pub open spec fn with_list(self, kind: AtlasTextureKind, list: ListModel<T>) -> AtlasModel<T> {
        match kind {
            AtlasTextureKind::Monochrome => AtlasModel { monochrome: list, ..self },
            _ => AtlasModel { polychrome: list, ..self },
        }
    }

    /// The texture of a name.
    pub open spec fn texture(self, id: AtlasTextureId) -> Option<TextureModel<T>> {
        if id.kind != AtlasTextureKind::Subpixel && self.list(id.kind).has_texture(id.index as int) {
            self.list(id.kind).slots[id.index as int]
        } else {
            None
        }
    }

    /// The keys whose tiles lie in a texture.
    pub open spec fn keys_on(self, id: AtlasTextureId) -> Set<AtlasKey> {
        self.tiles.dom().filter(|key: AtlasKey| self.tiles[key].texture_id == id)
    }

    /// True if the textures are in order and the count of what waits is right:
    /// an allocation waits only while a frame is active that may sample it.
    pub open spec fn textures_valid(self) -> bool {
        &&& self.monochrome.well_formed(AtlasTextureKind::Monochrome)
        &&& self.polychrome.well_formed(AtlasTextureKind::Polychrome)
        &&& self.monochrome.retired_wait(self.active)
        &&& self.polychrome.retired_wait(self.active)
        &&& self.pending == total_retired(self.monochrome.slots) + total_retired(
            self.polychrome.slots,
        )
        &&& forall|frame: u64| #[trigger] self.active.contains(frame) ==> frame < self.next_frame
    }

    /// True if the tile of a key lies in a texture that exists, in an
    /// allocation that is not given up.
    pub open spec fn tile_valid(self, key: AtlasKey) -> bool {
        let tile = self.tiles[key];
        let texture = self.texture(tile.texture_id)->0;
        &&& tile.texture_id.kind == key.kind
        &&& self.texture(tile.texture_id) is Some
        &&& texture.rectangles().contains_key(tile.tile_id)
        &&& covers(texture.rectangles()[tile.tile_id], tile.bounds)
        &&& forall|i: int|
            0 <= i < texture.retired.len() ==> (#[trigger] texture.retired[i]).1 != tile.tile_id
    }

    /// True if every tile is in order, no two keys share an allocation, and
    /// every texture counts its keys.
    pub open spec fn tiles_valid(self) -> bool {
        &&& self.tiles.dom().finite()
        &&& forall|key: AtlasKey| #[trigger] self.tiles.contains_key(key) ==> self.tile_valid(key)
        &&& forall|a: AtlasKey, b: AtlasKey|
            #![trigger self.tiles.contains_key(a), self.tiles.contains_key(b)]
            self.tiles.contains_key(a) && self.tiles.contains_key(b) && a != b
                && self.tiles[a].texture_id == self.tiles[b].texture_id ==> self.tiles[a].tile_id
                != self.tiles[b].tile_id
        &&& forall|id: AtlasTextureId| (#[trigger] self.texture(id)) is Some ==> self.texture(
            id,
        )->0.live_atlas_keys == self.keys_on(id).len()
    }

    /// What holds of an atlas between any two operations.
    pub open spec fn valid(self) -> bool {
        self.textures_valid() && self.tiles_valid()
    }

    /// True if a tile of a kind and a size can be asked for: the atlas has
    /// textures of that kind, one more of them can be named if one is needed, and
    /// those that are asked can count one more allocation.
    pub open spec fn can_be_asked(self, kind: AtlasTextureKind, size: Size) -> bool {
        &&& kind != AtlasTextureKind::Subpixel
        &&& self.list(kind).fits_somewhere(size) || self.list(kind).has_room()
        &&& self.list(kind).can_be_asked(size)
    }

    /// True if a tile of a kind can be asked for, whatever its size.
    pub open spec fn accepts(self, kind: AtlasTextureKind) -> bool {
        &&& kind != AtlasTextureKind::Subpixel
        &&& self.list(kind).has_room()
        &&& self.list(kind).can_place()
    }

    /// True if the atlas became `post` when a frame began.
    pub open spec fn begins(self, post: AtlasModel<T>) -> bool {
        post == (AtlasModel {
            next_frame: (self.next_frame + 1) as u64,
            active: self.active.insert(self.next_frame),
            ..self
        })
    }

    /// True if the atlas became `post` when it was asked for room for a tile.
    /// `made` is the handle of the texture that had to be made, if one had to.
    pub open spec fn places(
        self,
        post: AtlasModel<T>,
        kind: AtlasTextureKind,
        size: Size,
        made: Option<T>,
        tile: Option<AtlasTile>,
    ) -> bool {
        &&& post == self.with_list(kind, post.list(kind))
        &&& match made {
            None => {
                &&& self.list(kind).fits_somewhere(size)
                &&& self.list(kind).serves_from_old(post.list(kind), size, tile)
            },
            Some(metal_texture) => {
                &&& !self.list(kind).fits_somewhere(size)
                &&& self.list(kind).serves_from_new(
                    post.list(kind),
                    kind,
                    size,
                    metal_texture,
                    tile,
                )
            },
        }
    }

    /// True if the atlas became `post` when pixels of a size were to be kept
    /// under a key that it did not have. `new_texture` is asked for a texture
    /// just if no texture of the kind has room.
    pub open spec fn inserts<E, C: FnOnce(TextureDescriptor) -> T>(
        self,
        post: AtlasModel<T>,
        key: AtlasKey,
        size: Size,
        new_texture: C,
        result: Result<Option<AtlasTile>, AtlasError<E>>,
    ) -> bool {
        exists|mid: AtlasModel<T>, made: Option<T>, tile: Option<AtlasTile>|
            {
                &&& #[trigger] self.places(mid, key.kind, size, made, tile)
                &&& made matches Some(handle) ==> call_ensures(
                    new_texture,
                    (spec_texture_descriptor(size, key.kind, self.is_apple_gpu),),
                    handle,
                )
                &&& match tile {
                    Some(tile) => {
                        &&& post == (AtlasModel { tiles: mid.tiles.insert(key, tile), ..mid })
                        &&& result == Ok::<_, AtlasError<E>>(Some(tile))
                    },
                    None => {
                        &&& post == mid
                        &&& result == Err::<Option<AtlasTile>, _>(
                            AtlasError::<E>::FailedToAllocate,
                        )
                    },
                }
            }
    }

    /// True if the atlas became `post` when a key was removed.
    pub open spec fn removes(self, post: AtlasModel<T>, key: AtlasKey) -> bool {
        if self.tiles.contains_key(key) {
            let tile = self.tiles[key];
            let kind = tile.texture_id.kind;
            let slot = tile.texture_id.index as int;
            &&& self.list(kind).gives_up(
                post.list(kind),
                slot,
                tile.tile_id,
                newest(self.active),
            )
            &&& post == (AtlasModel {
                tiles: self.tiles.remove(key),
                pending: (self.pending - retired_in(self.list(kind).slots[slot]) + retired_in(
                    post.list(kind).slots[slot],
                )) as nat,
                ..self
            }).with_list(kind, post.list(kind))
        } else {
            post == self
        }
    }

    /// True if the atlas became `post` when a frame was complete.
    pub open spec fn completes(self, post: AtlasModel<T>, serial: u64) -> bool {
        let active = self.active.remove(serial);
        &&& self.monochrome.releases(post.monochrome, oldest(active))
        &&& self.polychrome.releases(post.polychrome, oldest(active))
        &&& post == (AtlasModel {
            active,
            monochrome: post.monochrome,
            polychrome: post.polychrome,
            pending: total_retired(post.monochrome.slots) + total_retired(post.polychrome.slots),
            ..self
        })
    }
}

/// Putting a tile in a texture adds its key to that texture alone.
proof fn lemma_keys_on_insert<T>(
    pre: AtlasModel<T>,
    post: AtlasModel<T>,
    key: AtlasKey,
    tile: AtlasTile,
    id: AtlasTextureId,
)
    requires
        pre.tiles.dom().finite(),
        !pre.tiles.contains_key(key),
        post.tiles == pre.tiles.insert(key, tile),
    ensures
        post.keys_on(id).len() == pre.keys_on(id).len() + (if tile.texture_id == id {
            1int
        } else {
            0int
        }),
{
    if tile.texture_id == id {
        assert(post.keys_on(id) =~= pre.keys_on(id).insert(key));
    } else {
        assert(post.keys_on(id) =~= pre.keys_on(id));
    }
}

/// Taking a key out takes it from its texture alone.
proof fn lemma_keys_on_remove<T>(
    pre: AtlasModel<T>,
    post: AtlasModel<T>,
    key: AtlasKey,
    id: AtlasTextureId,
)
    requires
        pre.tiles.dom().finite(),
        pre.tiles.contains_key(key),
        post.tiles == pre.tiles.remove(key),
    ensures
        post.keys_on(id).len() == pre.keys_on(id).len() - (if pre.tiles[key].texture_id == id {
            1int
        } else {
            0int
        }),
{
    if pre.tiles[key].texture_id == id {
        assert(post.keys_on(id) =~= pre.keys_on(id).remove(key));
        assert(pre.keys_on(id).contains(key));
    } else {
        assert(post.keys_on(id) =~= pre.keys_on(id));
    }
}

/// No key has a tile in a texture that does not exist.
proof fn lemma_no_keys_without_texture<T>(model: AtlasModel<T>, id: AtlasTextureId)
    requires
        model.tiles_valid(),
        model.texture(id) is None,
    ensures
        model.keys_on(id).len() == 0,
{
    assert forall|key: AtlasKey| !model.keys_on(id).contains(key) by {
        if model.keys_on(id).contains(key) {
            assert(model.tiles.contains_key(key));
            assert(model.tile_valid(key));
        }
    }
    assert(model.keys_on(id) =~= Set::<AtlasKey>::empty());
}

/// An atlas stays valid when a key is given an allocation that a texture just
/// granted. `before` is that texture without the allocation.
proof fn lemma_granted_tile_is_valid<T>(
    pre: AtlasModel<T>,
    post: AtlasModel<T>,
    key: AtlasKey,
    size: Size,
    id: AtlasTextureId,
    before: TextureModel<T>,
    allocation: Allocation,
)
    requires
        pre.tiles_valid(),
        !pre.tiles.contains_key(key),
        key.kind == id.kind,
        before.id == id,
        size.covers_pixels(),
        before.well_formed(),
        post.texture(id) is Some,
        before.grants(post.texture(id)->0, allocation, size),
        match pre.texture(id) {
            Some(texture) => before == texture,
            None => before.live_atlas_keys == 0,
        },
        forall|other: AtlasTextureId|
            other != id ==> #[trigger] post.texture(other) == pre.texture(other),
        post.tiles == pre.tiles.insert(key, spec_tile(id, allocation, size)),
    ensures
        post.tiles_valid(),
{
    let tile = spec_tile(id, allocation, size);
    let texture = post.texture(id)->0;
    assert forall|k: AtlasKey| #[trigger] post.tiles.contains_key(k) implies post.tile_valid(k) by {
        if k == key {
            assert forall|i: int| 0 <= i < texture.retired.len() implies (
            #[trigger] texture.retired[i]).1 != tile.tile_id by {
                assert(before.rectangles().contains_key(before.retired[i].1));
            }
        } else {
            assert(pre.tiles.contains_key(k));
            assert(pre.tile_valid(k));
            let other = pre.tiles[k].texture_id;
            if other != id {
                assert(post.texture(other) == pre.texture(other));
            }
        }
    }
    assert forall|a: AtlasKey, b: AtlasKey|
        #![trigger post.tiles.contains_key(a), post.tiles.contains_key(b)]
        post.tiles.contains_key(a) && post.tiles.contains_key(b) && a != b
            && post.tiles[a].texture_id == post.tiles[b].texture_id implies post.tiles[a].tile_id
        != post.tiles[b].tile_id by {
        if a != key {
            assert(pre.tiles.contains_key(a) && pre.tile_valid(a));
        }
        if b != key {
            assert(pre.tiles.contains_key(b) && pre.tile_valid(b));
        }
    }
    assert forall|other: AtlasTextureId| (#[trigger] post.texture(other)) is Some implies post.texture(
        other,
    )->0.live_atlas_keys == post.keys_on(other).len() by {
        lemma_keys_on_insert(pre, post, key, tile, other);
        if other != id {
            assert(post.texture(other) == pre.texture(other));
        } else if pre.texture(id) is None {
            lemma_no_keys_without_texture(pre, id);
        }
    }
}

/// An atlas stays valid when a texture without tiles is added.
proof fn lemma_unused_texture_is_valid<T>(
    pre: AtlasModel<T>,
    post: AtlasModel<T>,
    id: AtlasTextureId,
)
    requires
        pre.tiles_valid(),
        pre.texture(id) is None,
        post.texture(id) is Some,
        post.texture(id)->0.live_atlas_keys == 0,
        forall|other: AtlasTextureId|
            other != id ==> #[trigger] post.texture(other) == pre.texture(other),
        post.tiles == pre.tiles,
    ensures
        post.tiles_valid(),
{
    assert forall|k: AtlasKey| #[trigger] post.tiles.contains_key(k) implies post.tile_valid(k) by {
        assert(pre.tiles.contains_key(k) && pre.tile_valid(k));
        assert(pre.tiles[k].texture_id != id);
        assert(post.texture(pre.tiles[k].texture_id) == pre.texture(pre.tiles[k].texture_id));
    }
    assert forall|other: AtlasTextureId| (#[trigger] post.texture(other)) is Some implies post.texture(
        other,
    )->0.live_atlas_keys == post.keys_on(other).len() by {
        assert(post.keys_on(other) =~= pre.keys_on(other));
        if other != id {
            assert(post.texture(other) == pre.texture(other));
        } else {
            lemma_no_keys_without_texture(pre, id);
        }
    }
}

/// A texture that was just made is in order.
pub(crate) proof fn lemma_fresh_is_well_formed<T>(
    fresh: TextureModel<T>,
    id: AtlasTextureId,
    min_size: Size,
    metal_texture: T,
)
    requires
        fresh.is_fresh(id, spec_texture_size(min_size), metal_texture),
        id.kind != AtlasTextureKind::Subpixel,
    ensures
        fresh.well_formed(),
{
    assert(fresh.rectangles().dom() =~= Set::<TileId>::empty());
}

/// Whatever the atlas was asked for, it stays valid once the tile that it
/// placed is put under a key.
pub(crate) proof fn lemma_placed_is_valid<T>(
    pre: AtlasModel<T>,
    mid: AtlasModel<T>,
    key: AtlasKey,
    size: Size,
    made: Option<T>,
    tile: Option<AtlasTile>,
)
    requires
        pre.valid(),
        mid.textures_valid(),
        !pre.tiles.contains_key(key),
        key.kind != AtlasTextureKind::Subpixel,
        tile is Some ==> size.covers_pixels(),
        pre.places(mid, key.kind, size, made, tile),
    ensures
        tile is None ==> mid.valid(),
        tile matches Some(tile) ==> (AtlasModel {
            tiles: mid.tiles.insert(key, tile),
            ..mid
        }).valid() && mid.texture(tile.texture_id) is Some && tile.texture_id.kind == key.kind,
{
    let kind = key.kind;
    let list = pre.list(kind);
    match made {
        None => {
            let (i, texture) = choose|i: int, texture: TextureModel<T>|
                list.is_last_fit(i, size) && #[trigger] list.grants_at(
                    mid.list(kind),
                    i,
                    texture,
                    size,
                    tile,
                );
            let before = list.slots[i]->0;
            assert(list.slots[i] is Some);
            let allocation = answer(before.allocator, size)->0;
            let post = AtlasModel { tiles: mid.tiles.insert(key, tile->0), ..mid };
            assert(mid.texture(before.id) == Some(texture));
            lemma_granted_tile_is_valid(pre, post, key, size, before.id, before, allocation);
        },
        Some(metal_texture) => {
            let id = AtlasTextureId { index: list.next_slot() as u32, kind };
            if list.free.len() > 0 {
                assert(list.free[list.free.len() - 1] == list.next_slot());
            }
            let fresh = choose|fresh: TextureModel<T>|
                {
                    &&& fresh.is_fresh(id, spec_texture_size(size), metal_texture)
                    &&& #[trigger] list.serves_with(mid.list(kind), fresh, size, tile)
                };
            assert(pre.texture(id) is None);
            lemma_fresh_is_well_formed(fresh, id, size, metal_texture);
            if tile is Some {
                let texture = choose|texture: TextureModel<T>| #[trigger]
                    list.adds_and_grants(mid.list(kind), fresh, texture, size, tile);
                assert(mid.texture(id) == Some(texture));
                let allocation = answer(fresh.allocator, size)->0;
                let post = AtlasModel { tiles: mid.tiles.insert(key, tile->0), ..mid };
                lemma_granted_tile_is_valid(pre, post, key, size, id, fresh, allocation);
            } else {
                lemma_unused_texture_is_valid(pre, mid, id);
            }
        },
    }
}

/// How a removal changes the texture of the removed tile, and no other.
pub(crate) proof fn lemma_removal_changes_one_texture<T>(
    pre: AtlasModel<T>,
    post: AtlasModel<T>,
    key: AtlasKey,
)
    requires
        pre.valid(),
        pre.tiles.contains_key(key),
        pre.removes(post, key),
    ensures
        forall|other: AtlasTextureId|
            other != pre.tiles[key].texture_id ==> #[trigger] post.texture(other) == pre.texture(
                other,
            ),
        match post.texture(pre.tiles[key].texture_id) {
            Some(kept) => {
                let texture = pre.texture(pre.tiles[key].texture_id)->0;
                &&& texture.live_atlas_keys != 1
                &&& texture.gives_up(kept, pre.tiles[key].tile_id, newest(pre.active))
            },
            None => pre.texture(pre.tiles[key].texture_id)->0.live_atlas_keys == 1,
        },
        pre.texture(pre.tiles[key].texture_id) is Some,
{
    let id = pre.tiles[key].texture_id;
    assert(pre.tile_valid(key));
    assert(pre.texture(id) is Some);
    assert forall|other: AtlasTextureId| other != id implies #[trigger] post.texture(other)
        == pre.texture(other) by {
        if other.kind == id.kind {
            assert(other.index != id.index);
        }
    }
}

/// An atlas stays valid when a key is removed.
pub(crate) proof fn lemma_removed_is_valid<T>(
    pre: AtlasModel<T>,
    post: AtlasModel<T>,
    key: AtlasKey,
)
    requires
        pre.valid(),
        pre.tiles.contains_key(key),
        pre.removes(post, key),
        post.list(pre.tiles[key].texture_id.kind).well_formed(pre.tiles[key].texture_id.kind),
        newest(pre.active) matches Some(serial) ==> pre.active.contains(serial),
    ensures
        post.valid(),
{
    let tile = pre.tiles[key];
    let id = tile.texture_id;
    let kind = id.kind;
    let slot = id.index as int;
    assert(pre.tile_valid(key));
    lemma_removal_changes_one_texture(pre, post, key);
    let texture = pre.texture(id)->0;
    let list = pre.list(kind);
    let left = post.list(kind);
    assert(left.slots =~= list.slots.update(slot, left.slots[slot]));
    lemma_total_retired_update(list.slots, slot, left.slots[slot]);
    assert(list.slots.update(slot, left.slots[slot]) == left.slots);
    assert(left.retired_wait(post.active)) by {
        assert forall|i: int, j: int|
            0 <= i < left.slots.len() && left.slots[i] is Some && 0 <= j
                < left.slots[i]->0.retired.len() implies waits_for(
            post.active,
            (#[trigger] left.slots[i]->0.retired[j]).0,
        ) by {
            if i != slot {
                assert(left.slots[i] == list.slots[i]);
                assert(waits_for(pre.active, list.slots[i]->0.retired[j].0));
            } else if j < texture.retired.len() {
                assert(left.slots[i]->0.retired[j] == list.slots[i]->0.retired[j]);
                assert(waits_for(pre.active, list.slots[i]->0.retired[j].0));
            }
        }
    }
    assert(post.textures_valid());
    assert(pre.keys_on(id).contains(key));
    assert forall|k: AtlasKey| #[trigger] post.tiles.contains_key(k) implies post.tile_valid(k) by {
        assert(pre.tiles.contains_key(k) && pre.tile_valid(k));
        let other = pre.tiles[k].texture_id;
        if other == id {
            assert(pre.keys_on(id).contains(k));
            assert(pre.tiles[k].tile_id != tile.tile_id);
            if post.texture(id) is None {
                lemma_keys_on_remove(pre, post, key, id);
                assert(post.keys_on(id).len() == 0);
                assert(post.keys_on(id).contains(k));
                assert(post.keys_on(id).finite());
                assert(false);
            }
        } else {
            assert(post.texture(other) == pre.texture(other));
        }
    }
    assert forall|a: AtlasKey, b: AtlasKey|
        #![trigger post.tiles.contains_key(a), post.tiles.contains_key(b)]
        post.tiles.contains_key(a) && post.tiles.contains_key(b) && a != b
            && post.tiles[a].texture_id == post.tiles[b].texture_id implies post.tiles[a].tile_id
        != post.tiles[b].tile_id by {
        assert(pre.tiles.contains_key(a) && pre.tiles.contains_key(b));
    }
    assert forall|other: AtlasTextureId| (#[trigger] post.texture(other)) is Some implies post.texture(
        other,
    )->0.live_atlas_keys == post.keys_on(other).len() by {
        lemma_keys_on_remove(pre, post, key, other);
        if other != id {
            assert(post.texture(other) == pre.texture(other));
        }
    }
}

/// What waits after a release waits for an active frame.
proof fn lemma_kept_wait<T>(list: ListModel<T>, post: ListModel<T>, active: Set<u64>)
    requires
        list.releases(post, oldest(active)),
    ensures
        post.retired_wait(active),
{
    assert forall|i: int, j: int|
        0 <= i < post.slots.len() && post.slots[i] is Some && 0 <= j
            < post.slots[i]->0.retired.len() implies waits_for(
        active,
        (#[trigger] post.slots[i]->0.retired[j]).0,
    ) by {
        assert(list.slots[i] is Some);
        let entry = post.slots[i]->0.retired[j];
        lemma_filtered_entry(
            list.slots[i]->0.retired,
            |entry: (u64, TileId)| must_wait(oldest(active), entry.0),
            j,
        );
        waiting_for_the_oldest_is_enough(active, entry.0);
    }
}

/// An entry that passed a filter is one of the entries and passes.
proof fn lemma_filtered_entry(
    entries: Seq<(u64, TileId)>,
    keeps: spec_fn((u64, TileId)) -> bool,
    i: int,
)
    requires
        0 <= i < entries.filter(keeps).len(),
    ensures
        entries.contains(entries.filter(keeps)[i]),
        keeps(entries.filter(keeps)[i]),
{
    let kept = entries.filter(keeps);
    assert(kept.contains(kept[i]));
    entries.lemma_filter_contains_rev(keeps, kept[i]);
    entries.lemma_filter_pred(keeps, i);
}

/// A texture that releases what no longer waits keeps everything that a key holds.
proof fn lemma_release_keeps_tiles<T>(
    pre: AtlasModel<T>,
    post: AtlasModel<T>,
    serial: u64,
    key: AtlasKey,
)
    requires
        pre.valid(),
        pre.completes(post, serial),
        pre.tiles.contains_key(key),
    ensures
        post.tile_valid(key),
{
    let tile = pre.tiles[key];
    let first = oldest(pre.active.remove(serial));
    assert(pre.tile_valid(key));
    let before = pre.texture(tile.texture_id)->0;
    let kind = tile.texture_id.kind;
    let slot = tile.texture_id.index as int;
    assert(pre.list(kind).slots[slot] is Some);
    assert(pre.list(kind).releases(post.list(kind), first));
    let after = post.texture(tile.texture_id)->0;
    assert(before.releases(after, first));
    assert(!released_ids(before.retired, first).contains(tile.tile_id)) by {
        if released_ids(before.retired, first).contains(tile.tile_id) {
            let j = choose|j: int|
                0 <= j < before.retired.len() && (#[trigger] before.retired[j]).1 == tile.tile_id
                    && !must_wait(first, before.retired[j].0);
            assert(before.retired[j].1 != tile.tile_id);
        }
    }
    assert forall|i: int| 0 <= i < after.retired.len() implies (#[trigger] after.retired[i]).1
        != tile.tile_id by {
        lemma_filtered_entry(
            before.retired,
            |entry: (u64, TileId)| must_wait(first, entry.0),
            i,
        );
        let j = choose|j: int| 0 <= j < before.retired.len() && before.retired[j] == after.retired[i];
        assert(before.retired[j].1 != tile.tile_id);
    }
}

/// An atlas stays valid when a frame is complete.
pub(crate) proof fn lemma_completed_is_valid<T>(
    pre: AtlasModel<T>,
    post: AtlasModel<T>,
    serial: u64,
)
    requires
        pre.valid(),
        pre.completes(post, serial),
        post.monochrome.well_formed(AtlasTextureKind::Monochrome),
        post.polychrome.well_formed(AtlasTextureKind::Polychrome),
    ensures
        post.valid(),
{
    let active = pre.active.remove(serial);
    lemma_kept_wait(pre.monochrome, post.monochrome, active);
    lemma_kept_wait(pre.polychrome, post.polychrome, active);
    assert forall|key: AtlasKey| #[trigger] post.tiles.contains_key(key) implies post.tile_valid(
        key,
    ) by {
        lemma_release_keeps_tiles(pre, post, serial, key);
    }
    assert forall|id: AtlasTextureId| (#[trigger] post.texture(id)) is Some implies post.texture(
        id,
    )->0.live_atlas_keys == post.keys_on(id).len() by {
        let first = oldest(active);
        assert(pre.list(id.kind).releases(post.list(id.kind), first));
        assert(pre.list(id.kind).slots[id.index as int] is Some);
        assert(pre.texture(id) is Some);
        assert(post.keys_on(id) =~= pre.keys_on(id));
    }
}

/// An atlas stays valid when a frame begins.
pub(crate) proof fn lemma_begun_is_valid<T>(pre: AtlasModel<T>, post: AtlasModel<T>)
    requires
        pre.valid(),
        pre.next_frame < u64::MAX,
        pre.begins(post),
    ensures
        post.valid(),
{
    assert forall|serial: u64| waits_for(pre.active, serial) implies #[trigger] waits_for(
        post.active,
        serial,
    ) by {
        let frame = choose|frame: u64| #[trigger] pre.active.contains(frame) && frame <= serial;
        assert(post.active.contains(frame));
    }
    assert forall|key: AtlasKey| #[trigger] post.tiles.contains_key(key) implies post.tile_valid(
        key,
    ) by {
        assert(pre.tile_valid(key));
        assert(post.texture(pre.tiles[key].texture_id) == pre.texture(pre.tiles[key].texture_id));
    }
    assert forall|id: AtlasTextureId| (#[trigger] post.texture(id)) is Some implies post.texture(
        id,
    )->0.live_atlas_keys == post.keys_on(id).len() by {
        assert(pre.texture(id) is Some);
        assert(post.keys_on(id) =~= pre.keys_on(id));
    }
}

/// A tile that is granted leaves what waits as it is.
pub(crate) proof fn lemma_granted_tile_keeps_counts<T>(
    pre: AtlasModel<T>,
    post: AtlasModel<T>,
    kind: AtlasTextureKind,
    i: int,
    texture: TextureModel<T>,
)
    requires
        pre.textures_valid(),
        kind != AtlasTextureKind::Subpixel,
        pre.list(kind).has_texture(i),
        texture.retired == pre.list(kind).slots[i]->0.retired,
        post == pre.with_list(
            kind,
            ListModel {
                slots: pre.list(kind).slots.update(i, Some(texture)),
                free: pre.list(kind).free,
            },
        ),
        post.list(kind).well_formed(kind),
    ensures
        post.textures_valid(),
{
    let list = pre.list(kind);
    lemma_total_retired_update(list.slots, i, Some(texture));
    assert forall|k: int, j: int|
        0 <= k < post.list(kind).slots.len() && post.list(kind).slots[k] is Some && 0 <= j
            < post.list(kind).slots[k]->0.retired.len() implies waits_for(
        post.active,
        (#[trigger] post.list(kind).slots[k]->0.retired[j]).0,
    ) by {
        assert(waits_for(pre.active, list.slots[k]->0.retired[j].0));
    }
}

/// A texture that is added has nothing that waits.
pub(crate) proof fn lemma_added_texture_keeps_counts<T>(
    pre: AtlasModel<T>,
    post: AtlasModel<T>,
    kind: AtlasTextureKind,
    texture: TextureModel<T>,
)
    requires
        pre.textures_valid(),
        kind != AtlasTextureKind::Subpixel,
        texture.retired.len() == 0,
        post == pre.with_list(kind, pre.list(kind).with_texture(texture)),
        post.list(kind).well_formed(kind),
    ensures
        post.textures_valid(),
{
    let list = pre.list(kind);
    let added = post.list(kind);
    let slot = list.next_slot();
    if list.free.len() > 0 {
        assert(list.free[list.free.len() - 1] == slot);
        lemma_total_retired_update(list.slots, slot, Some(texture));
    } else {
        lemma_total_retired_push(list.slots, Some(texture));
    }
    assert forall|i: int, j: int|
        0 <= i < added.slots.len() && added.slots[i] is Some && 0 <= j
            < added.slots[i]->0.retired.len() implies waits_for(
        post.active,
        (#[trigger] added.slots[i]->0.retired[j]).0,
    ) by {
        assert(i != slot);
        assert(added.slots[i] == list.slots[i]);
        assert(waits_for(pre.active, list.slots[i]->0.retired[j].0));
    }
}

} // verus!
