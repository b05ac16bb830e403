//! The textures of one kind, in slots that are used again when a texture goes.
use vstd::prelude::*;

use crate::allocator::{answer, extent, rectangles_are_no_more_than_pixels};
use crate::atlas_types::{AtlasTextureId, AtlasTextureKind, AtlasTile, TileId};
use crate::frames::waits_for;
use crate::geometry::Size;
use crate::texture::{
    lemma_packed_after_removal, spec_texture_size, spec_tile, MetalAtlasTexture, TextureModel,
    DEFAULT_ATLAS_SIDE, MAX_ATLAS_SIDE,
};

verus! {

/// Textures of one kind and the slots that are free.
pub struct AtlasTextureList<T> {
    textures: Vec<Option<MetalAtlasTexture<T>>>,
    free_list: Vec<usize>,
}

/// A list of textures as the contracts see it.
pub struct ListModel<T> {
    pub slots: Seq<Option<TextureModel<T>>>,
    /// The free slots, in the order in which they became free.
    pub free: Seq<usize>,
}

/// How many allocations wait for the GPU in all the textures of a list.
pub open spec fn total_retired<T>(slots: Seq<Option<TextureModel<T>>>) -> nat
    decreases slots.len(),
{
    if slots.len() == 0 {
        0
    } else {
        total_retired(slots.drop_last()) + retired_in(slots.last())
    }
}

/// How many allocations wait for the GPU in a slot.
pub open spec fn retired_in<T>(slot: Option<TextureModel<T>>) -> nat {
    match slot {
        Some(texture) => texture.retired.len(),
        None => 0,
    }
}

/// True of a size that some texture can hold.
pub open spec fn can_be_placed(size: Size) -> bool {
    1 <= size.width.0 <= MAX_ATLAS_SIDE && 1 <= size.height.0 <= MAX_ATLAS_SIDE
}

pub(crate) proof fn lemma_total_retired_update<T>(
    slots: Seq<Option<TextureModel<T>>>,
    i: int,
    slot: Option<TextureModel<T>>,
)
    requires
        0 <= i < slots.len(),
    ensures
        total_retired(slots.update(i, slot)) + retired_in(slots[i]) == total_retired(slots)
            + retired_in(slot),
    decreases slots.len(),
{
    let updated = slots.update(i, slot);
    if i == slots.len() - 1 {
        assert(updated.drop_last() =~= slots.drop_last());
    } else {
        lemma_total_retired_update(slots.drop_last(), i, slot);
        assert(updated.drop_last() =~= slots.drop_last().update(i, slot));
    }
}

pub(crate) proof fn lemma_total_retired_push<T>(
    slots: Seq<Option<TextureModel<T>>>,
    slot: Option<TextureModel<T>>,
)
    ensures
        total_retired(slots.push(slot)) == total_retired(slots) + retired_in(slot),
{
    assert(slots.push(slot).drop_last() =~= slots);
}

/// No texture has more that waits than it has pixels.
proof fn lemma_retired_bounded<T>(texture: TextureModel<T>)
    requires
        texture.well_formed(),
    ensures
        texture.retired.len() <= 0x1000_0000,
{
    rectangles_are_no_more_than_pixels(texture.allocator);
    let w = extent(texture.allocator).width.0 as int;
    let h = extent(texture.allocator).height.0 as int;
    assert(w * h <= 0x1000_0000) by (nonlinear_arith)
        requires
            0 <= w <= 16384,
            0 <= h <= 16384,
    ;
}

/// What waits in all the textures of a list can be counted in 64 bits, twice over.
pub(crate) proof fn lemma_total_retired_bounded<T>(slots: Seq<Option<TextureModel<T>>>)
    requires
        slots.len() <= u32::MAX + 1,
        forall|i: int|
            0 <= i < slots.len() && (#[trigger] slots[i]) is Some ==> slots[i]->0.well_formed(),
    ensures
        total_retired(slots) <= slots.len() * 0x1000_0000,
        total_retired(slots) <= 0x1000_0000_0000_0000,
    decreases slots.len(),
{
    if slots.len() > 0 {
        let rest = slots.drop_last();
        assert forall|i: int| 0 <= i < rest.len() && (#[trigger] rest[i]) is Some implies rest[i]
            ->0.well_formed() by {
            assert(rest[i] == slots[i]);
        }
        lemma_total_retired_bounded(rest);
        let last = slots[slots.len() - 1];
        if last is Some {
            lemma_retired_bounded(last->0);
        }
    }
}

impl<T> ListModel<T> {
    /// True of a list whose textures are in order, each in the slot that its
    /// name gives, and whose free slots are just the empty ones.
    pub open spec fn well_formed(self, kind: AtlasTextureKind) -> bool {
        &&& kind != AtlasTextureKind::Subpixel
        &&& self.slots.len() <= u32::MAX + 1
        &&& forall|i: int|
            0 <= i < self.slots.len() ==> ((#[trigger] self.slots[i]) matches Some(texture)
                ==> texture.well_formed() && texture.id == (AtlasTextureId {
                index: i as u32,
                kind,
            }))
        &&& self.free_slots_are_empty()
        &&& forall|i: int|
            0 <= i < self.slots.len() && (#[trigger] self.slots[i]) is None
                ==> self.free.contains(i as usize)
    }

    /// True if every free slot is an empty one and none stands twice.
    pub open spec fn free_slots_are_empty(self) -> bool {
        &&& forall|i: int|
            0 <= i < self.free.len() ==> (#[trigger] self.free[i]) < self.slots.len()
                && self.slots[self.free[i] as int] is None
        &&& self.free.no_duplicates()
    }

    /// True if every retired allocation waits for a frame that is active.
    pub open spec fn retired_wait(self, active: Set<u64>) -> bool {
        forall|i: int, j: int|
            0 <= i < self.slots.len() && self.slots[i] is Some && 0 <= j
                < self.slots[i]->0.retired.len() ==> waits_for(
                active,
                (#[trigger] self.slots[i]->0.retired[j]).0,
            )
    }

    /// True if one more texture can be named.
    pub open spec fn has_room(self) -> bool {
        self.free.len() > 0 || self.slots.len() <= u32::MAX
    }

    /// True if every texture can count one more allocation.
    pub open spec fn can_place(self) -> bool {
        forall|i: int| self.has_texture(i) ==> (#[trigger] self.slots[i])->0.can_place()
    }

    /// True of a slot that holds a texture.
    pub open spec fn has_texture(self, i: int) -> bool {
        0 <= i < self.slots.len() && self.slots[i] is Some
    }

    /// True of a slot whose texture has room for a tile of a size.
    pub open spec fn fits(self, i: int, size: Size) -> bool {
        self.has_texture(i) && answer(self.slots[i]->0.allocator, size) is Some
    }

    /// True if some texture has room for a tile of a size.
    pub open spec fn fits_somewhere(self, size: Size) -> bool {
        exists|i: int| #[trigger] self.fits(i, size)
    }

    /// True of a slot whose texture is asked for room for a tile of a size: no
    /// texture behind it has the room.
    pub open spec fn is_asked(self, i: int, size: Size) -> bool {
        self.has_texture(i) && forall|j: int| i < j ==> !(#[trigger] self.fits(j, size))
    }

    /// True if every texture that is asked for room for a tile of a size can
    /// count one more allocation.
    pub open spec fn can_be_asked(self, size: Size) -> bool {
        forall|i: int| #[trigger] self.is_asked(i, size) ==> self.slots[i]->0.can_place()
    }

    /// True of the last slot whose texture has room.
    pub open spec fn is_last_fit(self, i: int, size: Size) -> bool {
        self.fits(i, size) && forall|j: int| i < j ==> !(#[trigger] self.fits(j, size))
    }

    /// The slot that the next new texture takes: the one that became free last,
    /// or else a new one at the end.
    pub open spec fn next_slot(self) -> int {
        if self.free.len() > 0 {
            self.free.last() as int
        } else {
            self.slots.len() as int
        }
    }

    /// The list with one more texture in the next slot.
    pub open spec fn with_texture(self, texture: TextureModel<T>) -> ListModel<T> {
        if self.free.len() > 0 {
            ListModel {
                slots: self.slots.update(self.next_slot(), Some(texture)),
                free: self.free.drop_last(),
            }
        } else {
            ListModel { slots: self.slots.push(Some(texture)), free: self.free }
        }
    }

    /// True if the list became `post` when the texture in slot `i` became
    /// `texture` and granted a tile.
    pub open spec fn grants_at(
        self,
        post: ListModel<T>,
        i: int,
        texture: TextureModel<T>,
        size: Size,
        tile: Option<AtlasTile>,
    ) -> bool {
        let before = self.slots[i]->0;
        let allocation = answer(before.allocator, size)->0;
        &&& before.grants(texture, allocation, size)
        &&& tile == Some(spec_tile(before.id, allocation, size))
        &&& post == (ListModel { slots: self.slots.update(i, Some(texture)), free: self.free })
    }

    /// True if the list became `post` when a texture that was there granted a
    /// tile: the last one with room, and no other.
    pub open spec fn serves_from_old(
        self,
        post: ListModel<T>,
        size: Size,
        tile: Option<AtlasTile>,
    ) -> bool {
        exists|i: int, texture: TextureModel<T>|
            self.is_last_fit(i, size) && #[trigger] self.grants_at(post, i, texture, size, tile)
    }

    /// True if the list became `post` when the texture `fresh` was added, became
    /// `texture` and granted a tile.
    pub open spec fn adds_and_grants(
        self,
        post: ListModel<T>,
        fresh: TextureModel<T>,
        texture: TextureModel<T>,
        size: Size,
        tile: Option<AtlasTile>,
    ) -> bool {
        let allocation = answer(fresh.allocator, size)->0;
        &&& answer(fresh.allocator, size) is Some
        &&& fresh.grants(texture, allocation, size)
        &&& tile == Some(spec_tile(fresh.id, allocation, size))
        &&& post == self.with_texture(texture)
    }

    /// True if the list became `post` when the texture `fresh` was added for a
    /// tile: it grants the tile if any texture can hold it, and else stays empty.
    pub open spec fn serves_with(
        self,
        post: ListModel<T>,
        fresh: TextureModel<T>,
        size: Size,
        tile: Option<AtlasTile>,
    ) -> bool {
        if can_be_placed(size) {
            exists|texture: TextureModel<T>| #[trigger]
                self.adds_and_grants(post, fresh, texture, size, tile)
        } else {
            tile is None && post == self.with_texture(fresh)
        }
    }

    /// True if the list became `post` when no texture had room for a tile and
    /// one with the handle `metal_texture` was added for it.
    pub open spec fn serves_from_new(
        self,
        post: ListModel<T>,
        kind: AtlasTextureKind,
        size: Size,
        metal_texture: T,
        tile: Option<AtlasTile>,
    ) -> bool {
        exists|fresh: TextureModel<T>|
            {
                &&& fresh.is_fresh(
                    AtlasTextureId { index: self.next_slot() as u32, kind },
                    spec_texture_size(size),
                    metal_texture,
                )
                &&& #[trigger] self.serves_with(post, fresh, size, tile)
            }
    }

    /// True if the list became `post` when each texture gave back what no
    /// longer has to wait.
    pub open spec fn releases(self, post: ListModel<T>, first_active: Option<u64>) -> bool {
        &&& post.free == self.free
        &&& post.slots.len() == self.slots.len()
        &&& forall|i: int|
            0 <= i < self.slots.len() ==> match (#[trigger] self.slots[i]) {
                Some(texture) => post.slots[i] is Some && texture.releases(
                    post.slots[i]->0,
                    first_active,
                ),
                None => post.slots[i] is None,
            }
    }

    /// True if the list became `post` when a key gave up the allocation
    /// `tile_id` of the texture in slot `i`. The texture goes with its last key.
    /// Else the allocation waits for the frame `retire_after`, or is given back
    /// at once if there is none.
    pub open spec fn gives_up(
        self,
        post: ListModel<T>,
        i: int,
        tile_id: TileId,
        retire_after: Option<u64>,
    ) -> bool {
        let texture = self.slots[i]->0;
        if texture.live_atlas_keys == 1 {
            post == (ListModel {
                slots: self.slots.update(i, None),
                free: self.free.push(i as usize),
            })
        } else {
            exists|kept: TextureModel<T>|
                {
                    &&& #[trigger] texture.gives_up(kept, tile_id, retire_after)
                    &&& post == (ListModel {
                        slots: self.slots.update(i, Some(kept)),
                        free: self.free,
                    })
                }
        }
    }
}

impl<T> View for AtlasTextureList<T> {
    type V = ListModel<T>;

    closed spec fn view(&self) -> ListModel<T> {
        ListModel {
            slots: Seq::new(
                self.textures@.len(),
                |i: int|
                    match self.textures@[i] {
                        Some(texture) => Some(texture@),
                        None => None,
                    },
            ),
            free: self.free_list@,
        }
    }
}

impl<T> AtlasTextureList<T> {
    /// A list without textures.
    pub fn new() -> (list: Self)
        ensures
            list@.slots.len() == 0,
            list@.free.len() == 0,
    {
        AtlasTextureList { textures: Vec::new(), free_list: Vec::new() }
    }

    /// Tells whether one more texture can be named.
    pub fn has_room(&self) -> (room: bool)
        ensures
            room == self@.has_room(),
    {
        self.free_list.len() > 0 || self.textures.len() as u64 <= u32::MAX as u64
    }

    /// Tells whether every texture can count one more allocation.
    pub fn can_place(&self) -> (can: bool)
        ensures
            can == self@.can_place(),
    {
        let mut i: usize = 0;
        while i < self.textures.len()
            invariant
                i <= self.textures@.len(),
                self.textures@.len() == self@.slots.len(),
                forall|j: int| 0 <= j < i && self@.has_texture(j) ==> (
                #[trigger] self@.slots[j])->0.can_place(),
            decreases self.textures@.len() - i,
        {
            assert(self@.slots[i as int] == match self.textures@[i as int] {
                Some(texture) => Some(texture@),
                None => None,
            });
            if let Some(texture) = &self.textures[i] {
                if !texture.can_place() {
                    assert(self@.has_texture(i as int));
                    return false;
                }
            }
            i += 1;
        }
        true
    }

    /// Takes room for a tile from the last texture that has it.
    pub fn allocate(&mut self, kind: AtlasTextureKind, size: Size) -> (tile: Option<AtlasTile>)
        requires
            old(self)@.well_formed(kind),
            old(self)@.can_be_asked(size),
        ensures
            final(self)@.well_formed(kind),
            tile is Some <==> old(self)@.fits_somewhere(size),
            tile is Some ==> old(self)@.serves_from_old(final(self)@, size, tile)
                && can_be_placed(size),
            tile is None ==> final(self)@ == old(self)@,
    {
        let mut i: usize = self.textures.len();
        let ghost pre = self@;
        while i > 0
            invariant
                pre == old(self)@,
                self@ == pre,
                pre.well_formed(kind),
                pre.can_be_asked(size),
                i <= pre.slots.len(),
                self.textures@.len() == pre.slots.len(),
                forall|j: int| i <= j ==> !(#[trigger] pre.fits(j, size)),
            decreases i,
        {
            i -= 1;
            let ghost textures = self.textures@;
            assert(pre.slots[i as int] == match textures[i as int] {
                Some(texture) => Some(texture@),
                None => None,
            });
            assert(pre.has_texture(i as int) ==> pre.is_asked(i as int, size));
            let tile = match &mut self.textures[i] {
                Some(texture) => texture.allocate(size),
                None => None,
            };
            if tile.is_some() {
                proof {
                    let texture = self.textures@[i as int]->0@;
                    assert(self@.slots =~= pre.slots.update(i as int, Some(texture)));
                    assert(pre.is_last_fit(i as int, size));
                    assert(pre.grants_at(self@, i as int, texture, size, tile));
                    lemma_update_keeps_order(pre, i as int, texture, kind);
                }
                return tile;
            }
            proof {
                assert(self@.slots =~= pre.slots);
            }
        }
        None
    }

    /// Adds a texture of a size with the handle that the device gave it, and
    /// tells its slot.
    pub fn push(&mut self, kind: AtlasTextureKind, size: Size, metal_texture: T) -> (slot: usize)
        requires
            old(self)@.well_formed(kind),
            old(self)@.has_room(),
            DEFAULT_ATLAS_SIDE <= size.width.0 <= MAX_ATLAS_SIDE,
            DEFAULT_ATLAS_SIDE <= size.height.0 <= MAX_ATLAS_SIDE,
        ensures
            final(self)@.well_formed(kind),
            slot == old(self)@.next_slot(),
            final(self)@.has_texture(slot as int),
            final(self)@ == old(self)@.with_texture(final(self)@.slots[slot as int]->0),
            final(self)@.slots[slot as int]->0.is_fresh(
                AtlasTextureId { index: slot as u32, kind },
                size,
                metal_texture,
            ),
    {
        let ghost pre = self@;
        match self.free_list.pop() {
            Some(slot) => {
                proof {
                    assert(pre.free[pre.free.len() - 1] == slot);
                }
                let id = AtlasTextureId { index: slot as u32, kind };
                let texture = MetalAtlasTexture::new(id, size, metal_texture);
                let ghost model = texture@;
                self.textures[slot] = Some(texture);
                proof {
                    assert(self@.slots =~= pre.slots.update(slot as int, Some(model)));
                    lemma_new_texture_keeps_order(pre, model, kind);
                }
                slot
            },
            None => {
                let slot: usize = self.textures.len();
                let id = AtlasTextureId { index: slot as u32, kind };
                let texture = MetalAtlasTexture::new(id, size, metal_texture);
                let ghost model = texture@;
                self.textures.push(Some(texture));
                proof {
                    assert(self@.slots =~= pre.slots.push(Some(model)));
                    lemma_new_texture_keeps_order(pre, model, kind);
                }
                slot
            },
        }
    }

    /// Takes room for a tile from the texture in a slot.
    pub fn allocate_in(&mut self, kind: AtlasTextureKind, slot: usize, size: Size) -> (tile: Option<
        AtlasTile,
    >)
        requires
            old(self)@.well_formed(kind),
            old(self)@.has_texture(slot as int),
            old(self)@.slots[slot as int]->0.can_place(),
        ensures
            final(self)@.well_formed(kind),
            final(self)@.has_texture(slot as int),
            final(self)@ == (ListModel {
                slots: old(self)@.slots.update(slot as int, final(self)@.slots[slot as int]),
                free: old(self)@.free,
            }),
            match answer(old(self)@.slots[slot as int]->0.allocator, size) {
                Some(allocation) => {
                    &&& tile == Some(spec_tile(old(self)@.slots[slot as int]->0.id, allocation, size))
                    &&& old(self)@.slots[slot as int]->0.grants(
                        final(self)@.slots[slot as int]->0,
                        allocation,
                        size,
                    )
                },
                None => tile is None && final(self)@ == old(self)@,
            },
            !(size.covers_pixels() && size.fits_in(
                extent(old(self)@.slots[slot as int]->0.allocator),
            )) ==> tile is None,
    {
        let ghost pre = self@;
        let tile = match &mut self.textures[slot] {
            Some(texture) => texture.allocate(size),
            None => None,
        };
        proof {
            let texture = self.textures@[slot as int]->0@;
            assert(self@.slots =~= pre.slots.update(slot as int, Some(texture)));
            lemma_update_keeps_order(pre, slot as int, texture, kind);
            if tile is None {
                assert(self@.slots =~= pre.slots);
            }
        }
        tile
    }

    /// The texture in a slot.
    pub fn texture(&self, slot: usize) -> (texture: &MetalAtlasTexture<T>)
        requires
            self@.has_texture(slot as int),
        ensures
            texture@ == self@.slots[slot as int]->0,
    {
        self.textures[slot].as_ref().unwrap()
    }

    /// Gives back in every texture what no active frame can sample any more,
    /// and takes it off the count `pending` of what waits.
    pub fn release_retired(
        &mut self,
        kind: AtlasTextureKind,
        first_active: Option<u64>,
        pending: u64,
    ) -> (left: u64)
        requires
            old(self)@.well_formed(kind),
            total_retired(old(self)@.slots) <= pending,
        ensures
            final(self)@.well_formed(kind),
            old(self)@.releases(final(self)@, first_active),
            left == pending - total_retired(old(self)@.slots) + total_retired(final(self)@.slots),
    {
        let ghost pre = self@;
        let mut left: u64 = pending;
        let mut i: usize = 0;
        while i < self.textures.len()
            invariant
                i <= self.textures@.len(),
                self.textures@.len() == pre.slots.len(),
                pre.well_formed(kind),
                self@.well_formed(kind),
                self@.free == pre.free,
                self@.slots.len() == pre.slots.len(),
                forall|j: int| i <= j < pre.slots.len() ==> self@.slots[j] == pre.slots[j],
                forall|j: int|
                    0 <= j < i ==> match (#[trigger] pre.slots[j]) {
                        Some(texture) => self@.slots[j] is Some && texture.releases(
                            self@.slots[j]->0,
                            first_active,
                        ),
                        None => self@.slots[j] is None,
                    },
                total_retired(self@.slots) <= left,
                left == pending - total_retired(pre.slots) + total_retired(self@.slots),
            decreases self.textures.len() - i,
        {
            let ghost before = self@;
            assert(before.slots[i as int] == pre.slots[i as int]);
            let released: usize = match &mut self.textures[i] {
                Some(texture) => {
                    let released: usize = texture.release_retired(first_active);
                    released
                },
                None => 0,
            };
            proof {
                let slot = self@.slots[i as int];
                assert(self@.slots =~= before.slots.update(i as int, slot));
                lemma_total_retired_update(before.slots, i as int, slot);
                if before.slots[i as int] is Some {
                    lemma_update_keeps_order(before, i as int, slot->0, kind);
                } else {
                    assert(self@.slots =~= before.slots);
                }
            }
            left -= released as u64;
            i += 1;
        }
        left
    }

    /// Has a key give up its allocation in the texture of a slot: the texture
    /// goes with its last key, and else the allocation waits for the frame
    /// `retire_after`, or is given back at once if there is none. Tells how many
    /// allocations of the slot waited before and wait now.
    pub fn give_up(
        &mut self,
        kind: AtlasTextureKind,
        slot: usize,
        tile_id: TileId,
        retire_after: Option<u64>,
    ) -> (waiting: (usize, usize))
        requires
            old(self)@.well_formed(kind),
            old(self)@.has_texture(slot as int),
            old(self)@.slots[slot as int]->0.live_atlas_keys > 0,
            old(self)@.slots[slot as int]->0.rectangles().contains_key(tile_id),
            forall|i: int|
                0 <= i < old(self)@.slots[slot as int]->0.retired.len() ==> (
                #[trigger] old(self)@.slots[slot as int]->0.retired[i]).1 != tile_id,
        ensures
            final(self)@.well_formed(kind),
            old(self)@.gives_up(final(self)@, slot as int, tile_id, retire_after),
            waiting.0 == retired_in(old(self)@.slots[slot as int]),
            waiting.1 == retired_in(final(self)@.slots[slot as int]),
    {
        let ghost pre = self@;
        let mut previously_pending: usize = 0;
        let mut pending: usize = 0;
        let mut unreferenced = false;
        assert(pre.slots[slot as int] is Some);
        match &mut self.textures[slot] {
            Some(texture) => {
                previously_pending = texture.retired_len();
                texture.decrement_ref_count();
                if texture.is_unreferenced() {
                    unreferenced = true;
                } else {
                    match retire_after {
                        Some(serial) => {
                            texture.retire(serial, tile_id);
                        },
                        None => {
                            texture.deallocate(tile_id);
                        },
                    }
                    pending = texture.retired_len();
                }
            },
            None => {},
        }
        if unreferenced {
            self.textures[slot] = None;
            self.free_list.push(slot);
            proof {
                assert(self@.slots =~= pre.slots.update(slot as int, None));
                lemma_emptied_slot_keeps_order(pre, slot, kind);
            }
        } else {
            proof {
                let texture = pre.slots[slot as int]->0;
                let kept = self@.slots[slot as int]->0;
                assert(self@.slots =~= pre.slots.update(slot as int, Some(kept)));
                assert(texture.gives_up(kept, tile_id, retire_after));
                lemma_given_up_keeps_order(texture, kept, tile_id, retire_after);
                lemma_update_keeps_order(pre, slot as int, kept, kind);
            }
        }
        (previously_pending, pending)
    }

    /// Tells whether a slot holds a texture.
    pub fn has_texture(&self, slot: usize) -> (held: bool)
        ensures
            held == self@.has_texture(slot as int),
    {
        slot < self.textures.len() && self.textures[slot].is_some()
    }
}

/// A list stays in order when a texture changes in place.
pub(crate) proof fn lemma_update_keeps_order<T>(
    list: ListModel<T>,
    i: int,
    texture: TextureModel<T>,
    kind: AtlasTextureKind,
)
    requires
        list.well_formed(kind),
        list.has_texture(i),
        texture.well_formed(),
        texture.id == list.slots[i]->0.id,
    ensures
        (ListModel { slots: list.slots.update(i, Some(texture)), free: list.free }).well_formed(kind),
{
    let post = ListModel { slots: list.slots.update(i, Some(texture)), free: list.free };
    assert forall|j: int| 0 <= j < post.slots.len() implies ((
    #[trigger] post.slots[j]) matches Some(t) ==> t.well_formed() && t.id == (AtlasTextureId {
        index: j as u32,
        kind,
    })) by {
        assert(list.slots[j] is Some ==> list.slots[j]->0.well_formed());
    }
    assert forall|j: int| 0 <= j < post.free.len() implies (#[trigger] post.free[j])
        < post.slots.len() && post.slots[post.free[j] as int] is None by {
        assert(list.slots[list.free[j] as int] is None);
    }
    assert forall|j: int|
        0 <= j < post.slots.len() && (#[trigger] post.slots[j]) is None implies post.free.contains(
        j as usize,
    ) by {
        assert(list.slots[j] is None);
    }
}

/// A texture stays in order when a key gives up its allocation.
pub(crate) proof fn lemma_given_up_keeps_order<T>(
    pre: TextureModel<T>,
    post: TextureModel<T>,
    tile_id: TileId,
    retire_after: Option<u64>,
)
    requires
        pre.well_formed(),
        pre.live_atlas_keys > 0,
        pre.rectangles().contains_key(tile_id),
        forall|i: int| 0 <= i < pre.retired.len() ==> (#[trigger] pre.retired[i]).1 != tile_id,
        pre.gives_up(post, tile_id, retire_after),
    ensures
        post.well_formed(),
{
    if retire_after is Some {
        assert forall|i: int| 0 <= i < post.retired.len() implies post.rectangles().contains_key(
            (#[trigger] post.retired[i]).1,
        ) by {
            if i < pre.retired.len() {
                assert(post.retired[i] == pre.retired[i]);
            }
        }
        assert forall|i: int, j: int| 0 <= i < j < post.retired.len() implies (
        #[trigger] post.retired[i]).1 != (#[trigger] post.retired[j]).1 by {
            assert(post.retired[i] == pre.retired[i]);
            if j < pre.retired.len() {
                assert(post.retired[j] == pre.retired[j]);
            }
        }
    } else {
        lemma_packed_after_removal(pre.allocator, post.allocator);
    }
}

/// A list stays in order when a slot is emptied.
pub(crate) proof fn lemma_emptied_slot_keeps_order<T>(list: ListModel<T>, slot: usize, kind: AtlasTextureKind)
    requires
        list.well_formed(kind),
        list.has_texture(slot as int),
    ensures
        (ListModel {
            slots: list.slots.update(slot as int, None),
            free: list.free.push(slot),
        }).well_formed(kind),
{
    let post = ListModel {
        slots: list.slots.update(slot as int, None),
        free: list.free.push(slot),
    };
    assert forall|j: int| 0 <= j < post.slots.len() implies ((
    #[trigger] post.slots[j]) matches Some(t) ==> t.well_formed() && t.id == (AtlasTextureId {
        index: j as u32,
        kind,
    })) by {
        if j != slot {
            assert(post.slots[j] == list.slots[j]);
        }
    }
    assert forall|j: int| 0 <= j < post.free.len() implies (#[trigger] post.free[j])
        < post.slots.len() && post.slots[post.free[j] as int] is None by {
        if j < list.free.len() {
            assert(post.free[j] == list.free[j]);
            assert(list.slots[list.free[j] as int] is None);
        }
    }
    assert(post.free.no_duplicates()) by {
        assert forall|i: int, j: int|
            0 <= i < post.free.len() && 0 <= j < post.free.len() && i != j implies post.free[i]
            != post.free[j] by {
            if i < list.free.len() {
                assert(list.slots[list.free[i] as int] is None);
            }
            if j < list.free.len() {
                assert(list.slots[list.free[j] as int] is None);
            }
        }
    }
    assert forall|j: int|
        0 <= j < post.slots.len() && (#[trigger] post.slots[j]) is None implies post.free.contains(
        j as usize,
    ) by {
        if j == slot {
            assert(post.free[list.free.len() as int] == slot);
        } else {
            assert(list.slots[j] is None);
            let k = choose|k: int| 0 <= k < list.free.len() && list.free[k] == j as usize;
            assert(post.free[k] == j as usize);
        }
    }
}

/// A list stays in order when a texture is added.
pub(crate) proof fn lemma_new_texture_keeps_order<T>(
    list: ListModel<T>,
    texture: TextureModel<T>,
    kind: AtlasTextureKind,
)
    requires
        list.well_formed(kind),
        list.has_room(),
        texture.well_formed(),
        texture.id == (AtlasTextureId { index: list.next_slot() as u32, kind }),
    ensures
        list.with_texture(texture).well_formed(kind),
{
    let post = list.with_texture(texture);
    let slot = list.next_slot();
    if list.free.len() > 0 {
        assert(list.free[list.free.len() - 1] == slot);
    }
    assert forall|j: int| 0 <= j < post.slots.len() implies ((
    #[trigger] post.slots[j]) matches Some(t) ==> t.well_formed() && t.id == (AtlasTextureId {
        index: j as u32,
        kind,
    })) by {
        if j != slot {
            assert(post.slots[j] == list.slots[j]);
        }
    }
    assert forall|j: int| 0 <= j < post.free.len() implies (#[trigger] post.free[j])
        < post.slots.len() && post.slots[post.free[j] as int] is None by {
        assert(post.free[j] == list.free[j]);
        assert(list.slots[list.free[j] as int] is None);
    }
    assert forall|j: int|
        0 <= j < post.slots.len() && (#[trigger] post.slots[j]) is None implies post.free.contains(
        j as usize,
    ) by {
        assert(j != slot);
        assert(list.slots[j] is None);
        let k = choose|k: int| 0 <= k < list.free.len() && list.free[k] == j as usize;
        assert(post.free[k] == j as usize);
    }
}

} // verus!
