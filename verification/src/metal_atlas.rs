//! The sprite atlas: tiles packed into textures, found again by key, and not
//! overwritten while a frame that may sample them is in flight.
//!
//! The device that makes textures and takes pixels is the caller's. The atlas
//! is told how to reach it by functions that it calls.
use std::collections::BTreeSet;
use vstd::prelude::*;

use crate::allocator::answer;
use crate::atlas_model::{
    lemma_added_texture_keeps_counts, lemma_begun_is_valid, lemma_completed_is_valid,
    lemma_granted_tile_keeps_counts, lemma_placed_is_valid, lemma_removed_is_valid, AtlasModel,
};
use crate::atlas_runs::{performs, stores_with, Operation};
use crate::atlas_types::{AtlasKey, AtlasTextureId, AtlasTextureKind, AtlasTile, TileId};
use crate::frames::{first_frame, last_frame, lemma_newest, lemma_oldest, must_wait};
use crate::geometry::Size;
use crate::texture::{
    released_ids, spec_texture_descriptor, spec_texture_size, spec_upload, texture_descriptor,
    texture_size, MetalAtlasTexture, TextureDescriptor, TextureModel, TextureUpload,
};
use crate::texture_list::{
    can_be_placed, lemma_total_retired_bounded, lemma_total_retired_update, total_retired,
    AtlasTextureList, ListModel,
};
use crate::tile_map::TileMap;

verus! {

broadcast use vstd::std_specs::btree::group_btree_axioms;

/// Why the atlas could not hand out a tile.
#[derive(Debug, PartialEq, Eq)]
pub enum AtlasError<E> {
    /// The pixels could not be made.
    Build(E),
    /// No texture can hold a tile of that size.
    FailedToAllocate,
}

/// The textures, tiles and frames of an atlas. `T` is the handle by which the
/// device knows a texture.
pub struct MetalAtlasState<T> {
    is_apple_gpu: bool,
    monochrome_textures: AtlasTextureList<T>,
    polychrome_textures: AtlasTextureList<T>,
    tiles_by_key: TileMap,
    next_frame: u64,
    active_frames: BTreeSet<u64>,
    pending_allocations: u64,
}

impl<T> View for MetalAtlasState<T> {
    type V = AtlasModel<T>;

    closed spec fn view(&self) -> AtlasModel<T> {
        AtlasModel {
            is_apple_gpu: self.is_apple_gpu,
            monochrome: self.monochrome_textures@,
            polychrome: self.polychrome_textures@,
            tiles: self.tiles_by_key@,
            next_frame: self.next_frame,
            active: self.active_frames@,
            pending: self.pending_allocations as nat,
        }
    }
}

impl<T> MetalAtlasState<T> {
    /// Marks a frame complete: what was retired while it or an older frame was
    /// active, and waits for no other frame, can be allocated again.
    pub fn complete_frame(&mut self, serial: u64)
        requires
            old(self)@.valid(),
            old(self)@.active.contains(serial),
        ensures
            final(self)@.valid(),
            old(self)@.completes(final(self)@, serial),
    {
        let ghost pre = self@;
        self.active_frames.remove(&serial);
        let first_active = first_frame(&self.active_frames);
        proof {
            lemma_oldest(self.active_frames@, first_active);
        }
        if self.pending_allocations == 0 {
            proof {
                lemma_nothing_to_release(pre.monochrome, first_active);
                lemma_nothing_to_release(pre.polychrome, first_active);
                assert(pre.completes(self@, serial));
                lemma_completed_is_valid(pre, self@, serial);
            }
            return ;
        }
        self.pending_allocations = self.monochrome_textures.release_retired(
            AtlasTextureKind::Monochrome,
            first_active,
            self.pending_allocations,
        );
        self.pending_allocations = self.polychrome_textures.release_retired(
            AtlasTextureKind::Polychrome,
            first_active,
            self.pending_allocations,
        );
        proof {
            assert(pre.completes(self@, serial));
            lemma_completed_is_valid(pre, self@, serial);
        }
    }

    /// Takes room for a tile: from the last texture of its kind that has it, or
    /// else from a new one, which `new_texture` has the device make.
    pub fn allocate<C: FnOnce(TextureDescriptor) -> T>(
        &mut self,
        size: Size,
        texture_kind: AtlasTextureKind,
        new_texture: C,
    ) -> (tile: Option<AtlasTile>)
        requires
            old(self)@.textures_valid(),
            old(self)@.can_be_asked(texture_kind, size),
            !old(self)@.list(texture_kind).fits_somewhere(size) ==> call_requires(
                new_texture,
                (spec_texture_descriptor(size, texture_kind, old(self)@.is_apple_gpu),),
            ),
        ensures
            final(self)@.textures_valid(),
            tile is Some <==> can_be_placed(size),
            exists|made: Option<T>|
                {
                    &&& #[trigger] old(self)@.places(final(self)@, texture_kind, size, made, tile)
                    &&& made matches Some(handle) ==> call_ensures(
                        new_texture,
                        (spec_texture_descriptor(size, texture_kind, old(self)@.is_apple_gpu),),
                        handle,
                    )
                },
    {
        let ghost pre = self@;
        let found = match texture_kind {
            AtlasTextureKind::Monochrome => self.monochrome_textures.allocate(texture_kind, size),
            _ => self.polychrome_textures.allocate(texture_kind, size),
        };
        if found.is_some() {
            proof {
                let list = pre.list(texture_kind);
                let (i, texture) = choose|i: int, texture: TextureModel<T>|
                    list.is_last_fit(i, size) && #[trigger] list.grants_at(
                        self@.list(texture_kind),
                        i,
                        texture,
                        size,
                        found,
                    );
                lemma_granted_tile_keeps_counts(pre, self@, texture_kind, i, texture);
                assert(pre.places(self@, texture_kind, size, None, found));
            }
            return found;
        }
        let slot: usize = self.push_texture(size, texture_kind, new_texture);
        let ghost mid = self@;
        let tile = match texture_kind {
            AtlasTextureKind::Monochrome => self.monochrome_textures.allocate_in(
                texture_kind,
                slot,
                size,
            ),
            _ => self.polychrome_textures.allocate_in(texture_kind, slot, size),
        };
        proof {
            let list = pre.list(texture_kind);
            let fresh = mid.list(texture_kind).slots[slot as int]->0;
            let texture = self@.list(texture_kind).slots[slot as int]->0;
            lemma_granted_tile_keeps_counts(mid, self@, texture_kind, slot as int, texture);
            if list.free.len() > 0 {
                assert(list.free[list.free.len() - 1] == slot);
            }
            assert(self@.list(texture_kind).slots =~= list.with_texture(texture).slots);
            if can_be_placed(size) {
                assert(answer(fresh.allocator, size) is Some);
                assert(list.adds_and_grants(
                    self@.list(texture_kind),
                    fresh,
                    texture,
                    size,
                    tile,
                ));
            } else {
                assert(self@ == mid);
            }
            assert(list.serves_with(self@.list(texture_kind), fresh, size, tile));
            assert(pre.places(self@, texture_kind, size, Some(fresh.metal_texture), tile));
        }
        tile
    }

    /// Has the device make a texture that is large enough for `min_size`, as far
    /// as a GPU allows, and puts it in a free slot.
    pub fn push_texture<C: FnOnce(TextureDescriptor) -> T>(
        &mut self,
        min_size: Size,
        kind: AtlasTextureKind,
        new_texture: C,
    ) -> (slot: usize)
        requires
            old(self)@.textures_valid(),
            kind != AtlasTextureKind::Subpixel,
            old(self)@.list(kind).has_room(),
            call_requires(
                new_texture,
                (spec_texture_descriptor(min_size, kind, old(self)@.is_apple_gpu),),
            ),
        ensures
            final(self)@.textures_valid(),
            slot == old(self)@.list(kind).next_slot(),
            final(self)@.list(kind).has_texture(slot as int),
            final(self)@ == old(self)@.with_list(
                kind,
                old(self)@.list(kind).with_texture(
                    final(self)@.list(kind).slots[slot as int]->0,
                ),
            ),
            final(self)@.list(kind).slots[slot as int]->0.is_fresh(
                AtlasTextureId { index: slot as u32, kind },
                spec_texture_size(min_size),
                final(self)@.list(kind).slots[slot as int]->0.metal_texture,
            ),
            call_ensures(
                new_texture,
                (spec_texture_descriptor(min_size, kind, old(self)@.is_apple_gpu),),
                final(self)@.list(kind).slots[slot as int]->0.metal_texture,
            ),
    {
        let ghost pre = self@;
        let size = texture_size(min_size);
        let metal_texture = new_texture(texture_descriptor(min_size, kind, self.is_apple_gpu));
        let slot: usize = match kind {
            AtlasTextureKind::Monochrome => self.monochrome_textures.push(kind, size, metal_texture),
            _ => self.polychrome_textures.push(kind, size, metal_texture),
        };
        proof {
            lemma_added_texture_keeps_counts(
                pre,
                self@,
                kind,
                self@.list(kind).slots[slot as int]->0,
            );
        }
        slot
    }

    /// The texture of a name.
    pub fn texture(&self, id: AtlasTextureId) -> (texture: &MetalAtlasTexture<T>)
        requires
            self@.texture(id) is Some,
        ensures
            Some(texture@) == self@.texture(id),
    {
        match id.kind {
            AtlasTextureKind::Monochrome => self.monochrome_textures.texture(id.index as usize),
            _ => self.polychrome_textures.texture(id.index as usize),
        }
    }
}

/// A cache of tiles, each found by its key.
pub struct MetalAtlas<T> {
    state: MetalAtlasState<T>,
}

impl<T> View for MetalAtlas<T> {
    type V = AtlasModel<T>;

    closed spec fn view(&self) -> AtlasModel<T> {
        self.state@
    }
}

/// A frame that samples the atlas, until it is complete.
#[derive(Debug)]
pub struct MetalAtlasFrame {
    serial: Option<u64>,
}

impl View for MetalAtlasFrame {
    type V = Option<u64>;

    /// The serial number of the frame, until it is complete.
    closed spec fn view(&self) -> Option<u64> {
        self.serial
    }
}

impl MetalAtlasFrame {
    /// Marks the frame complete. To do so again changes nothing.
    pub fn complete<T>(&mut self, atlas: &mut MetalAtlas<T>)
        requires
            old(atlas)@.valid(),
            old(self)@ matches Some(serial) ==> old(atlas)@.active.contains(serial),
        ensures
            final(self)@ is None,
            final(atlas)@.valid(),
            match old(self)@ {
                Some(serial) => {
                    &&& old(atlas)@.completes(final(atlas)@, serial)
                    &&& performs(old(atlas)@, final(atlas)@, Operation::Complete(serial))
                },
                None => final(atlas)@ == old(atlas)@,
            },
    {
        if let Some(serial) = self.serial.take() {
            atlas.state.complete_frame(serial);
        }
    }

    /// Tells whether the frame is complete.
    pub fn is_complete(&self) -> (complete: bool)
        ensures
            complete == (self@ is None),
    {
        self.serial.is_none()
    }
}

impl<T> MetalAtlas<T> {
    /// An atlas without textures, for a device that is or is not an Apple GPU.
    pub fn new(is_apple_gpu: bool) -> (atlas: Self)
        ensures
            atlas@.valid(),
            atlas@ == AtlasModel::<T>::empty(is_apple_gpu),
    {
        let state = MetalAtlasState {
            is_apple_gpu,
            monochrome_textures: AtlasTextureList::new(),
            polychrome_textures: AtlasTextureList::new(),
            tiles_by_key: TileMap::new(),
            next_frame: 0,
            active_frames: BTreeSet::new(),
            pending_allocations: 0,
        };
        proof {
            assert(state@.monochrome.slots =~= Seq::empty());
            assert(state@.monochrome.free =~= Seq::empty());
            assert(state@.polychrome.slots =~= Seq::empty());
            assert(state@.polychrome.free =~= Seq::empty());
            assert(state@ =~= AtlasModel::<T>::empty(is_apple_gpu));
        }
        MetalAtlas { state }
    }

    /// The handle of a texture.
    pub fn metal_texture(&self, id: AtlasTextureId) -> (handle: &T)
        requires
            self@.texture(id) is Some,
        ensures
            *handle == self@.texture(id)->0.metal_texture,
    {
        self.state.texture(id).metal_texture()
    }

    /// Begins a frame. Until it is complete, no pixel is overwritten that has a
    /// key now.
    pub fn begin_frame(&mut self) -> (frame: MetalAtlasFrame)
        requires
            old(self)@.valid(),
            old(self)@.next_frame < u64::MAX,
        ensures
            final(self)@.valid(),
            frame@ == Some(old(self)@.next_frame),
            !old(self)@.active.contains(old(self)@.next_frame),
            old(self)@.begins(final(self)@),
            performs(old(self)@, final(self)@, Operation::Begin),
    {
        let ghost pre = self@;
        let serial: u64 = self.state.next_frame;
        self.state.next_frame = serial + 1;
        self.state.active_frames.insert(serial);
        proof {
            lemma_begun_is_valid(pre, self@);
        }
        MetalAtlasFrame { serial: Some(serial) }
    }

    /// The tile of a key. If the atlas has none, `build` makes the pixels, and
    /// the tile is placed, filled and kept. `new_texture` has the device make a
    /// texture, and is called only if no texture has room; `upload` writes the
    /// pixels to a texture, and is called only if the tile is placed.
    pub fn get_or_insert_with<E, P, B, C, U>(
        &mut self,
        key: &AtlasKey,
        build: B,
        new_texture: C,
        upload: U,
    ) -> (result: Result<Option<AtlasTile>, AtlasError<E>>) where
        B: FnOnce() -> Result<Option<(Size, P)>, E>,
        C: FnOnce(TextureDescriptor) -> T,
        U: FnOnce(&T, TextureUpload, P),

        requires
            old(self)@.valid(),
            !old(self)@.tiles.contains_key(*key) ==> {
                &&& call_requires(build, ())
                &&& forall|size: Size, pixels: P| #[trigger]
                    call_ensures(build, (), Ok::<Option<(Size, P)>, E>(Some((size, pixels)))) ==> {
                        &&& old(self)@.can_be_asked(key.kind, size)
                        &&& !old(self)@.list(key.kind).fits_somewhere(size) ==> call_requires(
                            new_texture,
                            (spec_texture_descriptor(size, key.kind, old(self)@.is_apple_gpu),),
                        )
                        &&& can_be_placed(size) ==> forall|handle: &T, region: TextureUpload|
                            call_requires(upload, (handle, region, pixels))
                    }
            },
        ensures
            final(self)@.valid(),
            performs(old(self)@, final(self)@, Operation::Insert(*key)),
            old(self)@.tiles.contains_key(*key) ==> {
                &&& result == Ok::<_, AtlasError<E>>(Some(old(self)@.tiles[*key]))
                &&& final(self)@ == old(self)@
            },
            !old(self)@.tiles.contains_key(*key) ==> exists|built: Result<Option<(Size, P)>, E>|
                {
                    &&& #[trigger] call_ensures(build, (), built)
                    &&& match built {
                        Err(error) => {
                            &&& result == Err::<Option<AtlasTile>, _>(AtlasError::Build(error))
                            &&& final(self)@ == old(self)@
                        },
                        Ok(None) => {
                            &&& result == Ok::<Option<AtlasTile>, AtlasError<E>>(None)
                            &&& final(self)@ == old(self)@
                        },
                        Ok(Some((size, pixels))) => {
                            &&& old(self)@.inserts(final(self)@, *key, size, new_texture, result)
                            &&& result is Ok <==> can_be_placed(size)
                            &&& result matches Ok(Some(tile)) ==> call_ensures(
                                upload,
                                (
                                    &final(self)@.texture(tile.texture_id)->0.metal_texture,
                                    spec_upload(
                                        tile.bounds,
                                        final(self)@.texture(tile.texture_id)->0.pixel_format,
                                    ),
                                    pixels,
                                ),
                                (),
                            )
                        },
                    }
                },
    {
        let ghost pre = self@;
        if let Some(tile) = self.state.tiles_by_key.get(key) {
            return Ok(Some(tile));
        }
        let (size, pixels) = match build() {
            Ok(Some(built)) => built,
            Ok(None) => {
                return Ok(None);
            },
            Err(error) => {
                return Err(AtlasError::Build(error));
            },
        };
        let allocated = self.state.allocate(size, key.texture_kind(), new_texture);
        let ghost mid = self@;
        let ghost made = choose|made: Option<T>|
            {
                &&& #[trigger] pre.places(mid, key.kind, size, made, allocated)
                &&& made matches Some(handle) ==> call_ensures(
                    new_texture,
                    (spec_texture_descriptor(size, key.kind, pre.is_apple_gpu),),
                    handle,
                )
            };
        proof {
            lemma_placed_is_valid(pre, mid, *key, size, made, allocated);
        }
        let tile = match allocated {
            Some(tile) => tile,
            None => {
                proof {
                    assert(stores_with(pre, mid, mid, *key, size, made, allocated));
                }
                return Err(AtlasError::FailedToAllocate);
            },
        };
        let texture = self.state.texture(tile.texture_id);
        upload(texture.metal_texture(), texture.upload(tile.bounds), pixels);
        self.state.tiles_by_key.insert(*key, tile);
        proof {
            assert(stores_with(pre, mid, self@, *key, size, made, allocated));
        }
        Ok(Some(tile))
    }

    /// Drops the tile of a key. Its room can be used again once every frame that
    /// may sample it is complete. A texture goes with its last key.
    pub fn remove(&mut self, key: &AtlasKey)
        requires
            old(self)@.valid(),
        ensures
            final(self)@.valid(),
            old(self)@.removes(final(self)@, *key),
            performs(old(self)@, final(self)@, Operation::Remove(*key)),
    {
        let ghost pre = self@;
        let tile = match self.state.tiles_by_key.remove(key) {
            Some(tile) => tile,
            None => {
                proof {
                    assert(self@ =~= pre);
                }
                return ;
            },
        };
        let id = tile.texture_id;
        let retire_after = last_frame(&self.state.active_frames);
        proof {
            assert(pre.tile_valid(*key));
            lemma_newest(pre.active, retire_after);
            assert(pre.keys_on(id).contains(*key));
            lemma_total_retired_update(pre.list(id.kind).slots, id.index as int, None);
            lemma_total_retired_bounded(pre.monochrome.slots);
            lemma_total_retired_bounded(pre.polychrome.slots);
        }
        let slot: usize = id.index as usize;
        let (previously_pending, pending): (usize, usize) = match id.kind {
            AtlasTextureKind::Monochrome => self.state.monochrome_textures.give_up(
                id.kind,
                slot,
                tile.tile_id,
                retire_after,
            ),
            _ => self.state.polychrome_textures.give_up(
                id.kind,
                slot,
                tile.tile_id,
                retire_after,
            ),
        };
        self.state.pending_allocations = self.state.pending_allocations
            - previously_pending as u64 + pending as u64;
        proof {
            assert(pre.removes(self@, *key));
            lemma_removed_is_valid(pre, self@, *key);
        }
    }

    /// Tells whether a key has a tile.
    pub fn contains_key(&self, key: &AtlasKey) -> (found: bool)
        ensures
            found == self@.tiles.contains_key(*key),
    {
        self.state.tiles_by_key.get(key).is_some()
    }

    /// Tells whether a texture of that name exists.
    pub fn has_texture(&self, id: AtlasTextureId) -> (found: bool)
        ensures
            found == (self@.texture(id) is Some),
    {
        match id.kind {
            AtlasTextureKind::Monochrome => self.state.monochrome_textures.has_texture(
                id.index as usize,
            ),
            AtlasTextureKind::Polychrome => self.state.polychrome_textures.has_texture(
                id.index as usize,
            ),
            AtlasTextureKind::Subpixel => false,
        }
    }

    /// Tells whether a tile of a kind can be asked for, whatever its size: the
    /// atlas has textures of that kind, one more of them can be named, and each
    /// can count one more allocation.
    pub fn accepts(&self, kind: AtlasTextureKind) -> (accepts: bool)
        ensures
            accepts == self@.accepts(kind),
            accepts ==> forall|size: Size| #[trigger] self@.can_be_asked(kind, size),
    {
        match kind {
            AtlasTextureKind::Monochrome => self.state.monochrome_textures.has_room()
                && self.state.monochrome_textures.can_place(),
            AtlasTextureKind::Polychrome => self.state.polychrome_textures.has_room()
                && self.state.polychrome_textures.can_place(),
            AtlasTextureKind::Subpixel => false,
        }
    }

    /// How many allocations wait for a frame to complete.
    pub fn pending_allocations(&self) -> (pending: u64)
        ensures
            pending == self@.pending,
    {
        self.state.pending_allocations
    }

    /// How many frames are not complete.
    pub fn active_frames(&self) -> (count: usize)
        ensures
            count == self@.active.len(),
    {
        self.state.active_frames.len()
    }

    /// The serial number of the next frame.
    pub fn next_frame(&self) -> (serial: u64)
        ensures
            serial == self@.next_frame,
    {
        self.state.next_frame
    }
}

/// Where nothing waits, a release changes nothing.
proof fn lemma_nothing_to_release<T>(list: ListModel<T>, first_active: Option<u64>)
    requires
        total_retired(list.slots) == 0,
    ensures
        list.releases(list, first_active),
{
    assert forall|i: int| 0 <= i < list.slots.len() implies match (#[trigger] list.slots[i]) {
        Some(texture) => list.slots[i] is Some && texture.releases(list.slots[i]->0, first_active),
        None => list.slots[i] is None,
    } by {
        lemma_total_retired_update(list.slots, i, None);
        if list.slots[i] is Some {
            let texture = list.slots[i]->0;
            assert(texture.retired.len() == 0);
            reveal(Seq::filter);
            assert(texture.retired.filter(
                |entry: (u64, TileId)| must_wait(
                    first_active,
                    entry.0,
                ),
            ) =~= texture.retired);
            assert(texture.rectangles().remove_keys(
                released_ids(texture.retired, first_active),
            ) =~= texture.rectangles());
        }
    }
}

} // verus!
