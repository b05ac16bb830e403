//! The tiles that the atlas has at hand, found by key.
use std::collections::HashMap;
use vstd::prelude::*;

use crate::atlas_types::{AtlasKey, AtlasTextureKind, AtlasTile};

verus! {

broadcast use vstd::std_specs::hash::group_hash_axioms;

/// A table of tiles, with one hash map for each kind of texture.
pub struct TileMap {
    monochrome: HashMap<u128, AtlasTile>,
    polychrome: HashMap<u128, AtlasTile>,
    subpixel: HashMap<u128, AtlasTile>,
}

impl View for TileMap {
    type V = Map<AtlasKey, AtlasTile>;

    closed spec fn view(&self) -> Map<AtlasKey, AtlasTile> {
        Map::new(
            |key: AtlasKey| self.of_kind(key.kind).contains_key(key.id),
            |key: AtlasKey| self.of_kind(key.kind)[key.id],
        )
    }
}

impl TileMap {
    spec fn of_kind(&self, kind: AtlasTextureKind) -> Map<u128, AtlasTile> {
        match kind {
            AtlasTextureKind::Monochrome => self.monochrome@,
            AtlasTextureKind::Polychrome => self.polychrome@,
            AtlasTextureKind::Subpixel => self.subpixel@,
        }
    }

    /// A table without tiles.
    pub fn new() -> (map: TileMap)
        ensures
            map@ == Map::<AtlasKey, AtlasTile>::empty(),
    {
        let map = TileMap {
            monochrome: HashMap::new(),
            polychrome: HashMap::new(),
            subpixel: HashMap::new(),
        };
        assert(map@ =~= Map::<AtlasKey, AtlasTile>::empty());
        map
    }

    /// The tile of a key, if there is one.
    pub fn get(&self, key: &AtlasKey) -> (tile: Option<AtlasTile>)
        ensures
            tile == (if self@.contains_key(*key) {
                Some(self@[*key])
            } else {
                None
            }),
    {
        let found = match key.kind {
            AtlasTextureKind::Monochrome => self.monochrome.get(&key.id),
            AtlasTextureKind::Polychrome => self.polychrome.get(&key.id),
            AtlasTextureKind::Subpixel => self.subpixel.get(&key.id),
        };
        match found {
            Some(tile) => Some(*tile),
            None => None,
        }
    }

    /// Puts a tile under a key.
    pub fn insert(&mut self, key: AtlasKey, tile: AtlasTile)
        ensures
            final(self)@ == old(self)@.insert(key, tile),
    {
        match key.kind {
            AtlasTextureKind::Monochrome => {
                self.monochrome.insert(key.id, tile);
            },
            AtlasTextureKind::Polychrome => {
                self.polychrome.insert(key.id, tile);
            },
            AtlasTextureKind::Subpixel => {
                self.subpixel.insert(key.id, tile);
            },
        }
        assert(self@ =~= old(self)@.insert(key, tile));
    }

    /// Takes the tile of a key out.
    pub fn remove(&mut self, key: &AtlasKey) -> (tile: Option<AtlasTile>)
        ensures
            final(self)@ == old(self)@.remove(*key),
            tile == (if old(self)@.contains_key(*key) {
                Some(old(self)@[*key])
            } else {
                None
            }),
    {
        let removed = match key.kind {
            AtlasTextureKind::Monochrome => self.monochrome.remove(&key.id),
            AtlasTextureKind::Polychrome => self.polychrome.remove(&key.id),
            AtlasTextureKind::Subpixel => self.subpixel.remove(&key.id),
        };
        assert(self@ =~= old(self)@.remove(*key));
        removed
    }
}

} // verus!
