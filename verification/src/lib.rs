//! Verified core of a GPU user interface's platform layer: the Metal sprite
//! atlas, the desktop settings portal and textures made outside the renderer.
pub mod allocator;
pub mod atlas_laws;
pub mod atlas_model;
pub mod atlas_runs;
pub mod atlas_types;
pub mod decimal;
pub mod decimal_laws;
pub mod external_texture;
pub mod font;
pub mod font_laws;
pub mod frames;
pub mod geometry;
pub mod metal_atlas;
pub mod packing_laws;
pub mod placements;
pub mod portal;
pub mod portal_laws;
pub mod text;
pub mod text_laws;
pub mod texture;
pub mod texture_laws;
pub mod texture_list;
pub mod tile_map;
