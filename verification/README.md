# gpui_platform

The core of a GPU user interface's platform layer, proved with Verus.

- `metal_atlas`, with `texture`, `texture_list`, `placements`, `tile_map` and
  `frames`: a sprite atlas. Tiles are packed into textures, found again by key,
  and never written over while a frame that may sample them is in flight.
  `atlas_model` says what an atlas is and how each operation changes it;
  `atlas_laws` and `atlas_runs` what follows of one operation and of many.
- `portal`, with `font`, `text` and `decimal`: what the desktop settings portal is
  asked, in which order, and what its answers mean. `font_laws` says what holds of
  every list of font families.
- `external_texture`: an element that paints a texture made outside the renderer.

Rectangles are packed by `etagere`, and external textures are those of `wgpu`. What the proofs take for granted about these crates, and about two
functions of std, stands at the functions in `allocator`, `external_texture` and
`frames` that call them.

`app/` holds what reaches a device, a bus or a window: the atlas behind a lock,
the Metal device, the portal as a `calloop` event source and the texture element.
