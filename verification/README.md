# frostify_gfx

A reactive UI toolkit for transparent, frosted-glass windows, written in Verus:
the decisions are proved, the drawing is left to the GPU.

- `src/` is the library. Every item of it is verified.
  - `num`: the numbers that geometry is computed in, and whole pixels as one
    instance.
  - `signal`, `anim`: cells with versions, tweens and timelines.
  - `node`, `layout`, `lazy_list`, `layer`: the scene tree, flex layout,
    virtualized lists, layers that are cached as textures.
  - `input`, `editor`, `event`: pointer, wheel and keys; text editing.
  - `gpu`: atlases, instance uploads, which layers and backdrops a frame
    draws, timing.
  - `app`: what window events and the passing of time do to a scene.
  - `automation`, `frame_sink`: scripted input, textures from other threads.
- `tests/` runs the library on single-precision numbers.
- `app/` is the shell around it: winit, wgpu, fonts and the clipboard. The
  application supplies shaders, the flattening of the tree and the motion of
  scrolled content.

Times are nanoseconds in `u64`. Handlers are flags on nodes in the library, and
closures in `app/`.

Two outside crates are called from the library, each behind a few wrappers with
stated contracts: `etagere` packs rectangles (`gpu::packer`), `png` decodes
pictures (`gpu::picture`).
