# maat_graphics

The decision-making core of a small Vulkan/OpenGL game engine, verified with Verus.

- `src/` — the verified library: the `settings.ini` format, resource registries, draw
  call planning for both renderers, the per-frame loading state machine, Vulkan memory
  and push-constant helpers, light-culling tile counts, bitmap font descriptions, the
  text cache, glTF node loading (a depth-first flattening proved to give a forest),
  skins, animation channels, samplers, image and texture decoding through the `image`
  crate, and the terrain grid's index list.
- `tests/` — tests of the library on concrete values.
- `app/` — the edges the library leaves out: files, the environment, threads, the
  clock, glTF import, and the floating-point camera, font metrics, matrices and model
  data.
