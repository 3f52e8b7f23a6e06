# replay_renderer

The decision logic of an osu!mania replay renderer, verified with Verus:
which notes are on screen and in what state, how long notes are clipped and
tiled, in which order sprites are drawn and how they are grouped into GPU
batches, how the life bar and the key overlays evolve over a replay, how
storyboard commands are placed in time and which command controls a sprite,
which skin textures, animation frames, fonts and HUD assets are looked up,
and how GPU adapters and readback buffers are chosen.

## Layout

- `src/` is the verified library. Every public function states its result in
  its `ensures` over spec functions; the `lemma_*` proof functions state the
  laws that hold across calls (draw order by z layer, batches tiling the
  instances, frozen frames during a fail animation, health events in gameplay
  order, and others).
- `tests/` runs the library on concrete inputs.
- `app/` is ordinary Rust around the library: wgpu device and readback, file
  and font loading, JSON props, and the `f32`/`f64` arithmetic (easing curves,
  life-bar drain, HUD scales, sprite instances) that the library leaves to it.

Outside crates: `ab_glyph` (font parsing) and `woff2-patched` (the WOFF2
signature test) are called from the library behind wrappers whose contracts
are stated next to them. WOFF2 decoding itself runs in `app/`, where a panic of
the decoder on a malformed file can be caught and reported as an error; the
library takes the decoder as a closure and states what it does with whatever
the decoder gives back. `wgpu`, `image`,
`serde_json` and `bytemuck` are used by `app/` only.
