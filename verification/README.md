# ledbetter

An LED pixel-mapping and content engine: effects render onto a rectangular
RGB canvas, two decks are crossfaded, and the result is sampled at every
physical pixel of a patch and sent out as DMX (Art-Net through `rust_dmx`,
sACN/E1.31 over UDP).

- `src/` is the verified library (Verus): pixel formats and their DMX
  encoding, address derivation for a patch (packing outputs into 512-channel
  universes), per-universe frame packing, the E1.31 packet layout, matrix
  wiring order, the canvas buffer, tap-tempo bookkeeping, camera-frame
  brightness moments, palettes and the shader library.
- `app/` is the egui program around it: everything that works in floating
  point (effects, compositing, crossfading, sampling, camera geometry), the
  GL shader runner, network and DMX output, and show-file persistence.
- `tests/` exercises the library.
