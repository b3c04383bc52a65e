# Framely

Framely turns a screenshot into a polished visual: gradient background,
padding, rounded corners and a soft shadow, chosen automatically for each
image and adjustable afterwards.

## Layout

- `src/` — the library, verified with Verus:
  - `model` — source image, style, and the document with its undo/redo
    history (with the laws relating apply, undo and redo);
  - `presets` — the gradient catalogue, lookup by identifier, settings;
  - `render` — automatic balance of a style, canvas geometry and
    allocation, straight/premultiplied alpha conversions;
  - `binary32` — single-precision rounding modelled exactly on integers,
    for the canvas, preview and demo-image geometry;
  - `preview` — checkerboard compositing and preview downscaling;
  - `demo_image` — the procedural first-launch image;
  - `io`, `capture`, `system`, `labels` — decisions around export,
    screen capture, the menu bar and the settings panel.
- `app/` — the macOS application: window and settings panel (egui),
  vector drawing (tiny-skia), ScreenCaptureKit capture, clipboard, file
  dialogs, menu bar and global shortcuts, settings persistence.
- `tests/` — tests of the library.

Floating-point settings (corner radius, shadow) are carried by the library
as IEEE-754 bit patterns; only the drawing code reads them as floats. The
canvas size, the preview downscale and the demo image's margins are
computed in single precision; the library reproduces that arithmetic with
integers (`binary32`), so this geometry is proved, not approximated.
