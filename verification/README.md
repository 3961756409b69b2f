# yserver

The core of a small X11 display server, with its behaviour stated in contracts
and proved with Verus.

- `src/` is the verified library. It holds the resource table, the lengths of
  core requests, Enter/Leave crossings, the connection to a host server, and
  under `kms/` the screen: windows, drawing, text, pictures, composition, input,
  the hardware cursor and the bookkeeping of descriptor pools. What holds across
  several operations stands in public proof functions, mostly in the `*laws.rs`
  files.
- `app/` is the program around it: devices, files, fonts, keymaps, and the
  blending of pixels, which pixman does. Arithmetic in floating point is there
  too.
- `tests/` runs the library.

The library calls two outside crates: `freetype` for glyphs, and `libc` for the
parts of a device number. What it takes on trust of them is written at the few
functions marked `external_body`, in `src/kms/face.rs` and
`src/kms/render_node.rs`.
