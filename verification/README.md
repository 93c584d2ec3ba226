# cosmic-capture

Screenshots, videos and animated images of the COSMIC desktop, from a panel or from the
command line.

- `src/` is the library: what the panel does on each message and shows on each surface,
  how a region falls on the outputs, how frames are cut, stitched and packed, which formats
  and pipelines a capture uses, and how a recording ends. Everything in it is written in
  Verus and proved against its contract. The items marked `Trusted` call `dirs`, `chrono`,
  `drm-fourcc`, `image` and `png`, and std's `Arc::clone` and `String::push`; their
  contracts are believed.
- `tests/` runs the library on concrete values.
- `app/` is the program around it: the toolkit, Wayland, PipeWire, GStreamer, the portal,
  the clipboard and files. It hands the library plain values and does what the library asks
  for.

What holds of the library as a whole stands as public proof functions beside the code it
speaks of; those of the panel are in `src/gui/laws.rs`, `src/gui/surfaces.rs` and
`src/gui/slots.rs`.
