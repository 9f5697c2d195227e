# sta

The logic of a browser shell as a verified library: which tab has which browser and when its end is
reported, where the sidebar is and when it appears, how the window is built and shut down, rounded
corners, update archives, suggestions, page translation, and the tools of the test surface.

- `src/`: the library. Each module keeps its state in plain data and says in its contracts what every
  event does to it and what the shell has to do next (`Effect`). The laws of a module are public proof
  functions beside the functions that they speak of.
- `app/`: the shell around it: files, pixels, the operating system, and the host that performs effects.
- `tests/`: the library on concrete values.

Outside code stands behind a few functions with stated contracts: compression and checksums
(`src/codec.rs`), JSON texts (`src/json.rs`), and some of the standard library's text functions
(`src/text.rs`, `src/test_hooks/mod.rs`, `src/platform/win.rs`).
