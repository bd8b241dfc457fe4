# liveui

The server-side logic of a low-latency screen, audio and keystroke streaming
overlay, written in Verus with its behaviour stated in contracts and proved.

- `src/`: the verified library. It holds the binary IPC protocols of the
  capture, audio and keystroke processes, the frame and chunk buffers, the
  keystroke window, the automatic window selector and its presets, the
  string store, the stream registry, and the H.264 Annex B splitter. Laws
  that span several calls (round trips, read ranges, what a reset
  restarts) are public proof functions next to the code they speak of.
- `tests/`: tests run against the compiled library.
- `app/`: the HTTP/WebSocket server around the library (axum and tokio),
  process spawning, file storage and what needs floating point or Win32.

Verify with Verus on `src/lib.rs`; the tests and `app/` build with cargo.
