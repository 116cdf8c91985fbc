# wiremux

A channel multiplexer for serial byte streams: one UART or USB serial link
carries ordinary terminal output and framed records for many logical
channels. This crate is the host side, written in Verus: its logic is
verified against `requires`/`ensures` contracts.

## Layout

- `src/` — the verified library.
  - `crc32`, `wire`, `frame`: checksums, protobuf wire format, and the frame
    scanner that finds frames in a mixed byte stream (with laws: built
    frames are found whole, plain bytes pass through, the result does not
    depend on how the stream is cut into pushes).
  - `envelope`, `manifest`, `batch`, `codec`: record, manifest and batch
    encodings and the compression codecs, with round-trip laws.
  - `host_session`: the session that turns the stream into host events,
    channel labels and input frames.
  - `display`, `args`, `interactive`, `ports`: the command-line tools'
    output, argument parsing, serial settings and port selection.
  - `tui`, `tui_state`, `tui_view`, `settings`, `passthrough`: the
    interactive interface as state and step functions (keys, mouse,
    scrolling, selection, settings panel, passthrough escape handling).
  - `registry`, `generic_enhanced`, `vendor_enhanced`, `virtual_serial`,
    `esp_enhanced`: enhanced capabilities, virtual serial endpoints and the
    ESP32 flashing bridge.
- `app/` — the program around the library: serial and terminal I/O, the
  configuration file, and the event loops that carry out what the library
  decides.
- `tests/` — tests run against the compiled library.
