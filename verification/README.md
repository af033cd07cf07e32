# tauri_plugin_escpos

Structured ESC/POS receipts for thermal printers, with the document logic verified by Verus.

A document is a list of blocks (text, columns, divider, image, barcode, QR code, feed, cut) on
58 mm or 80 mm paper. The library checks it against the rules of each block and turns it into a
`RenderPlan`: the printer instructions to send, in order, and the error that stops printing when
one occurs. The host sends the plan through an `escpos` printer.

## Layout

- `src/` — the verified library.
  - `models.rs`, `models/device.rs`: the document model, its validation rules, printer targets
    and their flat records, printer entries and errors.
  - `text.rs`: PC858 encoding, line and word splitting, wrapping, cells and receipt rows.
  - `barcode.rs`: EAN-13 digits, check digit, module pattern and raster; function B barcodes.
  - `raster.rs`: grey bitmaps packed as `GS v 0` rasters; image decoding through `image`.
  - `render.rs`: the instructions of each block and of a whole document.
  - `printer.rs`: graphics backend choice, network endpoints, printer lists, the self test and
    the test page.
  - `laws.rs`: properties that relate several functions, proved once for all inputs.
  - `chars.rs`: character helpers (white space, decimal numbers, trimming).
- `app/` — the host side: JSON shapes with serde, drivers (network, Windows USB), the commands.
- `tests/` — tests run against the compiled library with the real outside crates.
