# thermal_printer

A toolkit for a Rongta RP326 thermal receipt printer, written in Verus.

`src/` is the verified library:

- `escpos` — the ESC/POS command builder (`Packet`), raster packing of 1-bit
  images (`GS v 0`) with its unpacking law, threshold dithering and fitting
  images to the 576-dot print width.
- `printer` — USB identifiers and the bulk-write progress of a payload.
- `upload` — the print server's multipart upload as a state machine, and the
  job builder.
- `render` — input format detection and Markdown → HTML conversion.
- `dom`, `blocks`, `text` — the parsed HTML document as nodes in document
  order, and the blocks and styled spans that are laid out on paper.
- `layout` — list bullets, image placeholders, code lines and span ranges.
- `datauri` — `data:` URIs of embedded images and their base64 payloads,
  with the base64 round-trip law.
- `client` — the print endpoint URL and the service-token headers.

`app/` holds the programs around it: USB printing (`usb`), the document
client (`doc`), the print server (`serve`), and the pixel layout and painting
of documents, which works in floating point.
