# pixeldraw

A local MCP server that lets an AI assistant draw pixel art with explicit
coordinates and locked MARD bead palettes. The drawing logic is a library
verified with Verus; a thin stdio server wraps it.

## Layout

- `src/` — the verified library.
  - `text.rs`: whitespace, trimming, ASCII case, decimal numbers, over `Seq<char>`.
  - `palette.rs`: the 24- and 144-color palettes, the mode labelled 221
    (incomplete: it holds the 144 colors plus H1, 145 in all), and color lookup.
  - `shapes.rs`: lines, rectangles, circles, ellipses and triangles as points.
  - `canvas.rs`: the canvas, brush stamps, shapes, flood fill, the 8x preview.
  - `raster.rs`, `pattern.rs`: bead counts and the labelled bead chart.
  - `png.rs`: the calls into the `image` crate that scale and encode PNGs.
  - `server.rs`: tool requests, the pixel batch syntax and saved file names.
  - `session.rs`: the tools themselves, atomic drawing batches and replies.
- `tests/` — tests of the library.
- `app/` — the stdio MCP server: argument handling, the tool transport,
  saving files, the clock, and ellipse outlines, which are computed in
  floating point.

Run the server with `--output-dir PATH`; saved files never overwrite
existing ones.
