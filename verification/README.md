# cosmic_terminal

The logic of a terminal widget, verified with Verus.

- `src/` is the library. `glyph`, `stroke`, `line`, `dash`, `slope`, `corner`,
  `powerline`, `box_drawing` and `glyph_rects` draw block elements, sextants, box
  drawing characters and powerline symbols without a font. `color`, `metadata`,
  `cell`, `grid`, `screen`, `text`, `render`, `update`, `window` and `terminal` turn
  the cells of an `alacritty_terminal` grid into lines of styled text, and keep them
  while scrolling. `regex` and `spacer` search the grid, and `hint`, `search`, `next`
  and `find` look for addresses and for what the user asks for. `input`, `font` and
  `pane` are what their names say. `layout` and `stability` hold laws about rendered
  lines.
- `tests/` runs the library on concrete values, with the real outside crates.
- `app/` is ordinary Rust around the library: fonts, pseudo terminals, the text
  buffer, and everything that is measured in fractions of pixels.

Cells are measured in fractions of pixels, which the library does not compute with.
It says which rectangles a glyph has, in whole pixels, eighths, sixths or symbolic
offsets, and `app/` evaluates them.
