# pdf_text

Text decoding for the fonts of PDF pages, verified with Verus: what the bytes of a string operand
say, how wide their codes are, which style a font has, in which order right-to-left glyphs stand,
and which annotations carry text.

- `src/` is the library. PDF objects are plain values (`object`); single-precision numbers are
  carried as their IEEE 754 bits (`number`). `outside` holds the calls into `lopdf`, `ttf-parser`
  and `unicode-bidi`, each with what is taken as known of its result.
- `tests/` runs the library with those crates linked.
- `app/` converts `lopdf` objects, reads the fonts of a page, hands operands to the library, and
  holds the floating-point geometry: widths in text space, the movement of the pen, the placement
  of appearance streams.

A string operand is decoded by `decode::decode_operand_glyphs`: by the font's CMaps
(`cmap_decode`), and where they give no text, by the bytes themselves (`byte_decode`). The glyphs
that come with the text add up to the operand: `decode::law_decoded_glyphs_add_up`.
