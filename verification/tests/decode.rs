use lopdf::Encoding;
use pdf_text::byte_decode::{decode_early, decode_late};
use pdf_text::cmap::ToUnicodeCMap;
use pdf_text::cmap_decode::{CMapReading, EntryReading};
use pdf_text::decode::{
    decode_operand_glyphs, extract_text_from_operand, font_entries, PageFonts,
};
use pdf_text::encoding::PageFontEncodings;
use pdf_text::glyphs::{glyphs_from_aligned_units, GlyphDecode};
use pdf_text::names::NameMap;
use pdf_text::object::Object;
use pdf_text::score::{CMapChoice, CMapDecisionCache};
use pdf_text::widths::{
    raw_glyph_widths, FontWidthInfo, PageFontWidths, SpaceWidth, UnitsScale,
};
use std::collections::HashMap;

fn make_font_info(widths: &[(u16, u16)], default_width: u16, is_cid: bool) -> FontWidthInfo {
    FontWidthInfo {
        widths: widths.iter().copied().collect(),
        default_width,
        space_width: SpaceWidth::Units(default_width),
        is_cid,
        units_scale: UnitsScale::Thousandth,
        wmode: 0,
    }
}

/// A page's fonts.
#[derive(Default)]
struct Page {
    widths: Option<PageFontWidths>,
    refs: Option<NameMap<u32>>,
    encodings: Option<PageFontEncodings>,
    text_encodings: Option<NameMap<Encoding<'static>>>,
}

impl Page {
    fn with_widths(mut self, font: &str, info: FontWidthInfo) -> Self {
        self.widths.get_or_insert_with(NameMap::new).insert(font.to_string(), info);
        self
    }

    fn with_ref(mut self, font: &str, obj_num: u32) -> Self {
        self.refs.get_or_insert_with(NameMap::new).insert(font.to_string(), obj_num);
        self
    }

    fn with_differences(mut self, font: &str, map: &[(u8, char)]) -> Self {
        self.encodings
            .get_or_insert_with(NameMap::new)
            .insert(font.to_string(), map.iter().copied().collect());
        self
    }

    fn with_encoding(mut self, font: &str, encoding: Encoding<'static>) -> Self {
        self.text_encodings
            .get_or_insert_with(NameMap::new)
            .insert(font.to_string(), encoding);
        self
    }

    fn decode(
        self,
        bytes: &[u8],
        font: &str,
        base: Option<&str>,
        inline: Option<&EntryReading>,
        referenced: Option<&EntryReading>,
        decisions: &mut CMapDecisionCache,
    ) -> (Option<String>, Vec<GlyphDecode>) {
        let widths = self.widths.unwrap_or_else(NameMap::new);
        let refs = self.refs.unwrap_or_else(NameMap::new);
        let encodings = self.encodings.unwrap_or_else(NameMap::new);
        let text_encodings = self.text_encodings.unwrap_or_else(NameMap::new);
        let fonts = PageFonts {
            widths: &widths,
            tounicode_refs: &refs,
            encodings: &encodings,
            text_encodings: &text_encodings,
        };
        let obj = Object::String(bytes.to_vec());
        let text = extract_text_from_operand(
            &obj,
            font,
            base,
            &fonts,
            inline,
            referenced,
            &mut decisions.clone(),
        );
        let decoded =
            decode_operand_glyphs(&obj, font, base, &fonts, inline, referenced, decisions);
        assert_eq!(text, decoded.0);
        decoded
    }

    fn text(self, bytes: &[u8], font: &str, base: Option<&str>) -> Option<String> {
        self.decode(bytes, font, base, None, None, &mut CMapDecisionCache::new()).0
    }
}

fn cmap(code_byte_length: u8, texts: &[(u16, &str)]) -> ToUnicodeCMap {
    ToUnicodeCMap {
        code_byte_length,
        texts: texts.iter().map(|(code, text)| (*code, text.to_string())).collect(),
    }
}

/// What a CMap of two-byte codes makes of an operand.
fn read<'a>(cmap: &'a ToUnicodeCMap, bytes: &[u8]) -> CMapReading<'a> {
    let text = |code: u16| cmap.lookup(code).cloned();
    CMapReading {
        cmap,
        byte_texts: bytes.iter().map(|b| text(*b as u16)).collect(),
        units: bytes
            .chunks_exact(2)
            .map(|pair| u16::from_be_bytes([pair[0], pair[1]]))
            .map(|code| (code, text(code)))
            .collect(),
        failed: false,
    }
}

fn entry<'a>(cmap: &'a ToUnicodeCMap, bytes: &[u8]) -> EntryReading<'a> {
    EntryReading {
        primary: read(cmap, bytes),
        remapped: None,
        fallback: None,
    }
}

/// A glyph's own advance in text space.
fn glyph_advance_ts(g: &GlyphDecode, size: f32, tc: f32, tw: f32) -> f32 {
    let width: f32 = g.raw_widths.iter().map(|w| *w as f32 * 0.001 * size).sum();
    width + g.code_count as f32 * tc + g.space_count as f32 * tw
}

#[test]
fn ligature_cid_produces_first_real_glyph_plus_zero_width_filler() {
    let lam_alef = cmap(2, &[(0x01D9, "لا")]);
    let bytes = [0x01u8, 0xD9];
    let page = Page::default().with_widths("F1", make_font_info(&[(0x01D9, 680)], 1000, true));
    let (text, glyphs) = page.decode(
        &bytes,
        "F1",
        None,
        Some(&entry(&lam_alef, &bytes)),
        None,
        &mut CMapDecisionCache::new(),
    );
    assert_eq!(text.as_deref(), Some("لا"));
    assert_eq!(
        glyphs.len(),
        2,
        "one real + one filler glyph, not one per string"
    );

    assert_eq!(glyphs[0].text, "ل");
    assert_eq!(glyphs[0].cid, Some(0x01D9));
    assert_eq!(glyphs[0].raw_widths, vec![680]);
    assert_eq!(glyphs[0].code_count, 1);
    assert_eq!(glyphs[0].space_count, 0);
    assert_eq!(
        glyphs[0].pen, None,
        "pen position is the caller's job, unset here"
    );
    assert_eq!(f32::from_bits(glyphs[0].full_advance_ts), 0.0);

    assert_eq!(glyphs[1].text, "ا");
    assert_eq!(glyphs[1].cid, None, "filler glyph has no CID of its own");
    assert!(glyphs[1].raw_widths.is_empty(), "filler glyph must be zero-width");
    assert_eq!(glyphs[1].code_count, 0);
    assert_eq!(glyphs[1].space_count, 0);

    // The advances of the glyphs add up to the width of the operand.
    let expected_width = 680.0 * 0.001 * 12.0;
    let info = make_font_info(&[(0x01D9, 680)], 1000, true);
    let total: f32 = raw_glyph_widths(&bytes, &info)
        .iter()
        .map(|w| w.raw_width as f32 * 0.001 * 12.0)
        .sum();
    assert!((total - expected_width).abs() < 0.001);
    let summed: f32 = glyphs.iter().map(|g| glyph_advance_ts(g, 12.0, 0.0, 0.0)).sum();
    assert!((summed - total).abs() < 0.001);
}

/// Moves the pen along a line, and gives where it ends up.
fn track(glyphs: &mut [GlyphDecode], x: f32, y: f32, size: f32) -> f32 {
    let (mut at, mut drawn_at) = (x, x);
    for glyph in glyphs {
        // Fillers are drawn with the glyph that they belong to.
        if glyph.code_count > 0 {
            drawn_at = at;
        }
        glyph.pen = Some((drawn_at.to_bits(), y.to_bits()));
        at += glyph_advance_ts(glyph, size, 0.0, 0.0);
    }
    at
}

fn pen(glyph: &GlyphDecode) -> (f32, f32) {
    let (x, y) = glyph.pen.expect("pen must be set");
    (f32::from_bits(x), f32::from_bits(y))
}

#[test]
fn pen_track_glyphs_simple_ltr_advances_left_to_right() {
    let fi = make_font_info(
        &[(b'A' as u16, 600), (b'B' as u16, 500), (b'C' as u16, 700)],
        500,
        false,
    );
    let bytes = b"ABC";
    let units: Vec<(u16, Option<String>)> = bytes
        .iter()
        .map(|b| (*b as u16, Some((*b as char).to_string())))
        .collect();
    let mut glyphs = glyphs_from_aligned_units(&units, &raw_glyph_widths(bytes, &fi));
    let end = track(&mut glyphs, 100.0, 700.0, 10.0);

    assert_eq!(glyphs.len(), 3);
    let (a_pen, b_pen, c_pen) = (pen(&glyphs[0]), pen(&glyphs[1]), pen(&glyphs[2]));
    // Advances 6, 5 and 7.
    assert!((a_pen.0 - 100.0).abs() < 0.001);
    assert!((a_pen.1 - 700.0).abs() < 0.001);
    assert!((b_pen.0 - 106.0).abs() < 0.001);
    assert!((c_pen.0 - 111.0).abs() < 0.001);
    assert!(a_pen.0 < b_pen.0 && b_pen.0 < c_pen.0);
    assert_eq!(a_pen.1, b_pen.1);
    assert_eq!(b_pen.1, c_pen.1);
    assert!((end - 118.0).abs() < 0.001);
}

#[test]
fn pen_track_glyphs_matches_real_fixture_dump_ops_trace() {
    let arabic = cmap(
        2,
        &[(0x0110, "م"), (0x0164, "د"), (0x0113, " "), (0x01D9, "لا")],
    );
    let size = 11.04f32;
    let decode = |bytes: &[u8]| {
        let widths = [(0x0110, 281), (0x01D9, 680), (0x0164, 265), (0x0113, 224)];
        let page = Page::default().with_widths("F1", make_font_info(&widths, 1000, true));
        page.decode(
            bytes,
            "F1",
            None,
            Some(&entry(&arabic, bytes)),
            None,
            &mut CMapDecisionCache::new(),
        )
        .1
    };
    let mut glyphs1 = decode(&[0x01, 0x10, 0x01, 0xD9]);
    assert_eq!(
        glyphs1.len(),
        3,
        "CID 0x0110 (1 glyph) + CID 0x01D9 (real+filler)"
    );
    let mut glyphs2 = decode(&[0x01, 0x64]);
    let mut glyphs3 = decode(&[0x01, 0x13]);

    let after1 = track(&mut glyphs1, 477.7, 553.27, size);
    let after2 = track(&mut glyphs2, after1 + 5.0 / 1000.0 * size, 553.27, size);
    track(&mut glyphs3, after2 - 4.0 / 1000.0 * size, 553.27, size);

    let pens = [
        pen(&glyphs1[0]),
        pen(&glyphs1[1]),
        pen(&glyphs2[0]),
        pen(&glyphs3[0]),
    ];
    // 477.7; then 281, 680 and 265 units on, with the kerning of 5 and -4.
    for (pen, expected) in pens.iter().zip([477.7, 480.80224, 488.36464, 491.24608]) {
        assert!((pen.0 - expected).abs() < 0.01, "got {}", pen.0);
        assert!((pen.1 - 553.27).abs() < 0.01);
    }
    // The filler does not move the pen.
    assert!((pen(&glyphs1[2]).0 - pens[1].0).abs() < 0.0001);
    assert!((pen(&glyphs1[2]).1 - 553.27).abs() < 0.01);
    assert_eq!(glyph_advance_ts(&glyphs1[2], size, 0.0, 0.0), 0.0);
}

#[test]
fn cid_font_with_unparseable_cmap_does_not_emit_latin1_mojibake() {
    let page = Page::default()
        .with_ref("F0", 999)
        .with_widths("F0", make_font_info(&[], 1000, true));
    let text = page
        .text(&[0xCD, 0xD9, 0xCD, 0xD9], "F0", None)
        .expect("CID font fallback should still emit a marker");
    assert!(
        !text.contains('\u{00CD}') && !text.contains('\u{00D9}'),
        "CID font with unparseable CMap leaked Latin-1 mojibake: {text:?}"
    );
    assert!(
        text.contains('\u{FFFD}'),
        "CID font with unparseable CMap should emit U+FFFD: {text:?}"
    );
    assert_eq!(text, "\u{FFFD}\u{FFFD}");
}

#[test]
fn simple_font_single_byte_fallback_passes_high_bytes_through() {
    let page = Page::default()
        .with_ref("F1", 999)
        .with_widths("F1", make_font_info(&[], 1000, false));
    let text = page
        .text(&[0x24, 0x47, 0xB6, 0x56], "F1", None)
        .expect("simple font should round-trip Latin-1 bytes");
    assert_eq!(text, "$G\u{00B6}V");
    assert!(
        !text.contains('\u{FFFD}'),
        "simple font fallback must not stamp FFFD over legitimate bytes: {text:?}"
    );
}

#[test]
fn simple_font_single_byte_fallback_maps_cp1252_punctuation() {
    let text = Page::default()
        .text(&[b'l', 0x92, b'a', b'c', b'a', b'd'], "F1", None)
        .expect("simple font should decode CP1252 punctuation");
    assert_eq!(text, "l’acad");
}

#[test]
fn operands_that_are_no_strings_have_no_text() {
    let (widths, refs) = (NameMap::new(), NameMap::new());
    let (encodings, text_encodings) = (NameMap::new(), NameMap::new());
    let fonts = PageFonts {
        widths: &widths,
        tounicode_refs: &refs,
        encodings: &encodings,
        text_encodings: &text_encodings,
    };
    let (text, glyphs) = decode_operand_glyphs(
        &Object::Integer(5),
        "F1",
        None,
        &fonts,
        None,
        None,
        &mut CMapDecisionCache::new(),
    );
    assert_eq!(text, None);
    assert!(glyphs.is_empty());
}

#[test]
fn single_byte_cmaps_are_completed_byte_by_byte() {
    let primary = cmap(1, &[(1, "one"), (2, "\u{FFFD}"), (3, "\u{FFFD}")]);
    let fallback = cmap(1, &[(2, "two")]);
    let bytes = [1, 2, 3, 4, 0x41, 0x80, 5];
    let mut reading = entry(&primary, &bytes);
    reading.fallback = Some(read(&fallback, &bytes));
    let page = Page::default().with_differences("F1", &[(3, '3'), (4, '4'), (1, 'x')]);
    let (text, glyphs) = page.decode(
        &bytes,
        "F1",
        None,
        Some(&reading),
        None,
        &mut CMapDecisionCache::new(),
    );
    assert_eq!(text.as_deref(), Some("onetwo34A€"));
    // Without widths the codes do not pair up with any.
    assert_eq!(glyphs.len(), 1);
    assert_eq!(glyphs[0].text, "onetwo34A€");
    assert_eq!(glyphs[0].code_count, 0);
}

#[test]
fn odd_operands_of_two_byte_cmaps_are_read_byte_by_byte() {
    let two = cmap(2, &[(65, "α"), (66, "β")]);
    let bytes = [65, 66, 65];
    let page = Page::default().with_widths("F1", make_font_info(&[], 500, true));
    let (text, glyphs) = page.decode(
        &bytes,
        "F1",
        None,
        Some(&entry(&two, &bytes)),
        None,
        &mut CMapDecisionCache::new(),
    );
    assert_eq!(text.as_deref(), Some("αβα"));
    assert_eq!(glyphs.len(), 1);
    assert_eq!(glyphs[0].raw_widths, vec![500]);
    assert_eq!(glyphs[0].code_count, 1);
}

#[test]
fn embedded_cmap_takes_over_where_it_does_better() {
    let bytes = [0, 1, 0, 2, 0, 3, 0, 4, 0, 5];
    let decode = |primary: &[(u16, &str)], fallback: &[(u16, &str)]| {
        let (primary, fallback) = (cmap(2, primary), cmap(2, fallback));
        let mut reading = entry(&primary, &bytes);
        reading.fallback = Some(read(&fallback, &bytes));
        Page::default()
            .with_widths("F1", make_font_info(&[], 500, true))
            .decode(&bytes, "F1", None, Some(&reading), None, &mut CMapDecisionCache::new())
            .0
            .unwrap()
    };
    let all = [(1, "a"), (2, "b"), (3, "c"), (4, "d"), (5, "e")];
    // Two of five codes are less than half; three are not, and score too close.
    assert_eq!(decode(&[(1, "x"), (2, "y")], &all), "abcde");
    assert_eq!(decode(&[(1, "x"), (2, "y"), (3, "z")], &all), "xyz");
    // A better score by more than three wins.
    assert_eq!(decode(&[(1, "!"), (2, "!"), (3, "!")], &all), "abcde");
}

fn remap_decode(
    primary: &[(u16, &str)],
    remapped: &[(u16, &str)],
    bytes: &[u8],
    decisions: &mut CMapDecisionCache,
) -> Option<String> {
    let (primary, remapped) = (cmap(2, primary), cmap(2, remapped));
    let mut reading = entry(&primary, bytes);
    reading.remapped = Some(read(&remapped, bytes));
    Page::default()
        .with_ref("F1", 42)
        .with_widths("F1", make_font_info(&[], 500, true))
        .decode(bytes, "F1", None, None, Some(&reading), decisions)
        .0
}

#[test]
fn remapped_cmaps_are_chosen_per_font_once() {
    let mut decisions = CMapDecisionCache::new();
    let (bad, good) = ([(1, "!")], [(1, "the cat")]);
    // Short operands are decided on their own.
    assert_eq!(
        remap_decode(&bad, &good, &[0, 1], &mut decisions).as_deref(),
        Some("the cat")
    );
    assert_eq!(decisions.get_choice(42), None);
    let long: Vec<u8> = [0, 1].repeat(120);
    assert!(remap_decode(&bad, &good, &long, &mut decisions).is_some());
    assert_eq!(decisions.get_choice(42), Some(CMapChoice::Remapped));
    // From now on the choice holds, even where the other form would score better.
    assert_eq!(
        remap_decode(&good, &bad, &[0, 1], &mut decisions).as_deref(),
        Some("!")
    );
    // Unless it has nothing to show.
    assert_eq!(
        remap_decode(&good, &[], &[0, 1], &mut decisions).as_deref(),
        Some("\u{0}\u{1}")
    );
}

#[test]
fn referenced_cmaps_come_after_the_fonts_own() {
    let (own, other) = (cmap(2, &[(1, "own")]), cmap(2, &[(1, "x"), (2, "other")]));
    let decode = |bytes: &[u8], reference: bool| {
        let mut page = Page::default().with_widths("F1", make_font_info(&[], 500, true));
        if reference {
            page = page.with_ref("F1", 7);
        }
        page.decode(
            bytes,
            "F1",
            None,
            Some(&entry(&own, bytes)),
            Some(&entry(&other, bytes)),
            &mut CMapDecisionCache::new(),
        )
        .0
        .unwrap()
    };
    assert_eq!(decode(&[0, 1], true), "own");
    assert_eq!(decode(&[0, 2], true), "other");
    // Without a reference the second is not looked at.
    assert_eq!(decode(&[0, 2], false), "\u{0}\u{2}");
}

#[test]
fn differences_override_single_codes() {
    let page = Page::default()
        .with_widths("F1", make_font_info(&[(0x41, 600)], 500, false))
        .with_differences("F1", &[(1, 'é')]);
    let mut decisions = CMapDecisionCache::new();
    let (text, glyphs) = page.decode(&[1, 0x41, 2, 0x92], "F1", None, None, None, &mut decisions);
    assert_eq!(text.as_deref(), Some("éA’"));
    let texts: Vec<&str> = glyphs.iter().map(|g| g.text.as_str()).collect();
    assert_eq!(texts, vec!["é", "A", "", "’"]);
    assert_eq!(glyphs[1].raw_widths, vec![600]);
    assert!(glyphs.iter().all(|g| g.code_count == 1));
}

#[test]
fn unicode_in_disguise_is_found() {
    let text = |bytes: &[u8]| Page::default().text(bytes, "F1", None).unwrap();
    assert_eq!(text(&[0xFE, 0xFF, 0x05, 0xD0, 0xD8, 0x3D, 0xDE, 0x00]), "א😀");
    assert_eq!(text(&[0xFE, 0xFF, 0xD8, 0x3D, 0x00, 0x41, 0x42]), "\u{FFFD}A");
    assert_eq!(text(&[0, b'H', 0, b'i']), "Hi");
    // Zeros that make no text are left as bytes.
    assert_eq!(text(&[0, 1, 0, 2]), "\u{0}\u{1}\u{0}\u{2}");
    assert_eq!(text("José".as_bytes()), "José");
    assert_eq!(text(&[b'J', b'o', b's', 0xE9]), "José");
}

#[test]
fn fonts_encodings_decode_what_is_left() {
    // "中" in a two-byte encoding looks like "N-" in single bytes.
    let gb = || Encoding::SimpleEncoding(b"UniGB-UCS2-H");
    let page = Page::default().with_encoding("F1", gb());
    assert_eq!(page.text(&[0x4E, 0x2D], "F1", None).as_deref(), Some("中"));
    let page = Page::default().with_encoding("F2", gb());
    assert_eq!(page.text(&[0x4E, 0x2D], "F1", None).as_deref(), Some("N-"));
    // An encoding that cannot decode leaves single bytes.
    let page = Page::default().with_encoding("F1", Encoding::SimpleEncoding(b"Unknown"));
    assert_eq!(page.text(&[0x4E, 0x2D], "F1", None).as_deref(), Some("N-"));
}

fn late(bytes: &[u8], base: Option<&str>, has_cmap: bool, encoded: Option<&str>) -> Option<String> {
    decode_late(bytes, base, true, &[], has_cmap, encoded.map(str::to_string)).map(|d| d.text)
}

#[test]
fn encoded_text_with_replacements_gives_way() {
    let some = |text: &str| Some(text.to_string());
    assert_eq!(late(b"ab", None, true, Some("x\u{92}")), some("x’"));
    assert_eq!(late(b"ab", None, true, Some("\u{FFFD}")), some("ab"));
    assert_eq!(
        late(&[0x80, 0x41], Some("Symbol"), true, Some("\u{FFFD}")),
        some("\u{F080}\u{F041}")
    );
    assert_eq!(late(&[0x80], None, true, Some("\u{FFFD}")), None);
    assert_eq!(late(&[0x80], None, false, Some("\u{FFFD}")), some("€"));
    assert_eq!(late(&[0x80], None, true, None), some("€"));
    assert_eq!(late(&[], None, true, None), some(""));
}

#[test]
fn markers_stand_for_pairs_of_bytes() {
    let info = make_font_info(&[(0xCDD9, 700)], 500, true);
    let mark = |bytes: &[u8]| {
        decode_early(bytes, true, None, false, &raw_glyph_widths(bytes, &info)).unwrap()
    };
    let two = mark(&[0xCD, 0xD9, 0, 1]);
    assert_eq!(two.text, "\u{FFFD}\u{FFFD}");
    assert_eq!(two.glyphs.len(), 2);
    assert_eq!(two.glyphs[0].cid, Some(0xCDD9));
    assert_eq!(two.glyphs[0].raw_widths, vec![700]);
    // A single byte is marked as well, by one glyph without a code.
    let one = mark(&[0xCD]);
    assert_eq!(one.text, "\u{FFFD}");
    assert_eq!(one.glyphs[0].code_count, 0);
    assert!(decode_early(&[1, 2], true, None, false, &[]).is_none());
}

#[test]
fn symbol_fonts_show_what_they_mean() {
    let text = |bytes: &[u8], base| Page::default().text(bytes, "F1", Some(base)).unwrap();
    assert_eq!(text(&[0xB7, 0x20, 0x41], "Wingdings"), "• A");
    assert_eq!(text(&[0xFC], "ABCDEF+Wingdings-Regular"), "✓");
    assert_eq!(text(&[0xBC, 0x31], "AA+TeXCMMathsSymbols"), "=1");
}

#[test]
fn glyphs_add_up_to_their_operand() {
    let info = || make_font_info(&[(32, 250), (0x41, 600)], 500, false);
    let cases: [(&[u8], Page); 4] = [
        (b"A b A", Page::default().with_widths("F1", info())),
        (
            &[0xFE, 0xFF, 0, 0x41, 0, 32],
            Page::default().with_widths("F1", info()),
        ),
        (
            &[1, 32, 2],
            Page::default().with_widths("F1", info()).with_differences("F1", &[(1, 'x')]),
        ),
        (
            &[0xCD, 0x20],
            Page::default().with_widths("F1", make_font_info(&[], 7, true)),
        ),
    ];
    for (bytes, page) in cases {
        let is_cid = page.widths.as_ref().unwrap().get("F1").unwrap().is_cid;
        let info = if is_cid { make_font_info(&[], 7, true) } else { info() };
        let widths = raw_glyph_widths(bytes, &info);
        let (text, glyphs) =
            page.decode(bytes, "F1", None, None, None, &mut CMapDecisionCache::new());
        let shown: String = glyphs.iter().map(|g| g.text.as_str()).collect();
        assert_eq!(Some(shown), text);
        let raw: Vec<u16> = glyphs.iter().flat_map(|g| g.raw_widths.clone()).collect();
        assert_eq!(raw, widths.iter().map(|w| w.raw_width).collect::<Vec<u16>>());
        let codes: usize = glyphs.iter().map(|g| g.code_count as usize).sum();
        assert_eq!(codes, widths.len());
        let spaces: usize = glyphs.iter().map(|g| g.space_count as usize).sum();
        assert_eq!(spaces, widths.iter().filter(|w| w.is_space).count());
    }
}

#[test]
fn text_does_not_depend_on_widths() {
    let bytes = [1, 0x41, 0x92];
    let page = |info| Page::default().with_widths("F1", info).with_differences("F1", &[(1, 'x')]);
    let narrow = page(make_font_info(&[], 1, false)).text(&bytes, "F1", None);
    let wide = page(make_font_info(&[(0x41, 900)], 1000, false)).text(&bytes, "F1", None);
    assert_eq!(narrow, wide);
    assert_eq!(narrow.as_deref(), Some("xA’"));
}

#[test]
fn unused_maps_are_not_needed() {
    let empty: HashMap<u8, char> = HashMap::new();
    assert!(decode_early(b"abc", false, Some(&empty), true, &[]).is_none());
    assert!(decode_early(b"abc", false, None, true, &[]).is_none());
}

#[test]
fn entries_are_picked_by_name_and_by_object() {
    let mut inline = NameMap::new();
    inline.insert("F1".to_string(), "own 1");
    inline.insert("F3".to_string(), "own 3");
    let mut refs = NameMap::new();
    refs.insert("F1".to_string(), 7);
    refs.insert("F2".to_string(), 8);
    refs.insert("F3".to_string(), 9);
    let by_object = HashMap::from([(7, "object 7"), (8, "object 8")]);
    let pick = |font: &str| font_entries(font, &inline, &refs, &by_object);
    assert_eq!(pick("F1"), (Some(&"own 1"), Some(&"object 7")));
    assert_eq!(pick("F2"), (None, Some(&"object 8")));
    assert_eq!(pick("F3"), (Some(&"own 3"), None));
    assert_eq!(pick("F4"), (None, None));
}

#[test]
fn the_picked_entries_decode_the_operand() {
    let bytes = [0u8, 1];
    let mut inline = NameMap::new();
    inline.insert("F1".to_string(), cmap(2, &[(1, "own")]));
    let by_object =
        HashMap::from([(7, cmap(2, &[(1, "seven")])), (8, cmap(2, &[(1, "eight")]))]);
    let text = |font: &str| {
        let mut refs = NameMap::new();
        refs.insert("F1".to_string(), 7);
        refs.insert("F2".to_string(), 8);
        let (own, referenced) = font_entries(font, &inline, &refs, &by_object);
        let own = own.map(|cmap| entry(cmap, &bytes));
        let referenced = referenced.map(|cmap| entry(cmap, &bytes));
        let page = Page::default()
            .with_widths(font, make_font_info(&[], 1000, true))
            .with_ref("F1", 7)
            .with_ref("F2", 8);
        let mut decisions = CMapDecisionCache::new();
        page.decode(&bytes, font, None, own.as_ref(), referenced.as_ref(), &mut decisions).0
    };
    assert_eq!(text("F1").as_deref(), Some("own"));
    assert_eq!(text("F2").as_deref(), Some("eight"));
}
