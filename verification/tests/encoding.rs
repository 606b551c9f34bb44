use pdf_text::cmap::{FontCMaps, ToUnicodeCMap};
use pdf_text::encoding::{
    build_font_encodings, is_ligature_char, parse_font_encoding, private_glyph_to_char,
    strip_subset_prefix,
};
use pdf_text::names::NameMap;
use pdf_text::object::{Dictionary, Document, Object};
use std::collections::HashMap;

fn dict(entries: Vec<(&str, Object)>) -> Dictionary {
    Dictionary {
        entries: entries
            .into_iter()
            .map(|(key, value)| (key.as_bytes().to_vec(), value))
            .collect(),
    }
}

fn name(text: &str) -> Object {
    Object::Name(text.as_bytes().to_vec())
}

fn glyph_names() -> NameMap<char> {
    let mut names = NameMap::new();
    names.insert("fi".to_string(), '\u{FB01}');
    names.insert("fl".to_string(), '\u{FB02}');
    names.insert("A".to_string(), 'A');
    names
}

fn doc_with_private_differences() -> Document {
    let mut doc = Document::new();
    doc.insert(
        (3, 0),
        Object::Dictionary(dict(vec![(
            "Differences",
            Object::Array(vec![
                Object::Integer(0x88),
                name("g431"),
                name("fi"),
                Object::Integer(0xAD),
                name("fl"),
            ]),
        )])),
    );
    doc
}

#[test]
fn aptos_private_g431_maps_to_ff_ligature() {
    let doc = doc_with_private_differences();
    let font = dict(vec![
        ("BaseFont", name("NJEQOD+Aptos")),
        ("Encoding", Object::Reference((3, 0))),
    ]);
    let result = parse_font_encoding(&doc, &font, &glyph_names()).expect("encoding should parse");
    assert_eq!(result.map.get(&0x88u8), Some(&'\u{FB00}'));
    assert_eq!(result.map.get(&0x89u8), Some(&'\u{FB01}'));
    assert_eq!(result.map.get(&0xADu8), Some(&'\u{FB02}'));
}

#[test]
fn private_g431_does_not_map_for_unrelated_fonts() {
    let doc = doc_with_private_differences();
    let font = dict(vec![
        ("BaseFont", name("ABCDEF+OtherFont")),
        ("Encoding", Object::Reference((3, 0))),
    ]);
    let result = parse_font_encoding(&doc, &font, &glyph_names()).expect("encoding should parse");
    assert!(!result.map.contains_key(&0x88u8));
    assert_eq!(result.map.get(&0x89u8), Some(&'\u{FB01}'));
    assert_eq!(result.map.get(&0xADu8), Some(&'\u{FB02}'));
}

/// The text of a hexadecimal string of UTF-16 code units.
fn utf16(hex: &str) -> String {
    let units: Vec<u16> = (0..hex.len() / 4)
        .map(|i| u16::from_str_radix(&hex[4 * i..4 * i + 4], 16).unwrap())
        .collect();
    String::from_utf16_lossy(&units)
}

/// The CMap of some `<code> <text>` lines.
fn cmap_of(bfchar: &str) -> ToUnicodeCMap {
    let mut texts = HashMap::new();
    for line in bfchar.lines() {
        let mut parts = line.split(['<', '>', ' ']).filter(|p| !p.is_empty());
        let code = u16::from_str_radix(parts.next().unwrap(), 16).unwrap();
        texts.insert(code, utf16(parts.next().unwrap()));
    }
    ToUnicodeCMap {
        code_byte_length: 1,
        texts,
    }
}

fn gid_flagged(bfchar: Option<&str>) -> bool {
    let mut doc = Document::new();
    doc.insert(
        (9, 0),
        Object::Dictionary(dict(vec![
            ("Type", name("Encoding")),
            (
                "Differences",
                Object::Array(vec![Object::Integer(1), name("gid1283"), name("gid1464")]),
            ),
        ])),
    );
    let mut entries = vec![
        ("Type", name("Font")),
        ("Subtype", name("TrueType")),
        ("BaseFont", name("ABCDEF+OpenSymbol")),
        ("Encoding", Object::Reference((9, 0))),
    ];
    let mut by_object = HashMap::new();
    if let Some(bfchar) = bfchar {
        entries.push(("ToUnicode", Object::Reference((8, 0))));
        by_object.insert(8, cmap_of(bfchar));
    }
    let font = dict(entries);
    let fonts = vec![(b"F1".to_vec(), &font)];
    build_font_encodings(&doc, &fonts, &FontCMaps { by_object }, &glyph_names()).1
}

#[test]
fn gid_differences_with_covering_tounicode_are_not_flagged() {
    assert!(!gid_flagged(Some("<01> <2022>\n<02> <25E6>")));
}

#[test]
fn gid_differences_with_partial_tounicode_are_not_flagged() {
    // A whole emoji sequence on the first code; the other code is left over.
    assert!(!gid_flagged(Some(
        "<01> <D83DDC68200DD83DDC69200DD83DDC67>"
    )));
}

#[test]
fn gid_differences_without_tounicode_are_flagged() {
    assert!(
        gid_flagged(None),
        "gid glyphs without ToUnicode are unresolvable"
    );
}

#[test]
fn gid_differences_with_disjoint_tounicode_are_flagged() {
    assert!(gid_flagged(Some("<10> <0041>")));
}

#[test]
fn gid_differences_with_replacement_char_tounicode_are_flagged() {
    assert!(gid_flagged(Some("<01> <FFFD>\n<02> <FFFD>")));
}

fn differences(items: Vec<Object>) -> pdf_text::encoding::EncodingResult {
    let font = dict(vec![(
        "Encoding",
        Object::Dictionary(dict(vec![("Differences", Object::Array(items))])),
    )]);
    parse_font_encoding(&Document::new(), &font, &glyph_names()).unwrap()
}

#[test]
fn differences_count_on_from_the_last_integer() {
    let result = differences(vec![
        name("A"),
        Object::Integer(255),
        name("fi"),
        name("fl"),
        Object::Null,
        name("unknown"),
        name("A"),
    ]);
    // Codes wrap around, and names that map to nothing still take one.
    assert_eq!(
        result.map,
        HashMap::from([(255, '\u{FB01}'), (0, '\u{FB02}'), (2, 'A')])
    );
}

#[test]
fn glyph_ids_are_gid_and_a_number() {
    let result = differences(vec![
        Object::Integer(65),
        name("gid00053"),
        name("gid"),
        name("gid5x"),
        name("xgid5"),
        name("gid7"),
    ]);
    assert_eq!(result.gid_codes, vec![65, 69]);
}

#[test]
fn standard_encodings_say_nothing() {
    let doc = Document::new();
    for entries in [
        vec![("Encoding", name("WinAnsiEncoding"))],
        vec![],
        vec![("Encoding", Object::Dictionary(dict(vec![])))],
        vec![("Encoding", Object::Reference((1, 0)))],
    ] {
        assert!(parse_font_encoding(&doc, &dict(entries), &glyph_names()).is_none());
    }
}

#[test]
fn page_encodings_hold_the_fonts_that_map_something() {
    let doc = Document::new();
    let with = |item: &str| {
        dict(vec![(
            "Encoding",
            Object::Dictionary(dict(vec![("Differences", Object::Array(vec![name(item)]))])),
        )])
    };
    let (a, b) = (with("A"), with("nothing"));
    let fonts = vec![(b"F1".to_vec(), &a), (b"F2".to_vec(), &b)];
    let cmaps = FontCMaps {
        by_object: HashMap::new(),
    };
    let (encodings, flagged) = build_font_encodings(&doc, &fonts, &cmaps, &glyph_names());
    assert_eq!(encodings.get("F1"), Some(&HashMap::from([(0, 'A')])));
    assert_eq!(encodings.get("F2"), None);
    assert!(!flagged);
}

#[test]
fn private_glyphs_are_scoped_to_their_family() {
    assert_eq!(private_glyph_to_char("g431", Some("APTOS")), Some('\u{FB00}'));
    assert_eq!(private_glyph_to_char("g431", Some("X+aptos")), Some('\u{FB00}'));
    assert_eq!(private_glyph_to_char("g431", Some("A+B+Aptos")), None);
    assert_eq!(private_glyph_to_char("g432", Some("Aptos")), None);
    assert_eq!(private_glyph_to_char("g431", None), None);
}

#[test]
fn subset_tags_end_at_the_first_plus() {
    assert_eq!(strip_subset_prefix("ABCDEF+Times"), "Times");
    assert_eq!(strip_subset_prefix("A+B+C"), "B+C");
    assert_eq!(strip_subset_prefix("Times"), "Times");
    assert_eq!(strip_subset_prefix("Times+"), "");
}

#[test]
fn ligatures_are_ff_to_ffl() {
    assert!(is_ligature_char('\u{FB00}'));
    assert!(is_ligature_char('\u{FB04}'));
    assert!(!is_ligature_char('\u{FB05}'));
    assert!(!is_ligature_char('f'));
}
