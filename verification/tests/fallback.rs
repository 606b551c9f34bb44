use pdf_text::fallback::{
    clean_symbol_pua, decode_single_byte_fallback, decode_single_byte_fallback_char,
    decode_symbol_fallback, normalize_cp1252_controls, remap_texcm_math_symbols, repair,
    should_use_cp1252_single_byte_fallback,
};

#[test]
fn texcm_math_symbols_remap() {
    assert_eq!(
        remap_texcm_math_symbols("S ¼ kB þ 1".into(), Some("EEKVNO+TeXCMMathsSymbols")),
        "S = kB + 1"
    );
    // Other fonts keep their genuine fractions/thorns.
    assert_eq!(
        remap_texcm_math_symbols("¼ cup þorn".into(), Some("Times-Roman")),
        "¼ cup þorn"
    );
    assert_eq!(remap_texcm_math_symbols("¼".into(), None), "¼");
}

#[test]
fn texcm_remap_covers_every_misnamed_glyph() {
    assert_eq!(
        remap_texcm_math_symbols("¼½þðÞx".into(), Some("texcmmathssymbols")),
        "=-+()x"
    );
}

#[test]
fn cached_encoding_decode_normalizes_cp1252_controls() {
    let text = normalize_cp1252_controls("d\u{92}un \u{96} test".to_string(), true);
    assert_eq!(text, "d’un – test");
}

#[test]
fn tex_font_decode_keeps_c1_ligature_bytes_unmodified() {
    let text = normalize_cp1252_controls("de\u{85}ciente \u{87}uid".to_string(), false);
    assert_eq!(text, "de\u{85}ciente \u{87}uid");
    assert!(!should_use_cp1252_single_byte_fallback(
        Some("TTdcr10"),
        false
    ));
    assert!(!should_use_cp1252_single_byte_fallback(
        Some("cmr10"),
        false
    ));
}

#[test]
fn winansi_text_font_uses_cp1252_fallback() {
    assert!(should_use_cp1252_single_byte_fallback(
        Some("BJPQNQ+Times-Roman"),
        false
    ));
}

#[test]
fn cp1252_is_for_text_fonts_alone() {
    assert!(should_use_cp1252_single_byte_fallback(None, false));
    assert!(!should_use_cp1252_single_byte_fallback(None, true));
    assert!(!should_use_cp1252_single_byte_fallback(
        Some("Times-Roman"),
        true
    ));
    for name in [
        "CMB10",
        "A+B+cmmi7",
        "ABCDEF+MSBM10",
        "STIXMath",
        "ZapfDingbats",
        "NotoEmoji",
        "Symbol",
    ] {
        assert!(
            !should_use_cp1252_single_byte_fallback(Some(name), false),
            "{name}"
        );
    }
    // A prefix counts only where the name proper starts.
    assert!(should_use_cp1252_single_byte_fallback(
        Some("cmr+Helvetica"),
        false
    ));
    assert!(should_use_cp1252_single_byte_fallback(Some("Acmr"), false));
}

#[test]
fn bytes_decode_by_cp1252_or_latin1() {
    assert_eq!(decode_single_byte_fallback_char(0x80, true), '€');
    assert_eq!(decode_single_byte_fallback_char(0x80, false), '\u{80}');
    assert_eq!(decode_single_byte_fallback_char(0x81, true), '\u{81}');
    assert_eq!(decode_single_byte_fallback_char(0x9F, true), 'Ÿ');
    assert_eq!(decode_single_byte_fallback_char(b'A', true), 'A');
    assert_eq!(decode_single_byte_fallback_char(0xE9, true), 'é');
    assert_eq!(
        decode_single_byte_fallback(&[b'l', 0x92, b'a'], true),
        "l’a"
    );
    assert_eq!(
        decode_single_byte_fallback(&[b'l', 0x92, b'a'], false),
        "l\u{92}a"
    );
}

#[test]
fn normalizing_twice_is_normalizing_once() {
    let text: String = (0x70..0xB0u8).map(|b| b as char).collect();
    let once = normalize_cp1252_controls(text, true);
    assert_eq!(normalize_cp1252_controls(once.clone(), true), once);
}

#[test]
fn symbol_pua_becomes_what_it_shows() {
    assert_eq!(
        clean_symbol_pua("a\u{F0B7}\u{F0A1}\u{F0A7}\u{F0FC}\u{F041}\u{F0E9}b".to_string()),
        "a•••✓Aéb"
    );
    // The controls of the range, and what lies next to it, stay.
    assert_eq!(
        clean_symbol_pua("\u{F01F}\u{EFFF}\u{F100}".to_string()),
        "\u{F01F}\u{EFFF}\u{F100}"
    );
}

#[test]
fn symbol_fonts_decode_to_private_characters() {
    assert_eq!(
        decode_symbol_fallback(&[0x10, 0x41, 0xB7], Some("ABCDEF+Wingdings-Regular")),
        Some("\u{F041}\u{F0B7}".to_string())
    );
    assert_eq!(decode_symbol_fallback(&[0x41], Some("Times")), None);
    assert_eq!(decode_symbol_fallback(&[0x41], None), None);
    assert_eq!(decode_symbol_fallback(&[0x01], Some("Symbol")), None);
}

#[test]
fn repairs_apply_in_their_order() {
    // A private character that stands for a fraction is cleaned first, then renamed.
    assert_eq!(
        repair("\u{F0BC}\u{92}".to_string(), Some("TeXCMMathsSymbols"), true),
        "=’"
    );
    assert_eq!(
        repair("\u{F0BC}\u{92}".to_string(), Some("Times"), false),
        "¼\u{92}"
    );
}
