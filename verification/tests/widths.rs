use pdf_text::cid_widths::{
    assign_cid_width, assign_cid_width_range, parse_cid_w_array, MAX_CID_W_EXPANSION,
};
use pdf_text::names::NameMap;
use pdf_text::number::Number;
use pdf_text::object::{Dictionary, Document, Object};
use pdf_text::widths::{
    build_font_widths, parse_font_widths, parse_simple_font_widths, parse_type0_widths,
    raw_glyph_widths, FontWidthInfo, RawGlyphWidth, SpaceWidth, StandardFont, UnitsScale,
};
use std::collections::HashMap;

fn dict(entries: Vec<(&str, Object)>) -> Dictionary {
    Dictionary {
        entries: entries
            .into_iter()
            .map(|(key, value)| (key.as_bytes().to_vec(), value))
            .collect(),
    }
}

fn name(text: &str) -> Object {
    Object::Name(text.as_bytes().to_vec())
}

fn integer(n: i64) -> Object {
    Object::Integer(n)
}

fn decimal(x: f32) -> Object {
    Object::Real(x.to_bits())
}

fn make_font_info(widths: &[(u16, u16)], default_width: u16, is_cid: bool) -> FontWidthInfo {
    FontWidthInfo {
        widths: widths.iter().copied().collect(),
        default_width,
        space_width: SpaceWidth::Units(
            widths
                .iter()
                .find(|(k, _)| *k == 32)
                .map(|(_, v)| *v)
                .unwrap_or(default_width),
        ),
        is_cid,
        units_scale: UnitsScale::Thousandth,
        wmode: 0,
    }
}

/// The width of an operand in text space.
fn compute_string_width_ts(bytes: &[u8], info: &FontWidthInfo, size: f32, tc: f32, tw: f32) -> f32 {
    let widths = raw_glyph_widths(bytes, info);
    let total: f32 = widths.iter().map(|w| w.raw_width as f32).sum();
    let spaces = widths.iter().filter(|w| w.is_space).count();
    total * 0.001 * size + widths.len() as f32 * tc + spaces as f32 * tw
}

#[test]
fn compute_string_width_ts_no_tc_tw() {
    let fi = make_font_info(&[(72, 500), (101, 400), (108, 300)], 600, false);
    let bytes = b"Hello"; // H=500, e=400, l=300, l=300, o=600(default)
    let w = compute_string_width_ts(bytes, &fi, 10.0, 0.0, 0.0);
    // (500+400+300+300+600) * 0.001 * 10 = 21.0
    assert!((w - 21.0).abs() < 0.01);
}

#[test]
fn compute_string_width_ts_with_positive_tc() {
    let fi = make_font_info(&[], 500, false);
    let w = compute_string_width_ts(b"ab", &fi, 10.0, 0.5, 0.0);
    // glyph: (500+500)*0.001*10 = 10.0, Tc: 2*0.5 = 1.0, total = 11.0
    assert!((w - 11.0).abs() < 0.01);
}

#[test]
fn compute_string_width_ts_with_negative_tc() {
    let fi = make_font_info(&[], 500, false);
    let w = compute_string_width_ts(b"ab", &fi, 10.0, -0.3, 0.0);
    // glyph: 10.0, Tc: 2*(-0.3) = -0.6, total = 9.4
    assert!((w - 9.4).abs() < 0.01);
}

#[test]
fn compute_string_width_ts_with_tw() {
    let fi = make_font_info(&[(32, 250)], 500, false);
    let w = compute_string_width_ts(b"a b", &fi, 10.0, 0.0, 0.8);
    // glyph: (500+250+500)*0.001*10 = 12.5, Tw: 1*0.8 = 0.8, total = 13.3
    assert!((w - 13.3).abs() < 0.01);
}

#[test]
fn compute_string_width_ts_with_tc_and_tw() {
    let fi = make_font_info(&[(32, 250)], 500, false);
    let w = compute_string_width_ts(b"a b", &fi, 10.0, 0.1, 0.5);
    // glyph: 12.5, Tc: 3*0.1 = 0.3, Tw: 1*0.5 = 0.5, total = 13.3
    assert!((w - 13.3).abs() < 0.01);
}

#[test]
fn compute_string_width_ts_cid_font() {
    let fi = make_font_info(&[(65, 500), (32, 250)], 600, true);
    // "A " in pairs of bytes
    let w = compute_string_width_ts(&[0u8, 65, 0, 32], &fi, 12.0, 0.2, 0.3);
    // glyph: (500+250)*0.001*12 = 9.0, Tc: 2*0.2 = 0.4, Tw: 1*0.3 = 0.3
    assert!((w - 9.7).abs() < 0.01);
}

#[test]
fn compute_string_width_ts_large_tc() {
    let fi = make_font_info(&[], 500, false);
    let w = compute_string_width_ts(b"abc", &fi, 10.0, 5.0, 0.0);
    // glyph: (500*3)*0.001*10 = 15.0, Tc: 3*5.0 = 15.0, total = 30.0
    assert!((w - 30.0).abs() < 0.01);
}

#[test]
fn raw_widths_pair_up_with_codes() {
    let fi = make_font_info(&[(0x0102, 7), (32, 9)], 600, true);
    let w = |code, raw_width, is_space| RawGlyphWidth {
        code,
        raw_width,
        is_space,
    };
    // An odd last byte has no code.
    assert_eq!(
        raw_glyph_widths(&[1, 2, 0, 32, 3], &fi),
        vec![w(0x0102, 7, false), w(32, 9, true)]
    );
    let fi = make_font_info(&[(32, 9)], 600, false);
    assert_eq!(
        raw_glyph_widths(&[1, 32], &fi),
        vec![w(1, 600, false), w(32, 9, true)]
    );
    assert_eq!(raw_glyph_widths(&[], &fi), vec![]);
}

#[test]
fn parse_cid_w_array_range_and_consecutive() {
    let doc = Document::new();
    let mut widths = HashMap::new();
    let w = vec![
        integer(10),
        integer(12),
        integer(500),
        integer(20),
        Object::Array(vec![integer(100), integer(200)]),
    ];
    parse_cid_w_array(&doc, &w, &mut widths);
    assert_eq!(widths.get(&10), Some(&500));
    assert_eq!(widths.get(&11), Some(&500));
    assert_eq!(widths.get(&12), Some(&500));
    assert_eq!(widths.get(&20), Some(&100));
    assert_eq!(widths.get(&21), Some(&200));
    assert_eq!(widths.len(), 5);
}

#[test]
fn parse_cid_w_array_repeated_full_ranges_stay_bounded() {
    let doc = Document::new();
    let mut widths = HashMap::new();
    let mut w = Vec::new();
    for _ in 0..5_000 {
        w.push(integer(0));
        w.push(integer(65535));
        w.push(integer(500));
    }
    parse_cid_w_array(&doc, &w, &mut widths);
    assert!(widths.len() <= MAX_CID_W_EXPANSION);
    assert_eq!(widths.get(&0), Some(&500));
    assert_eq!(widths.get(&65535), Some(&500));
}

#[test]
fn cid_widths_stop_at_their_limit() {
    let doc = Document::new();
    let mut widths = HashMap::new();
    // The first range uses up all assignments but one.
    let w: Vec<Object> = [1, 65535, 7, 0, 5, 9, 3, 3, 1].map(integer).into();
    parse_cid_w_array(&doc, &w, &mut widths);
    assert_eq!(widths.len(), 65_536);
    assert_eq!(widths.get(&0), Some(&9));
    assert_eq!(widths.get(&1), Some(&7));
    assert_eq!(widths.get(&3), Some(&7));
}

#[test]
fn cid_widths_pass_over_what_is_no_number() {
    let mut doc = Document::new();
    doc.insert((4, 0), Object::Array(vec![integer(11), Object::Null, integer(13)]));
    doc.insert((5, 0), integer(8));
    let mut widths = HashMap::new();
    let w = vec![
        name("x"),
        integer(1),
        Object::Reference((4, 0)),
        integer(10),
        Object::Reference((5, 0)),
        decimal(20.9),
        decimal(21.0),
        decimal(3.7),
        integer(30),
        integer(31),
        Object::Null,
        integer(40),
        integer(39),
        integer(1),
        integer(50),
    ];
    parse_cid_w_array(&doc, &w, &mut widths);
    let expected: HashMap<u16, u16> = [(1, 11), (3, 13), (20, 3), (21, 3)].into();
    assert_eq!(widths, expected);
}

#[test]
fn later_cid_widths_replace_earlier_ones() {
    let doc = Document::new();
    let mut widths: HashMap<u16, u16> = [(2, 1), (9, 1)].into();
    let w = vec![integer(2), integer(3), integer(5), integer(3), Object::Array(vec![integer(6)])];
    parse_cid_w_array(&doc, &w, &mut widths);
    let expected: HashMap<u16, u16> = [(2, 5), (3, 6), (9, 1)].into();
    assert_eq!(widths, expected);
}

#[test]
fn single_assignments_count() {
    let mut widths = HashMap::new();
    let mut assigned = MAX_CID_W_EXPANSION - 1;
    assert!(assign_cid_width(&mut widths, 5, &Object::Null, &mut assigned));
    assert_eq!(assigned, MAX_CID_W_EXPANSION - 1);
    assert!(assign_cid_width(&mut widths, 5, &integer(1), &mut assigned));
    assert!(!assign_cid_width(&mut widths, 6, &integer(1), &mut assigned));
    assert_eq!(assigned, MAX_CID_W_EXPANSION);
    assert_eq!(widths.len(), 1);

    let mut assigned = MAX_CID_W_EXPANSION - 2;
    assert!(!assign_cid_width_range(&mut widths, 10, 13, 2, &mut assigned));
    assert_eq!(widths.get(&11), Some(&2));
    assert_eq!(widths.get(&12), None);
    assert!(assign_cid_width_range(&mut widths, 13, 10, 2, &mut assigned));
}

fn simple_font(entries: Vec<(&str, Object)>) -> Dictionary {
    font_of("Type1", entries)
}

fn font_of(subtype: &str, entries: Vec<(&str, Object)>) -> Dictionary {
    let mut all = vec![("Subtype", name(subtype)), ("BaseFont", name("Custom"))];
    all.extend(entries);
    dict(all)
}

#[test]
fn simple_widths_run_from_first_to_last() {
    let mut doc = Document::new();
    doc.insert((1, 0), integer(31));
    doc.insert((2, 0), decimal(444.9));
    let font = simple_font(vec![
        ("FirstChar", Object::Reference((1, 0))),
        ("LastChar", integer(34)),
        (
            "Widths",
            Object::Array(vec![
                integer(100),
                decimal(250.5),
                Object::Reference((2, 0)),
                Object::Null,
                integer(999),
            ]),
        ),
    ]);
    let info = parse_simple_font_widths(&doc, &font).unwrap();
    let expected: HashMap<u16, u16> = [(31, 100), (32, 250), (33, 444)].into();
    assert_eq!(info.widths, expected);
    assert_eq!(info.space_width, SpaceWidth::Units(250));
    assert_eq!(info.default_width, 0);
    assert_eq!(info.units_scale, UnitsScale::Thousandth);
    assert!(!info.is_cid);
    assert_eq!(info.wmode, 0);
}

#[test]
fn simple_widths_need_all_three_entries() {
    let doc = Document::new();
    let widths = || Object::Array(vec![integer(1)]);
    for font in [
        simple_font(vec![("FirstChar", integer(0)), ("LastChar", integer(0))]),
        simple_font(vec![("FirstChar", integer(0)), ("Widths", widths())]),
        simple_font(vec![("LastChar", integer(0)), ("Widths", widths())]),
        simple_font(vec![
            ("FirstChar", decimal(0.0)),
            ("LastChar", integer(0)),
            ("Widths", widths()),
        ]),
    ] {
        assert!(parse_simple_font_widths(&doc, &font).is_none());
    }
}

fn scaled_font(first: Object) -> FontWidthInfo {
    scaled_font_of("Type3", first)
}

fn scaled_font_of(subtype: &str, first: Object) -> FontWidthInfo {
    let font = font_of(subtype, vec![
        ("FirstChar", integer(65)),
        ("LastChar", integer(66)),
        ("Widths", Object::Array(vec![integer(10), integer(21)])),
        ("FontMatrix", Object::Array(vec![first, integer(0)])),
    ]);
    parse_simple_font_widths(&Document::new(), &font).unwrap()
}

#[test]
fn space_of_an_unusual_scale_is_a_share_of_the_mean() {
    let share = SpaceWidth::ShareOfMean {
        total: 31,
        count: 2,
    };
    for x in [0.000_499_9f32, 0.002, 0.12, -0.12, 1.0, 0.0, f32::INFINITY] {
        assert!((x.abs() - 0.001).abs() > 0.0005, "{x}");
        assert_eq!(scaled_font(decimal(x)).space_width, share, "{x}");
    }
    for x in [0.0005f32, 0.001, -0.001, 0.0014, 0.0015, f32::NAN] {
        assert!(!((x.abs() - 0.001).abs() > 0.0005), "{x}");
        assert_eq!(scaled_font(decimal(x)).space_width, SpaceWidth::Units(250), "{x}");
    }
    assert_eq!(scaled_font(integer(1)).space_width, share);
    assert_eq!(scaled_font(integer(0)).space_width, share);
    assert_eq!(scaled_font(name("x")).space_width, SpaceWidth::Units(250));
    assert_eq!(scaled_font(integer(2)).units_scale, UnitsScale::Magnitude(Number::Integer(2)));
}

#[test]
fn only_type3_fonts_have_a_scale_of_their_own() {
    for subtype in ["Type1", "TrueType", "MMType1"] {
        for first in [decimal(0.002), decimal(0.12), integer(1)] {
            let info = scaled_font_of(subtype, first);
            assert_eq!(info.units_scale, UnitsScale::Thousandth);
            assert_eq!(info.space_width, SpaceWidth::Units(250));
        }
    }
    let entries = || {
        vec![
            ("FirstChar", integer(65)),
            ("LastChar", integer(65)),
            ("Widths", Object::Array(vec![integer(500)])),
            ("FontMatrix", Object::Array(vec![decimal(0.002)])),
        ]
    };
    let doc = Document::new();
    let info = parse_simple_font_widths(&doc, &font_of("TrueType", entries())).unwrap();
    assert_eq!(info.units_scale, UnitsScale::Thousandth);
    assert_eq!(info.space_width, SpaceWidth::Units(250));
    // A font that does not say what it is has no scale of its own either.
    let info = parse_simple_font_widths(&doc, &dict(entries())).unwrap();
    assert_eq!(info.units_scale, UnitsScale::Thousandth);
    let info = parse_simple_font_widths(&doc, &font_of("Type3", entries())).unwrap();
    assert_eq!(info.units_scale, UnitsScale::Magnitude(Number::Real(0.002f32.to_bits())));
    assert_eq!(info.space_width, SpaceWidth::ShareOfMean { total: 500, count: 1 });
}

#[test]
fn the_band_of_usual_scales_has_its_ends() {
    for bits in 0x3A03_1200u32..0x3A03_1300 {
        let x = f32::from_bits(bits);
        let unusual = (x - 0.001f32).abs() > 0.0005;
        assert_eq!(
            scaled_font(Object::Real(bits)).space_width != SpaceWidth::Units(250),
            unusual,
            "{bits:x}"
        );
    }
    for bits in 0x3AC4_9B00u32..0x3AC4_9C00 {
        let x = f32::from_bits(bits);
        let unusual = (x - 0.001f32).abs() > 0.0005;
        assert_eq!(
            scaled_font(Object::Real(bits)).space_width != SpaceWidth::Units(250),
            unusual,
            "{bits:x}"
        );
    }
}

#[test]
fn composite_widths_come_from_the_descendant() {
    let mut doc = Document::new();
    doc.insert(
        (7, 0),
        Object::Dictionary(dict(vec![
            ("DW", integer(600)),
            ("W", Object::Array(vec![integer(3), Object::Array(vec![integer(222)])])),
        ])),
    );
    let font = dict(vec![
        ("Subtype", name("Type0")),
        ("WMode", integer(1)),
        ("DescendantFonts", Object::Array(vec![Object::Reference((7, 0))])),
    ]);
    let info = parse_type0_widths(&doc, &font).unwrap();
    assert_eq!(info.widths, HashMap::from([(3, 222)]));
    assert_eq!(info.default_width, 600);
    // Character 3 stands in for a missing space.
    assert_eq!(info.space_width, SpaceWidth::Units(222));
    assert!(info.is_cid);
    assert_eq!(info.wmode, 1);

    let plain = |entries| {
        let font = dict(vec![
            ("Subtype", name("Type0")),
            (
                "DescendantFonts",
                Object::Array(vec![Object::Dictionary(dict(entries))]),
            ),
        ]);
        parse_type0_widths(&Document::new(), &font).unwrap()
    };
    assert_eq!(plain(vec![]).default_width, 1000);
    assert_eq!(plain(vec![]).space_width, SpaceWidth::Units(250));
    assert_eq!(plain(vec![("DW", integer(400))]).space_width, SpaceWidth::Units(100));
    assert_eq!(plain(vec![("DW", integer(0))]).space_width, SpaceWidth::Units(250));
    let none = dict(vec![("DescendantFonts", Object::Array(vec![]))]);
    assert!(parse_type0_widths(&Document::new(), &none).is_none());
}

fn standard_fonts() -> NameMap<StandardFont> {
    let mut fonts = NameMap::new();
    fonts.insert(
        "Helvetica".to_string(),
        StandardFont {
            builtin: HashMap::new(),
            char_widths: HashMap::from([(' ' as u32, 278), ('A' as u32, 667), ('’' as u32, 222)]),
        },
    );
    fonts.insert(
        "Symbol".to_string(),
        StandardFont {
            builtin: HashMap::from([(0x61, 'α')]),
            char_widths: HashMap::from([('α' as u32, 631), ('a' as u32, 1)]),
        },
    );
    fonts
}

#[test]
fn standard_fonts_bring_their_own_widths() {
    let doc = Document::new();
    let fonts = standard_fonts();
    let names: NameMap<char> = NameMap::new();
    let font = dict(vec![("Subtype", name("Type1")), ("BaseFont", name("Helvetica"))]);
    let info = parse_font_widths(&doc, &font, &names, &fonts).unwrap();
    // The apostrophe stands where Windows-1252 has it.
    assert_eq!(info.widths, HashMap::from([(32, 278), (65, 667), (0x92, 222)]));
    assert_eq!(info.default_width, 500);
    assert_eq!(info.space_width, SpaceWidth::Units(278));

    let symbol = dict(vec![("Subtype", name("Type1")), ("BaseFont", name("Symbol"))]);
    let info = parse_font_widths(&doc, &symbol, &names, &fonts).unwrap();
    assert_eq!(info.widths, HashMap::from([(0x61, 631)]));
    assert_eq!(info.space_width, SpaceWidth::Units(250));

    // Differences come before the font's own encoding.
    let mut glyphs = NameMap::new();
    glyphs.insert("Aalt".to_string(), 'A');
    let changed = dict(vec![
        ("Subtype", name("Type1")),
        ("BaseFont", name("Helvetica")),
        (
            "Encoding",
            Object::Dictionary(dict(vec![(
                "Differences",
                Object::Array(vec![integer(1), name("Aalt")]),
            )])),
        ),
    ]);
    let info = parse_font_widths(&doc, &changed, &glyphs, &fonts).unwrap();
    assert_eq!(info.widths.get(&1), Some(&667));

    let other = dict(vec![("Subtype", name("Type1")), ("BaseFont", name("Other"))]);
    assert!(parse_font_widths(&doc, &other, &names, &fonts).is_none());
    // Type3 fonts have no standard widths to fall back on.
    let type3 = dict(vec![("Subtype", name("Type3")), ("BaseFont", name("Helvetica"))]);
    assert!(parse_font_widths(&doc, &type3, &names, &fonts).is_none());
}

#[test]
fn page_widths_hold_the_fonts_that_have_them() {
    let doc = Document::new();
    let names: NameMap<char> = NameMap::new();
    let a = dict(vec![("Subtype", name("TrueType")), ("BaseFont", name("Helvetica"))]);
    let b = dict(vec![("Subtype", name("Unknown"))]);
    let fonts = vec![(b"F1".to_vec(), &a), (b"F2".to_vec(), &b)];
    let widths = build_font_widths(&doc, &fonts, &names, &standard_fonts());
    assert!(widths.get("F1").is_some());
    assert!(widths.get("F2").is_none());
}
