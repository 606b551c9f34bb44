use pdf_text::object::{Dictionary, Document, Object, ObjectId, Stream};
use pdf_text::style::{
    cff_font_name, decoded_or_raw, descriptor_style_flags, font_file_data, font_file_ref,
    get_font_file2_obj_num, named_style_flags, program_style_flags, EmbeddedStyle, FontStyle,
    FontStyleCache,
};

fn dict(entries: Vec<(&str, Object)>) -> Dictionary {
    Dictionary {
        entries: entries
            .into_iter()
            .map(|(key, value)| (key.as_bytes().to_vec(), value))
            .collect(),
    }
}

fn name(text: &str) -> Object {
    Object::Name(text.as_bytes().to_vec())
}

/// The style of a font, with names read by their parts.
fn style_flags(doc: &Document, font: &Dictionary, cache: &mut FontStyleCache) -> (bool, bool) {
    let style = descriptor_style_flags(doc, font, cache);
    let named = match &style {
        FontStyle::ByName { name, .. } => (name.contains("Italic"), name.contains("Bold")),
        FontStyle::Known(..) => (false, false),
    };
    named_style_flags(style, named, cache)
}

fn doc_with_descriptor(descriptor: Dictionary) -> (Document, Dictionary) {
    let mut doc = Document::new();
    doc.insert((1, 0), Object::Dictionary(descriptor));
    let font = dict(vec![
        ("Type", name("Font")),
        ("Subtype", name("TrueType")),
        ("BaseFont", name("Tc1")),
        ("FontDescriptor", Object::Reference((1, 0))),
    ]);
    (doc, font)
}

fn flags_of(angle: Object, flags: i64) -> (bool, bool) {
    let (doc, font) = doc_with_descriptor(dict(vec![
        ("Type", name("FontDescriptor")),
        ("FontName", name("Tc1")),
        ("ItalicAngle", angle),
        ("Flags", Object::Integer(flags)),
    ]));
    style_flags(&doc, &font, &mut FontStyleCache::new())
}

#[test]
fn descriptor_italic_angle_sets_italic() {
    assert_eq!(flags_of(Object::Integer(-12), 32), (true, false));
}

#[test]
fn descriptor_italic_flag_bit_sets_italic() {
    assert_eq!(flags_of(Object::Integer(0), 64), (true, false));
}

#[test]
fn descriptor_force_bold_flag_sets_bold() {
    assert_eq!(flags_of(Object::Integer(0), 1 << 18), (false, true));
}

#[test]
fn tiny_italic_angle_is_not_italic() {
    assert_eq!(
        flags_of(Object::Real((-1.0f32).to_bits()), 32),
        (false, false)
    );
}

#[test]
fn italic_starts_at_four_degrees() {
    assert!(flags_of(Object::Integer(4), 0).0);
    assert!(!flags_of(Object::Integer(3), 0).0);
    assert!(flags_of(Object::Integer(i64::MIN), 0).0);
    assert!(flags_of(Object::Real(4.0f32.to_bits()), 0).0);
    assert!(flags_of(Object::Real((-4.5f32).to_bits()), 0).0);
    assert!(!flags_of(Object::Real(3.99f32.to_bits()), 0).0);
    assert!(!flags_of(Object::Real(f32::NAN.to_bits()), 0).0);
    assert!(flags_of(Object::Real(f32::NEG_INFINITY.to_bits()), 0).0);
    assert!(!flags_of(Object::Null, 0).0);
}

#[test]
fn missing_descriptor_yields_no_flags() {
    let doc = Document::new();
    let font = dict(vec![("Type", name("Font")), ("BaseFont", name("Tc1"))]);
    assert_eq!(
        style_flags(&doc, &font, &mut FontStyleCache::new()),
        (false, false)
    );
}

#[test]
fn type0_descendant_descriptor_is_resolved() {
    let mut doc = Document::new();
    doc.insert(
        (1, 0),
        Object::Dictionary(dict(vec![
            ("Type", name("FontDescriptor")),
            ("FontName", name("ABCDEF+F1")),
            ("ItalicAngle", Object::Integer(-15)),
        ])),
    );
    doc.insert(
        (2, 0),
        Object::Dictionary(dict(vec![
            ("Type", name("Font")),
            ("Subtype", name("CIDFontType2")),
            ("FontDescriptor", Object::Reference((1, 0))),
        ])),
    );
    let font = dict(vec![
        ("Type", name("Font")),
        ("Subtype", name("Type0")),
        ("BaseFont", name("ABCDEF+F1")),
        (
            "DescendantFonts",
            Object::Array(vec![Object::Reference((2, 0))]),
        ),
    ]);
    assert_eq!(
        style_flags(&doc, &font, &mut FontStyleCache::new()),
        (true, false)
    );
}

/// A bare CFF font: header and Name INDEX.
fn bare_cff_with_name(name: &str) -> Vec<u8> {
    let mut data = vec![1, 0, 4, 1]; // major, minor, hdrSize, offSize
    data.extend_from_slice(&1u16.to_be_bytes()); // Name INDEX count
    data.push(1); // offSize
    data.push(1); // offset of first name
    data.push(1 + name.len() as u8); // offset past last name
    data.extend_from_slice(name.as_bytes());
    data
}

fn plain_stream(content: Vec<u8>) -> Object {
    Object::Stream(Stream {
        dict: dict(vec![]),
        content,
    })
}

fn font_with_file(doc: &mut Document, key: &str, id: ObjectId) -> Dictionary {
    doc.insert(
        (1, 0),
        Object::Dictionary(dict(vec![
            ("Type", name("FontDescriptor")),
            ("FontName", name("ABCDEF+Test-BoldItalic")),
            ("ItalicAngle", Object::Integer(0)),
            ("Flags", Object::Integer(32)),
            (key, Object::Reference(id)),
        ])),
    );
    dict(vec![
        ("Type", name("Font")),
        ("Subtype", name("Type1")),
        ("BaseFont", name("Tc1")),
        ("FontDescriptor", Object::Reference((1, 0))),
    ])
}

#[test]
fn embedded_font_style_is_cached_by_font_file_object() {
    let mut doc = Document::new();
    doc.insert(
        (5, 0),
        plain_stream(bare_cff_with_name("ABCDEF+Test-BoldItalic")),
    );
    let font = font_with_file(&mut doc, "FontFile3", (5, 0));

    let mut cache = FontStyleCache::new();
    assert_eq!(style_flags(&doc, &font, &mut cache), (true, true));
    assert_eq!(cache.get((5, 0)), Some((true, true)));
    assert_eq!(cache.get((5, 1)), None);

    // With the font program gone, a repeat call is answered from the cache.
    doc.insert((5, 0), plain_stream(vec![0u8; 4]));
    assert_eq!(style_flags(&doc, &font, &mut cache), (true, true));
    // A cold cache reads what is there now.
    let mut cold = FontStyleCache::new();
    assert_eq!(style_flags(&doc, &font, &mut cold), (false, false));
    assert_eq!(cold.get((5, 0)), Some((false, false)));
}

#[test]
fn a_program_told_by_name_answers_later_fonts() {
    let mut doc = Document::new();
    doc.insert((5, 0), plain_stream(bare_cff_with_name("Test-Bold")));
    let font = font_with_file(&mut doc, "FontFile3", (5, 0));
    let mut cache = FontStyleCache::new();
    assert_eq!(style_flags(&doc, &font, &mut cache), (false, true));

    // A later font declares itself italic; its program is by then unreadable.
    doc.insert((5, 0), plain_stream(vec![0u8; 4]));
    doc.insert(
        (1, 0),
        Object::Dictionary(dict(vec![
            ("Flags", Object::Integer(64)),
            ("FontFile3", Object::Reference((5, 0))),
        ])),
    );
    assert_eq!(style_flags(&doc, &font, &mut cache), (true, true));
    assert_eq!(cache.get((5, 0)), Some((false, true)));
}

#[test]
fn a_font_that_is_all_declared_is_not_read() {
    let mut doc = Document::new();
    let font = font_with_file(&mut doc, "FontFile3", (5, 0));
    doc.insert(
        (1, 0),
        Object::Dictionary(dict(vec![
            ("Flags", Object::Integer(64 | (1 << 18))),
            ("FontFile3", Object::Reference((5, 0))),
        ])),
    );
    let mut cache = FontStyleCache::new();
    assert_eq!(style_flags(&doc, &font, &mut cache), (true, true));
    assert_eq!(cache.get((5, 0)), None);
}

/// A font program of the tables that are needed, with a style.
fn true_type(angle: i32, selection: u16) -> Vec<u8> {
    let mut head = vec![0u8; 54];
    head[0..4].copy_from_slice(&0x0001_0000u32.to_be_bytes());
    head[12..16].copy_from_slice(&0x5F0F_3CF5u32.to_be_bytes());
    head[18..20].copy_from_slice(&1000u16.to_be_bytes());
    let mut hhea = vec![0u8; 36];
    hhea[0..4].copy_from_slice(&0x0001_0000u32.to_be_bytes());
    hhea[34..36].copy_from_slice(&1u16.to_be_bytes());
    let mut maxp = vec![0u8; 6];
    maxp[0..4].copy_from_slice(&0x0000_5000u32.to_be_bytes());
    maxp[4..6].copy_from_slice(&1u16.to_be_bytes());
    let mut os2 = vec![0u8; 96];
    os2[0..2].copy_from_slice(&4u16.to_be_bytes());
    os2[62..64].copy_from_slice(&selection.to_be_bytes());
    let mut post = vec![0u8; 32];
    post[0..4].copy_from_slice(&0x0003_0000u32.to_be_bytes());
    post[4..8].copy_from_slice(&angle.to_be_bytes());

    let tables: [(&[u8; 4], Vec<u8>); 5] = [
        (b"OS/2", os2),
        (b"head", head),
        (b"hhea", hhea),
        (b"maxp", maxp),
        (b"post", post),
    ];
    let mut data = vec![0, 1, 0, 0, 0, 5, 0, 0, 0, 0, 0, 0];
    let mut at = 12 + 16 * tables.len() as u32;
    for (tag, table) in &tables {
        data.extend_from_slice(*tag);
        data.extend_from_slice(&[0; 4]);
        data.extend_from_slice(&at.to_be_bytes());
        data.extend_from_slice(&(table.len() as u32).to_be_bytes());
        at += table.len() as u32;
    }
    for (_, table) in tables {
        data.extend_from_slice(&table);
    }
    data
}

fn embedded(data: &[u8]) -> (bool, bool) {
    match program_style_flags(Some(data)) {
        EmbeddedStyle::Flags(italic, bold) => (italic, bold),
        EmbeddedStyle::Named(name) => panic!("unexpected name {name}"),
    }
}

#[test]
fn font_programs_tell_their_style() {
    assert_eq!(embedded(&true_type(0, 0)), (false, false));
    assert_eq!(embedded(&true_type(0, 1)), (true, false));
    assert_eq!(embedded(&true_type(0, 1 << 5)), (false, true));
    assert_eq!(embedded(&true_type(-12 << 16, 1 << 5)), (true, true));
}

#[test]
fn programs_that_cannot_be_read_tell_nothing() {
    assert_eq!(embedded(&[0, 1, 0, 0]), (false, false));
    assert_eq!(embedded(&[]), (false, false));
    assert!(matches!(
        program_style_flags(None),
        EmbeddedStyle::Flags(false, false)
    ));
    assert!(matches!(
        program_style_flags(Some(&bare_cff_with_name("Face-Italic"))),
        EmbeddedStyle::Named(name) if name == "Face-Italic"
    ));
}

#[test]
fn descriptors_that_claim_upright_are_corrected() {
    let mut doc = Document::new();
    doc.insert((5, 0), plain_stream(true_type(-12 << 16, 1 << 5)));
    let font = font_with_file(&mut doc, "FontFile2", (5, 0));
    let mut cache = FontStyleCache::new();
    assert_eq!(style_flags(&doc, &font, &mut cache), (true, true));
    assert_eq!(cache.get((5, 0)), Some((true, true)));
}

#[test]
fn programs_only_add_to_what_is_declared() {
    let mut doc = Document::new();
    doc.insert((5, 0), plain_stream(true_type(-12 << 16, 0)));
    let font = font_with_file(&mut doc, "FontFile2", (5, 0));
    doc.insert(
        (1, 0),
        Object::Dictionary(dict(vec![
            ("Flags", Object::Integer(1 << 18)),
            ("FontFile2", Object::Reference((5, 0))),
        ])),
    );
    let mut cache = FontStyleCache::new();
    assert_eq!(style_flags(&doc, &font, &mut cache), (true, true));
    assert_eq!(cache.get((5, 0)), Some((true, false)));
}

#[test]
fn cff_names_are_found_by_their_offsets() {
    assert_eq!(
        cff_font_name(&bare_cff_with_name("ABC")),
        Some("ABC".to_string())
    );
    // Two names, offsets of two bytes, a longer header.
    let mut data = vec![1, 0, 6, 2, 0xEE, 0xEE];
    data.extend_from_slice(&[0, 2, 2, 0, 1, 0, 3, 0, 6]);
    data.extend_from_slice(b"XYabc");
    assert_eq!(cff_font_name(&data), Some("XY".to_string()));
    // Bytes that are no UTF-8.
    assert_eq!(
        cff_font_name(&[1, 0, 4, 1, 0, 1, 1, 1, 2, 0xFF]),
        Some("\u{FFFD}".to_string())
    );
}

#[test]
fn broken_cff_has_no_name() {
    let good = bare_cff_with_name("ABC");
    for cut in 0..good.len() {
        assert_eq!(cff_font_name(&good[..cut]), None, "{cut}");
    }
    let with = |at: usize, byte: u8| {
        let mut data = good.clone();
        data[at] = byte;
        data
    };
    assert_eq!(cff_font_name(&with(0, 2)), None); // major version
    assert_eq!(cff_font_name(&with(2, 200)), None); // header past the end
    assert_eq!(cff_font_name(&with(5, 0)), None); // no names
    assert_eq!(cff_font_name(&with(6, 0)), None); // offset size
    assert_eq!(cff_font_name(&with(6, 5)), None);
    assert_eq!(cff_font_name(&with(7, 0)), None); // offset 0
    assert_eq!(cff_font_name(&with(8, 0)), None); // end before start
    assert_eq!(cff_font_name(&with(8, 9)), None); // end past the data
}

fn filtered(filter: Object, content: &[u8]) -> Option<Vec<u8>> {
    decoded(vec![("Filter", filter)], content)
}

fn decoded(entries: Vec<(&str, Object)>, content: &[u8]) -> Option<Vec<u8>> {
    let mut doc = Document::new();
    doc.insert(
        (5, 0),
        Object::Stream(Stream {
            dict: dict(entries),
            content: content.to_vec(),
        }),
    );
    font_file_data(&doc, (5, 0))
}

#[test]
fn font_programs_are_decoded_by_their_filters() {
    let hex = name("ASCIIHexDecode");
    assert_eq!(filtered(hex, b"6162 63>"), Some(b"abc".to_vec()));
    let both = Object::Array(vec![name("ASCIIHexDecode"), name("RunLengthDecode")]);
    assert_eq!(filtered(both, b"FD7A 80>"), Some(b"zzzz".to_vec()));
    // Without filters, and where they fail, the bytes are taken as they are.
    assert_eq!(decoded(vec![], b"raw"), Some(b"raw".to_vec()));
    assert_eq!(filtered(name("Unknown"), b"raw"), Some(b"raw".to_vec()));
    assert_eq!(filtered(Object::Null, b"raw"), Some(b"raw".to_vec()));
    let mixed = Object::Array(vec![name("ASCIIHexDecode"), Object::Null]);
    assert_eq!(filtered(mixed, b"61>"), Some(b"61>".to_vec()));
    assert_eq!(filtered(Object::Array(vec![]), b"raw"), Some(vec![]));
    let then_unknown = Object::Array(vec![name("ASCIIHexDecode"), name("Unknown")]);
    assert_eq!(filtered(then_unknown, b"61>"), Some(b"61>".to_vec()));
    assert_eq!(filtered(name("ASCIIHexDecode"), b"6x>"), Some(b"6x>".to_vec()));
    assert_eq!(filtered(name("ASCII85Decode"), b"87cUR~>"), Some(b"Hell".to_vec()));
    assert_eq!(font_file_data(&Document::new(), (5, 0)), None);
}

#[test]
fn failed_decoding_leaves_the_bytes() {
    assert_eq!(decoded_or_raw(Some(vec![1, 2]), &[3]), vec![1, 2]);
    assert_eq!(decoded_or_raw(Some(vec![]), &[3]), Vec::<u8>::new());
    assert_eq!(decoded_or_raw(None, &[3]), vec![3]);
}

#[test]
fn programs_of_steady_filters_read_the_same_again() {
    let both = || Object::Array(vec![name("ASCIIHexDecode"), name("RunLengthDecode")]);
    let once = filtered(both(), b"01 41 42 FE 43 80>");
    assert_eq!(once, Some(b"ABCCC".to_vec()));
    assert_eq!(filtered(both(), b"01 41 42 FE 43 80>"), once);
}

#[test]
fn filters_are_given_their_parameters() {
    // Stored in one deflate block: two rows of two bytes, each behind its row filter.
    let rows = [2u8, 1, 2, 2, 3, 4];
    let mut zlib = vec![0x78, 0x01, 0x01, 6, 0, 0xF9, 0xFF];
    zlib.extend_from_slice(&rows);
    let (mut a, mut b) = (1u32, 0u32);
    for byte in rows {
        a += byte as u32;
        b += a;
    }
    zlib.extend_from_slice(&(b << 16 | a).to_be_bytes());

    let parms = || {
        Object::Dictionary(dict(vec![
            ("Predictor", Object::Integer(12)),
            ("Columns", Object::Integer(2)),
        ]))
    };
    let flate = || ("Filter", name("FlateDecode"));
    assert_eq!(decoded(vec![flate()], &zlib), Some(rows.to_vec()));
    assert_eq!(
        decoded(vec![flate(), ("DecodeParms", parms())], &zlib),
        Some(vec![1, 2, 4, 6])
    );
    assert_eq!(
        decoded(
            vec![flate(), ("DecodeParms", Object::Array(vec![parms()]))],
            &zlib
        ),
        Some(vec![1, 2, 4, 6])
    );
    // A row longer than the data, for a predictor that works in place.
    let wide = Object::Dictionary(dict(vec![
        ("Predictor", Object::Integer(2)),
        ("Columns", Object::Integer(1 << 24)),
    ]));
    assert_eq!(
        decoded(vec![flate(), ("DecodeParms", wide)], &zlib),
        Some(vec![2, 3, 5, 7, 10, 14])
    );
    // Where a key stands twice, the first entry counts.
    let twice = Object::Dictionary(dict(vec![
        ("Predictor", Object::Integer(12)),
        ("Columns", Object::Integer(2)),
        ("Predictor", Object::Integer(1)),
        ("Columns", Object::Null),
    ]));
    assert_eq!(
        decoded(vec![flate(), ("DecodeParms", twice)], &zlib),
        Some(vec![1, 2, 4, 6])
    );
    // A row whose bits cannot be counted fails, and the bytes are taken as they are.
    let endless = Object::Dictionary(dict(vec![
        ("Columns", Object::Integer(i64::MAX)),
        ("Colors", Object::Integer(i64::MAX)),
    ]));
    assert_eq!(
        decoded(vec![flate(), ("DecodeParms", endless)], &zlib),
        Some(zlib.clone())
    );
    // Parameters of a second filter are not those of the first.
    assert_eq!(
        decoded(
            vec![
                flate(),
                ("DecodeParms", Object::Array(vec![Object::Null, parms()]))
            ],
            &zlib
        ),
        Some(rows.to_vec())
    );
}

#[test]
fn font_files_are_looked_for_in_order() {
    let both = dict(vec![
        ("FontFile3", Object::Reference((3, 0))),
        ("FontFile2", Object::Reference((2, 0))),
    ]);
    assert_eq!(font_file_ref(&both), Some((2, 0)));
    let three = dict(vec![
        ("FontFile2", Object::Null),
        ("FontFile3", Object::Reference((3, 0))),
    ]);
    assert_eq!(font_file_ref(&three), Some((3, 0)));
    assert_eq!(font_file_ref(&dict(vec![])), None);
}

fn type0(encoding: &str, descendant: Object) -> Dictionary {
    dict(vec![
        ("Subtype", name("Type0")),
        ("Encoding", name(encoding)),
        ("DescendantFonts", Object::Array(vec![descendant])),
    ])
}

#[test]
fn cmap_objects_of_fonts_without_tounicode() {
    let mut doc = Document::new();
    doc.insert(
        (1, 0),
        Object::Dictionary(dict(vec![("FontFile2", Object::Reference((9, 0)))])),
    );
    doc.insert((2, 0), Object::Dictionary(dict(vec![])));
    let cid = |descriptor| dict(vec![("FontDescriptor", Object::Reference((descriptor, 0)))]);
    doc.insert((3, 0), Object::Dictionary(cid(1)));
    doc.insert((4, 0), Object::Dictionary(cid(2)));
    doc.insert((5, 0), Object::Dictionary(dict(vec![])));
    let by = |encoding, id| {
        get_font_file2_obj_num(&doc, &type0(encoding, Object::Reference((id, 0))))
    };
    assert_eq!(by("Identity-H", 3), Some(9));
    assert_eq!(by("Identity-V", 3), Some(9));
    assert_eq!(by("UniGB-UCS2-H", 3), None);
    // Without a font program, the descendant itself.
    assert_eq!(by("Identity-H", 4), Some(4));
    assert_eq!(by("Identity-H", 5), None);
    assert_eq!(by("Identity-H", 77), None);
    let inline = type0("Identity-H", Object::Dictionary(cid(2)));
    assert_eq!(get_font_file2_obj_num(&doc, &inline), None);
    let simple = |id| dict(vec![("FontDescriptor", Object::Reference((id, 0)))]);
    assert_eq!(get_font_file2_obj_num(&doc, &simple(1)), Some(9));
    assert_eq!(get_font_file2_obj_num(&doc, &simple(2)), None);
    assert_eq!(get_font_file2_obj_num(&doc, &dict(vec![])), None);
}
