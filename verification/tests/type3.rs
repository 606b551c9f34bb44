use pdf_text::number::Number;
use pdf_text::object::{Dictionary, Document, Object};
use pdf_text::type3::{build_type3_scales, inconsistent_scale, type3_boxes};

fn dict(entries: Vec<(&str, Object)>) -> Dictionary {
    Dictionary {
        entries: entries
            .into_iter()
            .map(|(key, value)| (key.as_bytes().to_vec(), value))
            .collect(),
    }
}

fn name(text: &str) -> Object {
    Object::Name(text.as_bytes().to_vec())
}

fn value(number: Number) -> f32 {
    match number {
        Number::Integer(n) => n as f32,
        Number::Real(bits) => f32::from_bits(bits),
    }
}

/// The scale of a font on a page, where it is not taken as consistent.
fn scale_of(doc: &Document, resource: &str, font: &Dictionary) -> Option<f32> {
    let fonts = vec![(resource.as_bytes().to_vec(), font)];
    let measured = type3_boxes(doc, &fonts)
        .into_iter()
        .map(|(name, b)| {
            let scale_y = (value(b.matrix_c).powi(2) + value(b.matrix_d).powi(2)).sqrt();
            let height = (value(b.top) - value(b.bottom)).abs();
            (name, (height * scale_y).to_bits())
        })
        .collect();
    build_type3_scales(measured)
        .get(resource)
        .map(|bits| f32::from_bits(*bits))
}

#[test]
fn type3_scale_resolves_indirect_matrix_and_bbox_numbers() {
    let mut doc = Document::new();
    doc.insert((1, 0), Object::Real((-1.0f32).to_bits()));
    doc.insert((2, 0), Object::Integer(3));
    let font = dict(vec![
        ("Type", name("Font")),
        ("Subtype", name("Type3")),
        (
            "FontMatrix",
            Object::Array(vec![
                Object::Integer(1),
                Object::Integer(0),
                Object::Integer(0),
                Object::Reference((1, 0)),
                Object::Integer(0),
                Object::Integer(0),
            ]),
        ),
        (
            "FontBBox",
            Object::Array(vec![
                Object::Integer(1),
                Object::Integer(-156),
                Object::Integer(37),
                Object::Reference((2, 0)),
            ]),
        ),
    ]);
    let scale = scale_of(&doc, "T2", &font).unwrap_or(1.0);
    // Height 159, matrix 1.
    assert!(
        (scale - 159.0).abs() < 0.5,
        "scale should use resolved indirect values, got {scale}"
    );
}

fn type3_font(subtype: &str, matrix_y: f32, bbox_lo: i64, bbox_hi: i64) -> Dictionary {
    let real = || Object::Real(matrix_y.to_bits());
    dict(vec![
        ("Type", name("Font")),
        ("Subtype", name(subtype)),
        (
            "FontMatrix",
            Object::Array(vec![
                real(),
                Object::Integer(0),
                Object::Integer(0),
                real(),
                Object::Integer(0),
                Object::Integer(0),
            ]),
        ),
        (
            "FontBBox",
            Object::Array(vec![
                Object::Integer(0),
                Object::Integer(bbox_lo),
                Object::Integer(600),
                Object::Integer(bbox_hi),
            ]),
        ),
    ])
}

fn type3_scale_for(matrix_y: f32, bbox_lo: i64, bbox_hi: i64) -> Option<f32> {
    scale_of(
        &Document::new(),
        "T9",
        &type3_font("Type3", matrix_y, bbox_lo, bbox_hi),
    )
}

#[test]
fn type3_scale_skips_self_consistent_fonts() {
    // A box of 700 units at a thousandth: scale 0.7.
    assert_eq!(type3_scale_for(0.001, -200, 500), None);
    // A box slightly over the em: scale 1.1.
    assert_eq!(type3_scale_for(0.001, -100, 1000), None);
}

#[test]
fn type3_scale_applies_to_inconsistent_fonts_at_any_matrix_scale() {
    let s = type3_scale_for(0.005, 0, 1000).expect("0.005 matrix should rescale");
    assert!((s - 5.0).abs() < 0.01, "got {s}");
    // Bitmap fonts: unit matrix, glyphs spanning 159 units.
    let s = type3_scale_for(1.0, -156, 3).expect("PK pattern should rescale");
    assert!((s - 159.0).abs() < 0.5, "got {s}");
}

#[test]
fn type3_scale_ignores_degenerate_bbox() {
    // [0 0 0 0] is legal and carries no size information.
    assert_eq!(type3_scale_for(0.001, 0, 0), None);
}

#[test]
fn only_type3_fonts_with_both_arrays_have_a_box() {
    let doc = Document::new();
    let other = type3_font("Type1", 1.0, -156, 3);
    assert_eq!(scale_of(&doc, "T9", &other), None);
    let bare = dict(vec![("Subtype", name("Type3"))]);
    assert_eq!(type3_boxes(&doc, &[(b"T9".to_vec(), &bare)]).len(), 0);
    let mut short = type3_font("Type3", 1.0, -156, 3);
    short.entries[3].1 = Object::Array(vec![Object::Integer(0)]);
    assert_eq!(type3_boxes(&doc, &[(b"T9".to_vec(), &short)]).len(), 0);
}

#[test]
fn band_of_consistent_scales_has_its_ends() {
    for scale in [0.25f32, 0.7, 1.0, 4.0, 0.0, -5.0, f32::INFINITY, f32::NAN] {
        assert!(!inconsistent_scale(scale.to_bits()), "{scale}");
    }
    for scale in [0.249f32, 4.001, 159.0, 1.0e-40, f32::MAX] {
        assert!(inconsistent_scale(scale.to_bits()), "{scale}");
    }
}

#[test]
fn kept_scales_are_the_inconsistent_ones() {
    let kept = build_type3_scales(vec![
        ("A".to_string(), 159.0f32.to_bits()),
        ("B".to_string(), 1.0f32.to_bits()),
        ("C".to_string(), 0.1f32.to_bits()),
    ]);
    assert_eq!(kept.get("A"), Some(&159.0f32.to_bits()));
    assert_eq!(kept.get("B"), None);
    assert_eq!(kept.get("C"), Some(&0.1f32.to_bits()));
}
