use pdf_text::annotations::{
    annotation_items, annotation_text, appearance_box, collect_page_freetext_annots, AnnotText,
    ANNOT_FLAG_HIDDEN,
};
use pdf_text::decode::{extract_text_from_operand, PageFonts};
use pdf_text::items::{ItemType, TextItem};
use pdf_text::names::NameMap;
use pdf_text::number::Number;
use pdf_text::object::{Dictionary, Document, Object, Stream};
use pdf_text::score::CMapDecisionCache;

fn dict(entries: Vec<(&str, Object)>) -> Dictionary {
    Dictionary {
        entries: entries
            .into_iter()
            .map(|(key, value)| (key.as_bytes().to_vec(), value))
            .collect(),
    }
}

fn name(text: &str) -> Object {
    Object::Name(text.as_bytes().to_vec())
}

fn string(text: &str) -> Object {
    Object::String(text.as_bytes().to_vec())
}

fn ints(numbers: &[i64]) -> Object {
    Object::Array(numbers.iter().map(|n| Object::Integer(*n)).collect())
}

fn value(number: Number) -> f32 {
    match number {
        Number::Integer(n) => n as f32,
        Number::Real(bits) => f32::from_bits(bits),
    }
}

/// The position and the extent of a rectangle.
fn rect_of(rect: &[Number; 4]) -> (f32, f32, f32, f32) {
    let [x1, y1, x2, y2] = rect.map(value);
    (x1.min(x2), y1.min(y2), (x2 - x1).abs(), (y2 - y1).abs())
}

fn page_with(doc: &mut Document, annots: Vec<Dictionary>) {
    let mut refs = Vec::new();
    for (i, annot) in annots.into_iter().enumerate() {
        let id = (100 + i as u32, 0);
        doc.insert(id, Object::Dictionary(annot));
        refs.push(Object::Reference(id));
    }
    doc.insert(
        (1, 0),
        Object::Dictionary(dict(vec![("Type", name("Page")), ("Annots", Object::Array(refs))])),
    );
}

/// The items of a page's annotations; `walk` stands for the walk through an appearance stream.
fn extract(doc: &Document, walk: impl Fn([f32; 4]) -> Vec<TextItem>) -> Vec<TextItem> {
    let mut items = Vec::new();
    for annot in collect_page_freetext_annots(doc, (1, 0)) {
        let (x, y, width, height) = rect_of(&annot.rect);
        let contents = annot
            .contents
            .as_ref()
            .map(|bytes| String::from_utf8_lossy(bytes).to_string());
        let mut shown = Vec::new();
        if let AnnotText::Appearance(id) = annotation_text(&annot, contents.clone()) {
            if let Some(placed) = appearance_box(doc, id) {
                let [bx0, by0, bx1, by1] = placed.bbox.map(value);
                let (sx, sy) = (width / (bx1 - bx0), height / (by1 - by0));
                shown = walk([sx, sy, x - bx0 * sx, y - by0 * sy]);
            }
        }
        let rect = (x.to_bits(), y.to_bits(), width.to_bits(), height.to_bits());
        items.extend(annotation_items(&annot, contents, rect, &shown, 1));
    }
    items
}

fn no_walk(_: [f32; 4]) -> Vec<TextItem> {
    panic!("no appearance is to be walked")
}

#[test]
fn freetext_contents_extracted_at_rect_position() {
    let mut doc = Document::new();
    page_with(
        &mut doc,
        vec![dict(vec![
            ("Type", name("Annot")),
            ("Subtype", name("FreeText")),
            ("Contents", string("Margin note\r")),
            ("Rect", ints(&[100, 200, 300, 240])),
        ])],
    );
    let items = extract(&doc, no_walk);
    assert_eq!(items.len(), 1);
    assert_eq!(items[0].text, "Margin note");
    assert_eq!(f32::from_bits(items[0].x), 100.0);
    assert_eq!(f32::from_bits(items[0].y), 200.0);
    assert_eq!(f32::from_bits(items[0].width), 200.0);
    assert_eq!(f32::from_bits(items[0].height), 40.0);
    assert!(matches!(items[0].item_type, ItemType::Annotation));
}

#[test]
fn non_freetext_annotations_are_ignored() {
    let mut doc = Document::new();
    page_with(
        &mut doc,
        vec![dict(vec![
            ("Type", name("Annot")),
            ("Subtype", name("Square")),
            ("Contents", string("not a note")),
            ("Rect", ints(&[100, 200, 300, 240])),
        ])],
    );
    assert!(extract(&doc, no_walk).is_empty());
}

#[test]
fn hidden_freetext_annotation_is_skipped() {
    let mut doc = Document::new();
    page_with(
        &mut doc,
        vec![dict(vec![
            ("Type", name("Annot")),
            ("Subtype", name("FreeText")),
            ("F", Object::Integer(ANNOT_FLAG_HIDDEN)),
            ("Contents", string("hidden note")),
            ("Rect", ints(&[100, 200, 300, 240])),
        ])],
    );
    assert!(extract(&doc, no_walk).is_empty());
}

/// The text of a string shown in Helvetica.
fn shown(text: &str) -> String {
    let (widths, refs) = (NameMap::new(), NameMap::new());
    let (encodings, text_encodings) = (NameMap::new(), NameMap::new());
    let fonts = PageFonts {
        widths: &widths,
        tounicode_refs: &refs,
        encodings: &encodings,
        text_encodings: &text_encodings,
    };
    extract_text_from_operand(
        &string(text),
        "F1",
        Some("Helvetica"),
        &fonts,
        None,
        None,
        &mut CMapDecisionCache::new(),
    )
    .unwrap()
}

fn form_item(text: &str, x: f32, y: f32) -> TextItem {
    TextItem {
        text: text.to_string(),
        x: x.to_bits(),
        y: y.to_bits(),
        width: 0,
        height: 0,
        font: "Helvetica".to_string(),
        font_size: 12.0f32.to_bits(),
        page: 1,
        is_bold: true,
        is_italic: false,
        is_underline: false,
        is_strikeout: false,
        item_type: ItemType::Text,
        mcid: Some(4),
    }
}

#[test]
fn empty_contents_falls_back_to_appearance_stream() {
    let mut doc = Document::new();
    doc.insert(
        (50, 0),
        Object::Stream(Stream {
            dict: dict(vec![
                ("Subtype", name("Form")),
                ("FormType", Object::Integer(1)),
                ("BBox", ints(&[0, 0, 200, 40])),
            ]),
            content: b"BT /F1 12 Tf 5 15 Td (from appearance) Tj ET".to_vec(),
        }),
    );
    page_with(
        &mut doc,
        vec![dict(vec![
            ("Type", name("Annot")),
            ("Subtype", name("FreeText")),
            ("Rect", ints(&[100, 200, 300, 240])),
            (
                "AP",
                Object::Dictionary(dict(vec![("N", Object::Reference((50, 0)))])),
            ),
        ])],
    );
    let items = extract(&doc, |m| {
        vec![
            form_item(&shown("from appearance"), 5.0 * m[0] + m[2], 15.0 * m[1] + m[3]),
            form_item(" \u{A0}\t", 0.0, 0.0),
        ]
    });
    assert_eq!(items.len(), 1);
    assert_eq!(items[0].text.trim(), "from appearance");
    assert!(matches!(items[0].item_type, ItemType::Annotation));
    assert_eq!(items[0].mcid, None);
    assert!(items[0].is_bold);
    // The box maps to the rectangle one to one, so the text lands inside it.
    let (x, y) = (f32::from_bits(items[0].x), f32::from_bits(items[0].y));
    assert!(x >= 100.0 && x <= 300.0);
    assert!(y >= 200.0 && y <= 240.0);
}

fn annot_with(entries: Vec<(&str, Object)>) -> Dictionary {
    let mut all = vec![
        ("Subtype", name("FreeText")),
        ("Rect", ints(&[3, 4, 1, 2])),
        ("Contents", string("note")),
    ];
    all.retain(|(key, _)| !entries.iter().any(|(other, _)| other == key));
    all.extend(entries);
    dict(all)
}

fn count_with(entries: Vec<(&str, Object)>) -> usize {
    let mut doc = Document::new();
    page_with(&mut doc, vec![annot_with(entries)]);
    collect_page_freetext_annots(&doc, (1, 0)).len()
}

#[test]
fn flags_decide_whether_an_annotation_is_shown() {
    assert_eq!(count_with(vec![]), 1);
    assert_eq!(count_with(vec![("F", Object::Integer(0x20))]), 0);
    assert_eq!(count_with(vec![("F", Object::Integer(0x22))]), 0);
    assert_eq!(count_with(vec![("F", Object::Integer(4))]), 1);
    assert_eq!(count_with(vec![("F", Object::Real(2.9f32.to_bits()))]), 0);
    assert_eq!(count_with(vec![("F", name("hidden"))]), 1);
    // Rounded to single precision, the flag is gone.
    assert_eq!(count_with(vec![("F", Object::Integer((1 << 40) + 2))]), 1);
}

#[test]
fn annotations_need_a_rectangle() {
    assert_eq!(count_with(vec![("Rect", ints(&[1, 2, 3]))]), 0);
    assert_eq!(count_with(vec![("Rect", Object::Null)]), 0);
    let mut doc = Document::new();
    let rect = Object::Array(vec![
        Object::Integer(9),
        Object::Null,
        Object::Integer(1),
        Object::Real(2.5f32.to_bits()),
    ]);
    page_with(&mut doc, vec![annot_with(vec![("Rect", rect)])]);
    let annots = collect_page_freetext_annots(&doc, (1, 0));
    assert_eq!(rect_of(&annots[0].rect), (1.0, 0.0, 8.0, 2.5));
}

#[test]
fn annotations_may_stand_in_the_page_itself() {
    let mut doc = Document::new();
    doc.insert((7, 0), Object::Array(vec![Object::Dictionary(annot_with(vec![])), Object::Null]));
    doc.insert(
        (1, 0),
        Object::Dictionary(dict(vec![("Annots", Object::Reference((7, 0)))])),
    );
    assert_eq!(collect_page_freetext_annots(&doc, (1, 0)).len(), 1);
    assert_eq!(collect_page_freetext_annots(&doc, (2, 0)).len(), 0);
    doc.insert((2, 0), Object::Dictionary(dict(vec![])));
    assert_eq!(collect_page_freetext_annots(&doc, (2, 0)).len(), 0);
}

fn source(entries: Vec<(&str, Object)>, contents: Option<&str>) -> AnnotText {
    let mut doc = Document::new();
    let stream = Stream {
        dict: dict(vec![]),
        content: vec![],
    };
    doc.insert((50, 0), Object::Stream(stream));
    doc.insert((51, 0), Object::Dictionary(dict(vec![])));
    page_with(&mut doc, vec![annot_with(entries)]);
    let annots = collect_page_freetext_annots(&doc, (1, 0));
    annotation_text(&annots[0], contents.map(str::to_string))
}

fn ap(id: (u32, u16)) -> (&'static str, Object) {
    let n = dict(vec![("N", Object::Reference(id))]);
    ("AP", Object::Dictionary(n))
}

#[test]
fn contents_are_preferred_to_the_appearance() {
    assert!(matches!(
        source(vec![ap((50, 0))], Some(" \u{3000}text\n")),
        AnnotText::Contents(text) if text == "text"
    ));
    assert!(matches!(
        source(vec![ap((50, 0))], Some(" \n")),
        AnnotText::Appearance((50, 0))
    ));
    assert!(matches!(
        source(vec![ap((50, 0))], None),
        AnnotText::Appearance((50, 0))
    ));
    // A dictionary of appearance states is no appearance.
    assert!(matches!(source(vec![ap((51, 0))], None), AnnotText::Nowhere));
    assert!(matches!(source(vec![], None), AnnotText::Nowhere));
}

#[test]
fn contents_leave_nothing_to_the_appearance() {
    let mut doc = Document::new();
    let stream = Stream {
        dict: dict(vec![]),
        content: vec![],
    };
    doc.insert((50, 0), Object::Stream(stream));
    page_with(&mut doc, vec![annot_with(vec![ap((50, 0))]), annot_with(vec![])]);
    let annots = collect_page_freetext_annots(&doc, (1, 0));
    let shown = [form_item("a", 1.0, 2.0), form_item(" \n", 0.0, 0.0), form_item("b", 3.0, 4.0)];
    let texts = |i: usize, contents: Option<&str>| -> Vec<String> {
        let items =
            annotation_items(&annots[i], contents.map(str::to_string), (5, 6, 7, 8), &shown, 9);
        assert!(items.iter().all(|item| matches!(item.item_type, ItemType::Annotation)));
        assert!(items.iter().all(|item| item.mcid.is_none()));
        items.into_iter().map(|item| item.text).collect()
    };
    assert_eq!(texts(0, Some(" note ")), ["note"]);
    assert_eq!(texts(0, Some(" \n")), ["a", "b"]);
    assert_eq!(texts(0, None), ["a", "b"]);
    assert_eq!(texts(1, Some("note")), ["note"]);
    assert!(texts(1, Some(" ")).is_empty());
    assert!(texts(1, None).is_empty());

    let items = annotation_items(&annots[0], Some("note".to_string()), (5, 6, 7, 8), &shown, 9);
    let item = &items[0];
    assert_eq!((item.x, item.y, item.width, item.height, item.page), (5, 6, 7, 8, 9));
}

fn placed(entries: Vec<(&str, Object)>) -> Option<(Vec<f32>, Vec<f32>)> {
    let mut doc = Document::new();
    let stream = Stream {
        dict: dict(entries),
        content: vec![],
    };
    doc.insert((50, 0), Object::Stream(stream));
    appearance_box(&doc, (50, 0)).map(|b| {
        (
            b.bbox.iter().map(|n| value(*n)).collect(),
            b.matrix.iter().map(|n| value(*n)).collect(),
        )
    })
}

#[test]
fn appearances_are_placed_by_box_and_matrix() {
    let identity = vec![1.0, 0.0, 0.0, 1.0, 0.0, 0.0];
    assert_eq!(
        placed(vec![("BBox", ints(&[1, 2, 3, 4, 5]))]),
        Some((vec![1.0, 2.0, 3.0, 4.0], identity.clone()))
    );
    assert_eq!(
        placed(vec![("BBox", ints(&[1, 2, 3, 4])), ("Matrix", ints(&[2, 3]))]),
        Some((vec![1.0, 2.0, 3.0, 4.0], identity))
    );
    let matrix = Object::Array(vec![
        Object::Null,
        Object::Null,
        Object::Integer(7),
        Object::Null,
        Object::Real(0.5f32.to_bits()),
        Object::Null,
    ]);
    assert_eq!(
        placed(vec![("BBox", ints(&[0, 0, 1, 1])), ("Matrix", matrix)]),
        Some((vec![0.0, 0.0, 1.0, 1.0], vec![1.0, 0.0, 7.0, 1.0, 0.5, 0.0]))
    );
    assert_eq!(placed(vec![("BBox", ints(&[1, 2, 3]))]), None);
    assert_eq!(placed(vec![]), None);
    let mixed = Object::Array(vec![
        Object::Integer(0),
        Object::Null,
        Object::Integer(1),
        Object::Integer(1),
    ]);
    assert_eq!(placed(vec![("BBox", mixed)]), None);
    assert!(appearance_box(&Document::new(), (50, 0)).is_none());
}
