use pdf_text::names::NameMap;
use pdf_text::number::Number;
use pdf_text::object::{
    get_number, get_operand_bytes, resolve_array, resolve_dict, Dictionary, Document, Object,
};
use pdf_text::text::trim;
use pdf_text::unicode::{pairs_of, utf16_to_string};

#[test]
fn names_lead_to_the_last_value() {
    let mut map = NameMap::new();
    assert_eq!(map.get("a"), None);
    map.insert("a".to_string(), 1);
    map.insert("é".to_string(), 2);
    map.insert("a".to_string(), 3);
    assert_eq!(map.get("a"), Some(&3));
    assert_eq!(map.get("é"), Some(&2));
    assert_eq!(map.get(""), None);
    assert_eq!(map.get("e"), None);
}

#[test]
fn objects_are_found_by_number_and_generation() {
    let mut doc = Document::new();
    doc.insert((1, 0), Object::Integer(1));
    doc.insert((0, 65535), Object::Integer(2));
    doc.insert((1, 0), Object::Integer(3));
    assert!(matches!(doc.get_object((1, 0)), Some(Object::Integer(3))));
    assert!(matches!(doc.get_object((0, 65535)), Some(Object::Integer(2))));
    assert!(doc.get_object((1, 1)).is_none());
    assert!(doc.get_dictionary((1, 0)).is_none());
}

#[test]
fn arrays_and_dictionaries_are_followed_once() {
    let mut doc = Document::new();
    doc.insert((1, 0), Object::Array(vec![Object::Null]));
    doc.insert((2, 0), Object::Dictionary(Dictionary { entries: vec![] }));
    let (a, d) = (Object::Reference((1, 0)), Object::Reference((2, 0)));
    assert_eq!(resolve_array(&doc, &a).map(|items| items.len()), Some(1));
    assert!(resolve_array(&doc, &d).is_none());
    assert!(resolve_dict(&doc, &d).is_some());
    assert!(resolve_dict(&doc, &a).is_none());
    assert!(resolve_array(&doc, &Object::Reference((3, 0))).is_none());
    assert!(resolve_dict(&doc, &Object::Integer(1)).is_none());
}

#[test]
fn the_first_entry_under_a_key_counts() {
    let dict = Dictionary {
        entries: vec![
            (b"K".to_vec(), Object::Integer(1)),
            (b"K".to_vec(), Object::Integer(2)),
            (b"BaseFont".to_vec(), Object::Name(vec![b'A', 0xFF])),
        ],
    };
    assert!(matches!(dict.get("K"), Some(Object::Integer(1))));
    assert!(dict.get("k").is_none());
    assert_eq!(dict.base_font_name(), Some("A\u{FFFD}".to_string()));
    assert!(!dict.names("K", "1"));
}

#[test]
fn operands_and_numbers() {
    assert_eq!(get_operand_bytes(&Object::String(vec![1, 2])), Some(&[1u8, 2][..]));
    assert_eq!(get_operand_bytes(&Object::Name(vec![1])), None);
    assert_eq!(get_number(&Object::Integer(-3)), Some(Number::Integer(-3)));
    assert_eq!(get_number(&Object::Real(7)), Some(Number::Real(7)));
    assert_eq!(get_number(&Object::Boolean(true)), None);
}

#[test]
fn utf16_reads_like_the_standard_library() {
    let cases: [&[u16]; 6] = [
        &[],
        &[0x41, 0xD83D, 0xDE00],
        &[0xD83D],
        &[0xDE00, 0xD83D, 0x41],
        &[0xD83D, 0xD83D, 0xDE00],
        &[0xDBFF, 0xDFFF, 0xE000, 0xD7FF],
    ];
    for units in cases {
        assert_eq!(utf16_to_string(units), String::from_utf16_lossy(units));
    }
    assert_eq!(pairs_of(&[1, 2, 3, 4, 5]), vec![0x0102, 0x0304]);
}

#[test]
fn trimming_is_unicode_trimming() {
    for text in ["", " ", "a", "\u{A0}a b\u{2003}\r\n", "\u{3000}\u{85}x", "\u{200B}y"] {
        assert_eq!(trim(text), text.trim());
    }
    for code in 0..0x1_1000u32 {
        if let Some(c) = char::from_u32(code) {
            let text = format!("{c}x{c}");
            assert_eq!(trim(&text), text.trim(), "{code:x}");
        }
    }
}
