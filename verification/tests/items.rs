use pdf_text::items::{is_cid_font, item_font_name};

#[test]
fn item_font_name_prefers_family_over_resource_tag() {
    assert_eq!(item_font_name("F2", "ABCDEF+CMMI10"), "ABCDEF+CMMI10");
    assert_eq!(item_font_name("T22", "Times-Roman"), "Times-Roman");
    // Resource names of composite fonts are kept.
    assert_eq!(item_font_name("C2_0", "ABCDEE+SimSun"), "C2_0");
    assert_eq!(item_font_name("C0_1", "ABCDEE+MSMincho"), "C0_1");
}

#[test]
fn composite_resource_names_are_told_by_their_start() {
    assert!(is_cid_font("C2_12"));
    assert!(is_cid_font("C0_"));
    assert!(!is_cid_font("C1_0"));
    assert!(!is_cid_font("FC2_0"));
    assert!(!is_cid_font("C2"));
    assert!(!is_cid_font(""));
}
