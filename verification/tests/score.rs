use pdf_text::score::{
    choose_best_cmap_decode, score_text, wide_score, CMapChoice, CMapDecisionCache,
};

#[test]
fn score_text_cjk() {
    // Japanese text scores well.
    let japanese = "2026年9月期 1Q 業績報告";
    // The output of a wrong remap does not.
    let garbled = "\u{FFFD}\u{FFFD}\u{FFFD}";

    let s_jp = score_text(japanese);
    let s_garbled = score_text(garbled);
    assert!(
        s_jp > s_garbled,
        "Japanese text ({s_jp}) should score higher than garbled ({s_garbled})"
    );
}

#[test]
fn score_text_cjk_vs_ascii_garbage() {
    let cjk = "株式会社の業績についてご報告いたします";
    let garbage = "}{|~`^@#$%&*()!<>[];:',./";

    let s_cjk = score_text(cjk);
    let s_garbage = score_text(garbage);
    assert!(
        s_cjk > s_garbage,
        "CJK text ({s_cjk}) should score higher than garbage ({s_garbage})"
    );
}

#[test]
fn score_text_english_still_works() {
    let good = "the quick brown fox and the lazy dog";
    let bad = "###!!!@@@$$$";
    assert!(score_text(good) > score_text(bad));
}

#[test]
fn score_counts_each_kind_of_character() {
    assert_eq!(score_text(""), 0);
    assert_eq!(score_text("xyz"), 3);
    assert_eq!(score_text("7 8"), 4);
    assert_eq!(score_text("!"), -2);
    assert_eq!(score_text("\u{1}\u{FFFD}"), -12);
    assert_eq!(score_text("年"), 1);
    // One common word of three letters, at the end and in the middle.
    assert_eq!(score_text("the"), 13);
    assert_eq!(score_text("THE end"), 10 + 6 + 2);
}

#[test]
fn long_text_without_a_common_word_is_marked_down() {
    assert_eq!(score_text("abcdefghijklmno"), 15);
    assert_eq!(score_text("abcdefghijklmnop"), 16 - 15);
    assert_eq!(wide_score("abcdefghijklmnop"), 1);
}

#[test]
fn score_stays_within_its_bounds() {
    for text in ["", "the the the", "\u{FFFD}\u{FFFD}", "漢字 and 12"] {
        let len = text.chars().count() as i128;
        assert!(-6 * len - 15 <= wide_score(text));
        assert!(wide_score(text) <= 14 * len + 10);
    }
}

#[test]
fn better_decode_needs_a_margin_of_more_than_three() {
    let pick = |a: &str, b: &str| choose_best_cmap_decode(a.to_string(), b.to_string());
    assert_eq!(pick("", "xyz"), "xyz");
    assert_eq!(pick("xyz", ""), "xyz");
    assert_eq!(pick("", ""), "");
    // 1 against 4: a margin of three is not enough.
    assert_eq!(pick("x", "wxyz"), "x");
    // 1 against 5 is.
    assert_eq!(pick("x", "vwxyz"), "vwxyz");
}

#[test]
fn cmap_choice_is_made_once_enough_has_been_seen() {
    let mut cache = CMapDecisionCache::new();
    assert_eq!(cache.get_choice(7), None);
    assert_eq!(cache.consider(7, "!!!", "the cat", 239), None);
    assert_eq!(cache.get_choice(7), None);
    assert_eq!(cache.consider(7, "", "", 1), Some(CMapChoice::Remapped));
    assert_eq!(cache.get_choice(7), Some(CMapChoice::Remapped));
}

#[test]
fn cmap_choice_keeps_the_primary_within_a_margin_of_five() {
    let mut cache = CMapDecisionCache::default();
    assert_eq!(
        cache.consider(1, "x", "uvwxyz", 240),
        Some(CMapChoice::Primary)
    );
    assert_eq!(
        cache.consider(2, "x", "tuvwxyz", 240),
        Some(CMapChoice::Remapped)
    );
}

#[test]
fn cmap_choice_is_final_and_per_font() {
    let mut cache = CMapDecisionCache::new();
    assert_eq!(cache.consider(1, "good", "", 500), Some(CMapChoice::Primary));
    // However well the remapped form does from here on, the choice stays.
    assert_eq!(
        cache.consider(1, "", "the the the the the", usize::MAX),
        Some(CMapChoice::Primary)
    );
    assert_eq!(cache.get_choice(1), Some(CMapChoice::Primary));
    assert_eq!(cache.get_choice(2), None);
}
