use pdf_text::bidi::{
    apply_bidi_reversal, group_into_units, guess_bidi_level, BidiClass, Movement, PenContinuity,
    Unit,
};
use pdf_text::glyphs::GlyphDecode;

fn glyph(text: &str, pen_x: f32, pen_y: f32, advance: f32) -> GlyphDecode {
    GlyphDecode {
        text: text.to_string(),
        raw_widths: vec![1000],
        cid: Some(0),
        code_count: 1,
        space_count: 0,
        pen: Some((pen_x.to_bits(), pen_y.to_bits())),
        full_advance_ts: advance.to_bits(),
    }
}

fn filler(text: &str, pen_x: f32, pen_y: f32) -> GlyphDecode {
    let mut glyph = glyph(text, pen_x, pen_y, 0.0);
    glyph.raw_widths = vec![];
    glyph.cid = None;
    glyph.code_count = 0;
    glyph
}

fn point(bits: (u32, u32)) -> (f32, f32) {
    (f32::from_bits(bits.0), f32::from_bits(bits.1))
}

/// How the pen moved to each unit.
fn movements(glyphs: &[GlyphDecode], font_size: f32, carry: &PenContinuity) -> Vec<Movement> {
    let mut lag = carry.lag_pen.map(point);
    let mut end = carry.pen_end.map(point);
    let mut out = Vec::new();
    for unit in group_into_units(glyphs) {
        let glyph = &glyphs[unit.start];
        let advance = f32::from_bits(glyph.full_advance_ts);
        let mut m = Movement {
            spacing: 0,
            base_offset: 0,
            logical_spacing: 0,
            end: (0, 0),
        };
        match glyph.pen.map(point) {
            Some(p) => {
                if let (Some(lag), Some(end)) = (lag, end) {
                    m.spacing = ((p.0 - end.0) / font_size).to_bits();
                    m.base_offset = ((p.1 - end.1) / font_size).to_bits();
                    m.logical_spacing =
                        ((p.0 - lag.0) / font_size + advance / font_size).to_bits();
                }
                m.end = ((p.0 + advance).to_bits(), p.1.to_bits());
                lag = Some(p);
                end = Some((p.0 + advance, p.1));
            }
            None => {
                lag = None;
                end = None;
            }
        }
        out.push(m);
    }
    out
}

fn reverse(drawn: &[GlyphDecode], font_size: f32, carry: &mut PenContinuity) -> (bool, String) {
    let mut glyphs: Vec<GlyphDecode> = drawn.to_vec();
    let moved = movements(drawn, font_size, carry);
    let reversed = apply_bidi_reversal(&mut glyphs, font_size.to_bits(), &moved, carry);
    (reversed, glyphs.iter().map(|g| g.text.as_str()).collect())
}

#[test]
fn visual_order_rtl_run_gets_reversed() {
    // Stored in visual order, each glyph one width further on.
    let drawn = [
        glyph("ت", 100.0, 700.0, 10.0),
        glyph("ي", 110.0, 700.0, 10.0),
        glyph("ب", 120.0, 700.0, 10.0),
    ];
    let (reversed, text) = reverse(&drawn, 10.0, &mut PenContinuity::default());
    assert!(
        reversed,
        "forward-moving RTL glyphs must be flagged as visual order"
    );
    assert_eq!(text, "بيت", "reversal must recover the correct word");
}

#[test]
fn logical_order_rtl_run_is_left_alone() {
    // The same word in logical order, each glyph one width further back.
    let drawn = [
        glyph("ب", 120.0, 700.0, 10.0),
        glyph("ي", 110.0, 700.0, 10.0),
        glyph("ت", 100.0, 700.0, 10.0),
    ];
    let (reversed, text) = reverse(&drawn, 10.0, &mut PenContinuity::default());
    assert!(
        !reversed,
        "backward-moving (correct) RTL glyphs must not be flagged"
    );
    assert_eq!(text, "بيت", "already-correct text must be untouched");
}

#[test]
fn ligature_filler_stays_attached_to_its_real_glyph_through_reversal() {
    let mut real = glyph("ل", 110.0, 700.0, 10.0);
    real.cid = Some(0x01D9);
    let drawn = [
        glyph("ت", 100.0, 700.0, 10.0),
        real,
        filler("ا", 120.0, 700.0),
    ];
    let mut glyphs: Vec<GlyphDecode> = drawn.to_vec();
    let mut carry = PenContinuity::default();
    let moved = movements(&drawn, 10.0, &carry);
    let reversed = apply_bidi_reversal(&mut glyphs, 10.0f32.to_bits(), &moved, &mut carry);

    assert!(reversed);
    // The units change places; the ligature keeps its own order.
    assert_eq!(glyphs.len(), 3);
    assert_eq!(glyphs[0].text, "ل");
    assert_eq!(glyphs[0].cid, Some(0x01D9));
    assert_eq!(glyphs[1].text, "ا");
    assert_eq!(glyphs[2].text, "ت");
}

#[test]
fn advances_travel_with_their_glyphs() {
    let mut glyphs = vec![
        glyph("ت", 100.0, 700.0, 10.0),
        glyph("ي", 110.0, 700.0, 10.5),
        glyph("ب", 120.5, 700.0, 9.5),
    ];
    let mut carry = PenContinuity::default();
    let moved = movements(&glyphs, 10.0, &carry);
    assert!(apply_bidi_reversal(&mut glyphs, 10.0f32.to_bits(), &moved, &mut carry));
    let drawn: Vec<(&str, f32)> = glyphs
        .iter()
        .map(|g| (g.text.as_str(), f32::from_bits(g.full_advance_ts)))
        .collect();
    assert_eq!(drawn, [("ب", 9.5), ("ي", 10.5), ("ت", 10.0)]);
}

#[test]
fn ltr_text_is_never_flagged() {
    let drawn = [
        glyph("A", 100.0, 700.0, 10.0),
        glyph("B", 110.0, 700.0, 10.0),
        glyph("C", 120.0, 700.0, 10.0),
    ];
    let (reversed, text) = reverse(&drawn, 10.0, &mut PenContinuity::default());
    assert!(!reversed);
    assert_eq!(text, "ABC");
}

#[test]
fn single_glyph_or_zero_font_size_is_a_no_op() {
    let one = [glyph("ب", 100.0, 700.0, 10.0)];
    assert!(!reverse(&one, 10.0, &mut PenContinuity::default()).0);

    let two = [
        glyph("ت", 100.0, 700.0, 10.0),
        glyph("ي", 110.0, 700.0, 10.0),
    ];
    assert!(!reverse(&two, 0.0, &mut PenContinuity::default()).0);
}

#[test]
fn nothing_is_left_to_the_next_run_at_a_degenerate_size() {
    let two = [
        glyph("ت", 100.0, 700.0, 10.0),
        glyph("ي", 110.0, 700.0, 10.0),
    ];
    let mut carry = PenContinuity::default();
    assert!(reverse(&two, 10.0, &mut carry).0);
    assert_eq!(carry.cur_bidi, 1);
    assert_eq!(carry.last_bidi, 1);
    assert_eq!(carry.lag_pen, Some((110.0f32.to_bits(), 700.0f32.to_bits())));
    assert_eq!(carry.pen_end, Some((120.0f32.to_bits(), 700.0f32.to_bits())));
    assert!(!reverse(&two, -1.0, &mut carry).0);
    assert_eq!(carry.cur_bidi, 0);
    assert_eq!(carry.lag_pen, None);
    assert_eq!(carry.pen_end, None);
    assert_eq!(carry.last_bidi, 0);
    let mut none: Vec<GlyphDecode> = vec![];
    carry.cur_bidi = 1;
    assert!(!apply_bidi_reversal(&mut none, 10.0f32.to_bits(), &[], &mut carry));
    assert_eq!(carry.cur_bidi, 0);
}

#[test]
fn only_the_visual_run_of_a_line_is_reversed() {
    let drawn = [
        glyph("A", 80.0, 700.0, 10.0),
        glyph("B", 90.0, 700.0, 10.0),
        glyph("ت", 100.0, 700.0, 10.0),
        glyph("ي", 110.0, 700.0, 10.0),
        glyph("ب", 120.0, 700.0, 10.0),
        glyph("C", 130.0, 700.0, 10.0),
    ];
    let (reversed, text) = reverse(&drawn, 10.0, &mut PenContinuity::default());
    assert!(reversed);
    assert_eq!(text, "ABبيتC");
}

#[test]
fn a_new_line_ends_a_run() {
    // The third glyph starts a line of its own, in logical order with the fourth.
    let drawn = [
        glyph("ت", 100.0, 700.0, 10.0),
        glyph("ي", 110.0, 700.0, 10.0),
        glyph("ب", 120.0, 680.0, 10.0),
        glyph("ت", 110.0, 680.0, 10.0),
    ];
    let (reversed, text) = reverse(&drawn, 10.0, &mut PenContinuity::default());
    assert!(reversed);
    assert_eq!(text, "يتبت");
    // So does a jump along the line.
    let drawn = [
        glyph("ت", 100.0, 700.0, 10.0),
        glyph("ي", 110.0, 700.0, 10.0),
        glyph("ب", 300.0, 700.0, 10.0),
    ];
    let (_, text) = reverse(&drawn, 10.0, &mut PenContinuity::default());
    assert_eq!(text, "يتب");
}

#[test]
fn gaps_and_overlaps_are_told_apart() {
    // Half a font size ahead: still visual order.
    let ahead = [
        glyph("ت", 100.0, 700.0, 10.0),
        glyph("ي", 115.0, 700.0, 10.0),
    ];
    assert!(reverse(&ahead, 10.0, &mut PenContinuity::default()).0);
    // Back by more than its own width: a space is missing.
    let back = [
        glyph("ت", 100.0, 700.0, 10.0),
        glyph("ي", 85.0, 700.0, 10.0),
    ];
    assert!(!reverse(&back, 10.0, &mut PenContinuity::default()).0);
    // Over the end of the one before.
    let over = [
        glyph("ت", 100.0, 700.0, 10.0),
        glyph("ي", 105.0, 700.0, 10.0),
    ];
    assert!(!reverse(&over, 10.0, &mut PenContinuity::default()).0);
}

#[test]
fn a_unit_without_a_position_is_not_measured() {
    let mut lost = glyph("ي", 110.0, 700.0, 10.0);
    lost.pen = None;
    let drawn = [
        glyph("ت", 100.0, 700.0, 10.0),
        lost,
        glyph("ب", 120.0, 700.0, 10.0),
    ];
    let (reversed, text) = reverse(&drawn, 10.0, &mut PenContinuity::default());
    assert!(!reversed);
    assert_eq!(text, "تيب");
}

#[test]
fn spaces_take_the_direction_before_them() {
    let drawn = [
        glyph("ت", 100.0, 700.0, 10.0),
        glyph(" ", 110.0, 700.0, 10.0),
        glyph("ب", 120.0, 700.0, 10.0),
    ];
    let (reversed, text) = reverse(&drawn, 10.0, &mut PenContinuity::default());
    assert!(reversed);
    assert_eq!(text, "ب ت");
}

#[test]
fn levels_by_class() {
    for class in [BidiClass::R, BidiClass::AL, BidiClass::AN] {
        assert_eq!(guess_bidi_level(class, 0), 1);
    }
    for class in [
        BidiClass::L,
        BidiClass::EN,
        BidiClass::ES,
        BidiClass::ET,
        BidiClass::LRE,
        BidiClass::RLE,
        BidiClass::RLO,
        BidiClass::FSI,
        BidiClass::PDI,
    ] {
        assert_eq!(guess_bidi_level(class, 1), 0);
    }
    for class in [
        BidiClass::CS,
        BidiClass::NSM,
        BidiClass::BN,
        BidiClass::B,
        BidiClass::S,
        BidiClass::WS,
        BidiClass::ON,
    ] {
        assert_eq!(guess_bidi_level(class, 0), 0);
        assert_eq!(guess_bidi_level(class, 1), 1);
    }
}

#[test]
fn units_follow_one_another() {
    let glyphs = [
        filler("x", 0.0, 0.0),
        filler("y", 0.0, 0.0),
        glyph("a", 0.0, 0.0, 1.0),
        filler("b", 0.0, 0.0),
        filler("c", 0.0, 0.0),
        glyph("d", 0.0, 0.0, 1.0),
    ];
    assert_eq!(
        group_into_units(&glyphs),
        vec![
            Unit { start: 0, end: 1 },
            Unit { start: 1, end: 2 },
            Unit { start: 2, end: 5 },
            Unit { start: 5, end: 6 },
        ]
    );
    assert_eq!(group_into_units(&[]), vec![]);
}

#[test]
fn reordering_keeps_every_glyph() {
    let drawn = [
        glyph("ت", 100.0, 700.0, 10.0),
        glyph("ي", 110.0, 700.0, 10.0),
        filler("ا", 120.0, 700.0),
        glyph("1", 120.0, 700.0, 10.0),
        glyph("ب", 130.0, 700.0, 10.0),
        glyph("ت", 140.0, 700.0, 10.0),
    ];
    let mut before: Vec<String> = drawn.iter().map(|d| d.text.clone()).collect();
    let (reversed, text) = reverse(&drawn, 10.0, &mut PenContinuity::default());
    assert!(reversed);
    assert_eq!(text, "يات1تب");
    let mut after: Vec<String> = text.chars().map(|c| c.to_string()).collect();
    before.sort();
    after.sort();
    assert_eq!(before, after);
}
