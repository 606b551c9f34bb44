//! Decoding a string operand: by CMaps first, then by what its bytes say.

use crate::byte_decode::{
    decode_early, decode_late, early_decode, has_high_byte, late_decode, lemma_early_is_faithful,
    lemma_early_text, lemma_late_is_faithful, lemma_late_text, marker_count,
};
use crate::cmap_decode::{
    choices_after, decode_with_entry, entry_decode, is_faithful, lemma_entry_is_faithful,
    lemma_entry_text, opt_decoded, opt_map, text_of, Decoded, DecodedView, EntryReading,
};
use crate::encoding::PageFontEncodings;
use crate::fallback::{repair, repaired, should_use_cp1252_single_byte_fallback, uses_cp1252};
use crate::glyphs::{glyph_views, GlyphDecode, GlyphView};
use crate::names::{named, NameMap};
use crate::object::{get_operand_bytes, operand_bytes, value_of, Object};
use crate::outside::{decode_text, encoding_texts};
use crate::score::{decision_of, CMapDecisionCache, DecisionView};
use crate::text::{opt_name, opt_text, REPLACEMENT};
use crate::widths::{raw_glyph_widths, raw_widths, FontWidthInfo, PageFontWidths, RawGlyphWidth};
use lopdf::Encoding;
use std::collections::HashMap;
use vstd::prelude::*;

verus! {

broadcast use vstd::std_specs::hash::group_hash_axioms;

/// What a page knows of its fonts, by resource name.
pub struct PageFonts<'a> {
    pub widths: &'a PageFontWidths,
    /// The numbers of the objects that hold the fonts' ToUnicode CMaps.
    pub tounicode_refs: &'a NameMap<u32>,
    pub encodings: &'a PageFontEncodings,
    pub text_encodings: &'a NameMap<Encoding<'a>>,
}

/// What a font's encoding makes of an operand.
pub open spec fn encoded_text(encoding: Option<Encoding<'_>>, bytes: Seq<u8>) -> Option<Seq<char>> {
    match encoding {
        Some(encoding) => if encoding_texts(encoding).contains_key(bytes) {
            Some(encoding_texts(encoding)[bytes])
        } else {
            None
        },
        None => None,
    }
}

/// The widths of an operand's codes, none where the font's widths are not known.
pub open spec fn operand_widths(info: Option<FontWidthInfo>, bytes: Seq<u8>) -> Seq<RawGlyphWidth> {
    match info {
        Some(info) => raw_widths(bytes, info@),
        None => Seq::empty(),
    }
}

/// The object number that a font's CMap choice is kept under.
pub open spec fn choice_key(obj_num: Option<u32>) -> u32 {
    match obj_num {
        Some(obj_num) => obj_num,
        None => 0,
    }
}

/// The CMaps that decode an operand: the font's own first, then the one that its ToUnicode
/// entry refers to.
pub open spec fn entry_readings<'a>(
    inline: Option<&EntryReading<'a>>,
    referenced: Option<&EntryReading<'a>>,
    obj_num: Option<u32>,
) -> (Option<EntryReading<'a>>, Option<EntryReading<'a>>) {
    (
        match inline {
            Some(entry) => Some(*entry),
            None => None,
        },
        match (obj_num, referenced) {
            (Some(_), Some(entry)) => Some(*entry),
            _ => None,
        },
    )
}

/// The CMap choices after one CMap entry.
pub open spec fn choices_after_one(
    entry: Option<EntryReading<'_>>,
    bytes: Seq<u8>,
    choices: Map<u32, DecisionView>,
    obj_num: u32,
) -> Map<u32, DecisionView> {
    match entry {
        Some(entry) => choices_after(entry, bytes, choices, obj_num),
        None => choices,
    }
}

/// The decode by one CMap entry.
pub open spec fn decode_by_one(
    entry: Option<EntryReading<'_>>,
    bytes: Seq<u8>,
    encoding: Option<Map<u8, char>>,
    cp1252: bool,
    widths: Seq<RawGlyphWidth>,
    choices: Map<u32, DecisionView>,
    obj_num: u32,
) -> Option<DecodedView> {
    match entry {
        Some(entry) => entry_decode(
            entry,
            bytes,
            encoding,
            cp1252,
            widths,
            decision_of(choices, obj_num),
        ),
        None => None,
    }
}

/// A font and what is known of it: its name, its widths, the object that its ToUnicode entry
/// refers to, its `/Differences`, and its encoding.
pub struct FontView<'a> {
    pub base_font: Option<Seq<char>>,
    pub info: Option<FontWidthInfo>,
    pub obj_num: Option<u32>,
    pub differences: Option<Map<u8, char>>,
    pub encoding: Option<Encoding<'a>>,
}

impl<'a> FontView<'a> {
    pub open spec fn is_cid(self) -> bool {
        self.info matches Some(info) && info.is_cid
    }

    pub open spec fn cp1252(self) -> bool {
        uses_cp1252(self.base_font, self.is_cid())
    }
}

/// What a page knows of one of its fonts.
pub open spec fn font_view<'a>(
    fonts: PageFonts<'a>,
    name: Seq<char>,
    base_font: Option<Seq<char>>,
) -> FontView<'a> {
    FontView {
        base_font,
        info: named(fonts.widths@, name),
        obj_num: named(fonts.tounicode_refs@, name),
        differences: match named(fonts.encodings@, name) {
            Some(map) => Some(map@),
            None => None,
        },
        encoding: named(fonts.text_encodings@, name),
    }
}

/// The decode of an operand's bytes, before the repairs.
pub open spec fn bytes_decode<'a, 'b>(
    bytes: Seq<u8>,
    font: FontView<'b>,
    inline: Option<&EntryReading<'a>>,
    referenced: Option<&EntryReading<'a>>,
    choices: Map<u32, DecisionView>,
) -> Option<DecodedView> {
    let widths = operand_widths(font.info, bytes);
    let key = choice_key(font.obj_num);
    let (first, second) = entry_readings(inline, referenced, font.obj_num);
    let by_first = decode_by_one(
        first,
        bytes,
        font.differences,
        font.cp1252(),
        widths,
        choices,
        key,
    );
    let by_second = decode_by_one(
        second,
        bytes,
        font.differences,
        font.cp1252(),
        widths,
        choices_after_one(first, bytes, choices, key),
        key,
    );
    let early = early_decode(bytes, font.is_cid(), font.differences, font.cp1252(), widths);
    if by_first is Some {
        by_first
    } else if by_second is Some {
        by_second
    } else if early is Some {
        early
    } else {
        late_decode(
            bytes,
            font.base_font,
            font.cp1252(),
            widths,
            inline is Some || font.obj_num is Some,
            encoded_text(font.encoding, bytes),
        )
    }
}

/// The CMap choices once an operand has been decoded.
pub open spec fn choices_after_decode<'a, 'b>(
    bytes: Seq<u8>,
    font: FontView<'b>,
    inline: Option<&EntryReading<'a>>,
    referenced: Option<&EntryReading<'a>>,
    choices: Map<u32, DecisionView>,
) -> Map<u32, DecisionView> {
    let widths = operand_widths(font.info, bytes);
    let key = choice_key(font.obj_num);
    let (first, second) = entry_readings(inline, referenced, font.obj_num);
    let after_first = choices_after_one(first, bytes, choices, key);
    if decode_by_one(
        first,
        bytes,
        font.differences,
        font.cp1252(),
        widths,
        choices,
        key,
    ) is Some {
        after_first
    } else {
        choices_after_one(second, bytes, after_first, key)
    }
}

/// The text and the glyphs of an operand. The text is repaired; the glyphs keep what was
/// decoded.
pub open spec fn operand_result(
    decoded: Option<DecodedView>,
    font: FontView<'_>,
) -> (Option<Seq<char>>, Seq<GlyphView>) {
    match decoded {
        Some(decoded) => (
            Some(repaired(decoded.text, font.base_font, font.cp1252())),
            decoded.glyphs,
        ),
        None => (None, Seq::empty()),
    }
}

/// The entry under an object number.
pub open spec fn at_number<E>(by_object: Map<u32, E>, obj_num: Option<u32>) -> Option<E> {
    match obj_num {
        Some(obj_num) => if by_object.contains_key(obj_num) {
            Some(by_object[obj_num])
        } else {
            None
        },
        None => None,
    }
}

/// The CMap entries of a font: its own, which stands under its resource name, and the one that
/// its ToUnicode entry refers to, which stands under the number of the object.
pub fn font_entries<'m, E>(
    current_font: &str,
    inline: &'m NameMap<E>,
    tounicode_refs: &NameMap<u32>,
    by_object: &'m HashMap<u32, E>,
) -> (entries: (Option<&'m E>, Option<&'m E>))
    ensures
        value_of(entries.0) == named(inline@, current_font@),
        value_of(entries.1) == at_number(by_object@, named(tounicode_refs@, current_font@)),
{
    let referenced = match tounicode_refs.get(current_font) {
        Some(obj_num) => by_object.get(obj_num),
        None => None,
    };
    (inline.get(current_font), referenced)
}

fn decode_by_optional_entry(
    entry: Option<&EntryReading<'_>>,
    bytes: &[u8],
    encoding: Option<&HashMap<u8, char>>,
    cp1252: bool,
    widths: &[RawGlyphWidth],
    obj_num: u32,
    cmap_decisions: &mut CMapDecisionCache,
) -> (r: Option<Decoded>)
    ensures
        opt_decoded(r) == decode_by_one(
            value_of(entry),
            bytes@,
            opt_map(encoding),
            cp1252,
            widths@,
            old(cmap_decisions)@,
            obj_num,
        ),
        final(cmap_decisions)@ == choices_after_one(
            value_of(entry),
            bytes@,
            old(cmap_decisions)@,
            obj_num,
        ),
{
    match entry {
        Some(entry) => decode_with_entry(
            entry,
            bytes,
            encoding,
            cp1252,
            widths,
            obj_num,
            cmap_decisions,
        ),
        None => None,
    }
}

/// Decodes a string operand to its text and its glyphs.
///
/// `inline` and `referenced` are what the two entries of the font, which `font_entries` picks,
/// make of the operand: its own CMaps, and those that its ToUnicode entry refers to. An operand that is no string has neither text nor glyphs.
pub fn decode_operand_glyphs<'a>(
    obj: &Object,
    current_font: &str,
    base_font_name: Option<&str>,
    fonts: &PageFonts<'_>,
    inline: Option<&EntryReading<'a>>,
    referenced: Option<&EntryReading<'a>>,
    cmap_decisions: &mut CMapDecisionCache,
) -> (r: (Option<String>, Vec<GlyphDecode>))
    ensures
        match operand_bytes(*obj) {
            Some(bytes) => {
                let font = font_view(*fonts, current_font@, opt_name(base_font_name));
                let before = old(cmap_decisions)@;
                &&& (opt_text(r.0), glyph_views(r.1@)) == operand_result(
                    bytes_decode(bytes, font, inline, referenced, before),
                    font,
                )
                &&& final(cmap_decisions)@ == choices_after_decode(
                    bytes,
                    font,
                    inline,
                    referenced,
                    before,
                )
            },
            None => {
                &&& r.0 is None
                &&& r.1@.len() == 0
                &&& final(cmap_decisions)@ == old(cmap_decisions)@
            },
        },
{
    let bytes = match get_operand_bytes(obj) {
        Some(bytes) => bytes,
        None => return (None, Vec::new()),
    };
    let ghost font = font_view(*fonts, current_font@, opt_name(base_font_name));
    let ghost before = cmap_decisions@;
    let info = fonts.widths.get(current_font);
    let is_cid = match info {
        Some(info) => info.is_cid,
        None => false,
    };
    let cp1252 = should_use_cp1252_single_byte_fallback(base_font_name, is_cid);
    let widths = match info {
        Some(info) => raw_glyph_widths(bytes, info),
        None => Vec::new(),
    };
    let encoding = fonts.encodings.get(current_font);
    let obj_num = match fonts.tounicode_refs.get(current_font) {
        Some(obj_num) => Some(*obj_num),
        None => None,
    };
    let key: u32 = match obj_num {
        Some(obj_num) => obj_num,
        None => 0,
    };
    let second = if obj_num.is_some() {
        referenced
    } else {
        None
    };
    assert(widths@ == operand_widths(font.info, bytes@));
    assert(opt_map(encoding) == font.differences);
    let ghost entries = entry_readings(inline, referenced, font.obj_num);
    assert(value_of(inline) == entries.0);
    assert(value_of(second) == entries.1);

    let mut decoded = decode_by_optional_entry(
        inline,
        bytes,
        encoding,
        cp1252,
        widths.as_slice(),
        key,
        cmap_decisions,
    );
    if decoded.is_none() {
        decoded = decode_by_optional_entry(
            second,
            bytes,
            encoding,
            cp1252,
            widths.as_slice(),
            key,
            cmap_decisions,
        );
        if decoded.is_none() {
            decoded = decode_early(bytes, is_cid, encoding, cp1252, widths.as_slice());
            if decoded.is_none() {
                let encoded = match fonts.text_encodings.get(current_font) {
                    Some(encoding) => decode_text(encoding, bytes),
                    None => None,
                };
                assert(opt_text(encoded) == encoded_text(font.encoding, bytes@));
                decoded = decode_late(
                    bytes,
                    base_font_name,
                    cp1252,
                    widths.as_slice(),
                    inline.is_some() || obj_num.is_some(),
                    encoded,
                );
            }
        }
    }
    assert(opt_decoded(decoded) == bytes_decode(bytes@, font, inline, referenced, before));
    match decoded {
        Some(decoded) => {
            let text = repair(decoded.text, base_font_name, cp1252);
            (Some(text), decoded.glyphs)
        },
        None => {
            let glyphs: Vec<GlyphDecode> = Vec::new();
            assert(glyph_views(glyphs@) =~= Seq::<GlyphView>::empty());
            (None, glyphs)
        },
    }
}

/// Decodes a string operand to its text.
pub fn extract_text_from_operand<'a>(
    obj: &Object,
    current_font: &str,
    base_font_name: Option<&str>,
    fonts: &PageFonts<'_>,
    inline: Option<&EntryReading<'a>>,
    referenced: Option<&EntryReading<'a>>,
    cmap_decisions: &mut CMapDecisionCache,
) -> (text: Option<String>)
    ensures
        match operand_bytes(*obj) {
            Some(bytes) => {
                let font = font_view(*fonts, current_font@, opt_name(base_font_name));
                let before = old(cmap_decisions)@;
                &&& opt_text(text) == operand_result(
                    bytes_decode(bytes, font, inline, referenced, before),
                    font,
                ).0
                &&& final(cmap_decisions)@ == choices_after_decode(
                    bytes,
                    font,
                    inline,
                    referenced,
                    before,
                )
            },
            None => text is None && final(cmap_decisions)@ == old(cmap_decisions)@,
        },
{
    decode_operand_glyphs(
        obj,
        current_font,
        base_font_name,
        fonts,
        inline,
        referenced,
        cmap_decisions,
    ).0
}

/// Whichever way an operand is decoded, its glyphs one after another show the decoded text, and
/// their widths, codes and spaces are those of the whole operand: what is charged glyph by
/// glyph is what is charged for the operand. Operands whose codes no count holds are left out.
pub proof fn law_decoded_glyphs_add_up<'a, 'b>(
    bytes: Seq<u8>,
    font: FontView<'b>,
    inline: Option<&EntryReading<'a>>,
    referenced: Option<&EntryReading<'a>>,
    choices: Map<u32, DecisionView>,
)
    requires
        operand_widths(font.info, bytes).len() < 0x1_0000,
    ensures
        bytes_decode(bytes, font, inline, referenced, choices) matches Some(decoded)
            ==> is_faithful(decoded, operand_widths(font.info, bytes)),
{
    let widths = operand_widths(font.info, bytes);
    let key = choice_key(font.obj_num);
    let (first, second) = entry_readings(inline, referenced, font.obj_num);
    match first {
        Some(entry) => {
            lemma_entry_is_faithful(
                entry,
                bytes,
                font.differences,
                font.cp1252(),
                widths,
                decision_of(choices, key),
            );
        },
        None => {},
    }
    match second {
        Some(entry) => {
            lemma_entry_is_faithful(
                entry,
                bytes,
                font.differences,
                font.cp1252(),
                widths,
                decision_of(choices_after_one(first, bytes, choices, key), key),
            );
        },
        None => {},
    }
    lemma_early_is_faithful(bytes, font.is_cid(), font.differences, font.cp1252(), widths);
    lemma_late_is_faithful(
        bytes,
        font.base_font,
        font.cp1252(),
        widths,
        inline is Some || font.obj_num is Some,
        encoded_text(font.encoding, bytes),
    );
}

/// Bytes of a composite font that are no ASCII and that no CMap decodes are never read as
/// characters: the text is U+FFFD, once for each pair of bytes and at least once.
pub proof fn law_undecoded_cids_are_marked<'a, 'b>(
    bytes: Seq<u8>,
    font: FontView<'b>,
    inline: Option<&EntryReading<'a>>,
    referenced: Option<&EntryReading<'a>>,
    choices: Map<u32, DecisionView>,
)
    requires
        font.is_cid(),
        has_high_byte(bytes),
        ({
            let (first, second) = entry_readings(inline, referenced, font.obj_num);
            let widths = operand_widths(font.info, bytes);
            let key = choice_key(font.obj_num);
            let after = choices_after_one(first, bytes, choices, key);
            &&& decode_by_one(first, bytes, font.differences, false, widths, choices, key) is None
            &&& decode_by_one(second, bytes, font.differences, false, widths, after, key) is None
        }),
    ensures
        operand_result(bytes_decode(bytes, font, inline, referenced, choices), font).0 == Some(
            Seq::new(marker_count(bytes), |i: int| REPLACEMENT),
        ),
{
    let text = Seq::new(marker_count(bytes), |i: int| REPLACEMENT);
    assert(repaired(text, font.base_font, false) =~= text);
}

/// An operand is left without text only by a font that has a CMap.
pub proof fn law_only_cmap_fonts_leave_operands_undecoded<'a, 'b>(
    bytes: Seq<u8>,
    font: FontView<'b>,
    inline: Option<&EntryReading<'a>>,
    referenced: Option<&EntryReading<'a>>,
    choices: Map<u32, DecisionView>,
)
    requires
        bytes_decode(bytes, font, inline, referenced, choices) is None,
    ensures
        inline is Some || font.obj_num is Some,
        encoded_text(font.encoding, bytes) is Some,
{
}

/// Decoding an operand changes the CMap choice of no other font, and of its own font only while
/// none is made.
pub proof fn law_decoding_keeps_choices<'a, 'b>(
    bytes: Seq<u8>,
    font: FontView<'b>,
    inline: Option<&EntryReading<'a>>,
    referenced: Option<&EntryReading<'a>>,
    choices: Map<u32, DecisionView>,
    obj_num: u32,
)
    ensures
        obj_num != choice_key(font.obj_num) || decision_of(choices, obj_num).choice is Some
            ==> decision_of(
            choices_after_decode(bytes, font, inline, referenced, choices),
            obj_num,
        ).choice == decision_of(choices, obj_num).choice,
{
}

proof fn lemma_one_text(
    entry: Option<EntryReading<'_>>,
    bytes: Seq<u8>,
    encoding: Option<Map<u8, char>>,
    cp1252: bool,
    widths: Seq<RawGlyphWidth>,
    other: Seq<RawGlyphWidth>,
    choices: Map<u32, DecisionView>,
    key: u32,
)
    ensures
        text_of(decode_by_one(entry, bytes, encoding, cp1252, widths, choices, key)) == text_of(
            decode_by_one(entry, bytes, encoding, cp1252, other, choices, key),
        ),
{
    match entry {
        Some(entry) => {
            let seen = decision_of(choices, key);
            lemma_entry_text(entry, bytes, encoding, cp1252, widths, other, seen);
        },
        None => {},
    }
}

/// The text of an operand does not depend on the widths of its font, but for whether the font is
/// composite.
pub proof fn law_text_does_not_depend_on_widths<'a, 'b>(
    bytes: Seq<u8>,
    font: FontView<'b>,
    other: FontView<'b>,
    inline: Option<&EntryReading<'a>>,
    referenced: Option<&EntryReading<'a>>,
    choices: Map<u32, DecisionView>,
)
    requires
        font.base_font == other.base_font,
        font.obj_num == other.obj_num,
        font.differences == other.differences,
        font.encoding == other.encoding,
        font.is_cid() == other.is_cid(),
    ensures
        text_of(bytes_decode(bytes, font, inline, referenced, choices)) == text_of(
            bytes_decode(bytes, other, inline, referenced, choices),
        ),
        choices_after_decode(bytes, font, inline, referenced, choices) == choices_after_decode(
            bytes,
            other,
            inline,
            referenced,
            choices,
        ),
{
    let cp1252 = font.cp1252();
    let widths = operand_widths(font.info, bytes);
    let others = operand_widths(other.info, bytes);
    let key = choice_key(font.obj_num);
    let (first, second) = entry_readings(inline, referenced, font.obj_num);
    let after = choices_after_one(first, bytes, choices, key);
    let has_cmap = inline is Some || font.obj_num is Some;
    let encoded = encoded_text(font.encoding, bytes);
    lemma_one_text(first, bytes, font.differences, cp1252, widths, others, choices, key);
    lemma_one_text(second, bytes, font.differences, cp1252, widths, others, after, key);
    lemma_early_text(bytes, font.is_cid(), font.differences, cp1252, widths, others);
    lemma_late_text(bytes, font.base_font, cp1252, widths, others, has_cmap, encoded);
    lemma_cascade_text(bytes, font, inline, referenced, choices);
    lemma_cascade_text(bytes, other, inline, referenced, choices);
}

/// The text of an operand is that of the first way of decoding it that gives one.
proof fn lemma_cascade_text<'a, 'b>(
    bytes: Seq<u8>,
    font: FontView<'b>,
    inline: Option<&EntryReading<'a>>,
    referenced: Option<&EntryReading<'a>>,
    choices: Map<u32, DecisionView>,
)
    ensures
        ({
            let cp1252 = font.cp1252();
            let widths = operand_widths(font.info, bytes);
            let key = choice_key(font.obj_num);
            let (first, second) = entry_readings(inline, referenced, font.obj_num);
            let after = choices_after_one(first, bytes, choices, key);
            let differences = font.differences;
            let a = text_of(
                decode_by_one(first, bytes, differences, cp1252, widths, choices, key),
            );
            let b = text_of(decode_by_one(second, bytes, differences, cp1252, widths, after, key));
            let c = text_of(early_decode(bytes, font.is_cid(), differences, cp1252, widths));
            let d = text_of(
                late_decode(
                    bytes,
                    font.base_font,
                    cp1252,
                    widths,
                    inline is Some || font.obj_num is Some,
                    encoded_text(font.encoding, bytes),
                ),
            );
            &&& text_of(bytes_decode(bytes, font, inline, referenced, choices)) == (if a is Some {
                a
            } else if b is Some {
                b
            } else if c is Some {
                c
            } else {
                d
            })
            &&& choices_after_decode(bytes, font, inline, referenced, choices) == (if a is Some {
                after
            } else {
                choices_after_one(second, bytes, after, key)
            })
        }),
{
}

}
