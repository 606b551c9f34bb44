//! Decoding a string operand that no CMap decodes: `/Differences`, Unicode in disguise, the
//! font's own encoding, and single bytes.

use crate::cmap_decode::{
    encoded_byte, is_faithful, opt_decoded, opt_map, spell, spelled, text_of, text_of_encoded_byte,
    unpair, unpaired, Decoded, DecodedView,
};
use crate::fallback::{
    byte_char, decode_single_byte_fallback, decode_single_byte_fallback_char,
    decode_symbol_fallback, normalize_cp1252_controls, normalized, symbol_text,
};
use crate::glyphs::{
    glyphs_for, glyphs_of, law_glyphs_add_up, law_whole_glyph_adds_up, unit_views, units_text,
    units_to_string,
};
use crate::score::{text_score, wide_score};
use crate::text::{has_char, opt_name, opt_text, string_of_char, REPLACEMENT};
use crate::unicode::{be_pairs, pairs_of, utf16_text, utf16_to_string, utf8_text};
use crate::widths::{standard_char, RawGlyphWidth};
use std::collections::HashMap;
use vstd::prelude::*;
use vstd::string::*;
use vstd::utf8::*;

verus! {

broadcast use vstd::std_specs::hash::group_hash_axioms;

/// The codes of an operand under `/Differences`.
pub open spec fn encoded_units(
    encoding: Map<u8, char>,
    bytes: Seq<u8>,
    cp1252: bool,
) -> Seq<(u16, Option<Seq<char>>)> {
    bytes.map_values(|b: u8| (b as u16, encoded_byte(Some(encoding), b, cp1252)))
}

/// The codes of an operand as single bytes.
pub open spec fn plain_units(bytes: Seq<u8>, cp1252: bool) -> Seq<(u16, Option<Seq<char>>)> {
    bytes.map_values(|b: u8| (b as u16, Some(seq![byte_char(b, cp1252)])))
}

fn units_of_encoded_bytes(map: &HashMap<u8, char>, bytes: &[u8], cp1252: bool) -> (units: Vec<
    (u16, Option<String>),
>)
    ensures
        unit_views(units@) == encoded_units(map@, bytes@, cp1252),
{
    let mut units: Vec<(u16, Option<String>)> = Vec::new();
    for i in 0..bytes.len()
        invariant
            unit_views(units@) == encoded_units(map@, bytes@, cp1252).take(i as int),
    {
        let ghost before = units@;
        let unit = (bytes[i] as u16, text_of_encoded_byte(Some(map), bytes[i], cp1252));
        units.push(unit);
        assert(unit_views(units@) =~= unit_views(before).push((unit.0, opt_text(unit.1))));
    }
    units
}

fn units_of_plain_bytes(bytes: &[u8], cp1252: bool) -> (units: Vec<(u16, Option<String>)>)
    ensures
        unit_views(units@) == plain_units(bytes@, cp1252),
{
    let mut units: Vec<(u16, Option<String>)> = Vec::new();
    for i in 0..bytes.len()
        invariant
            unit_views(units@) == plain_units(bytes@, cp1252).take(i as int),
    {
        let ghost before = units@;
        let c = decode_single_byte_fallback_char(bytes[i], cp1252);
        let unit = (bytes[i] as u16, Some(string_of_char(c)));
        units.push(unit);
        assert(unit_views(units@) =~= unit_views(before).push((unit.0, opt_text(unit.1))));
    }
    units
}

/// Whether an operand holds a byte that is no ASCII.
pub open spec fn has_high_byte(bytes: Seq<u8>) -> bool {
    exists|i: int| 0 <= i < bytes.len() && #[trigger] bytes[i] > 0x7F
}

/// How many U+FFFD stand for an operand that a composite font leaves undecoded: one for each
/// pair of bytes, at least one.
pub open spec fn marker_count(bytes: Seq<u8>) -> nat {
    if bytes.len() < 2 {
        1
    } else {
        bytes.len() / 2
    }
}

/// The codes of an operand, each as U+FFFD.
pub open spec fn marker_units(widths: Seq<RawGlyphWidth>) -> Seq<(u16, Option<Seq<char>>)> {
    widths.map_values(|w: RawGlyphWidth| (w.code, Some(seq![REPLACEMENT])))
}

/// What stands for an operand that a composite font leaves undecoded.
pub open spec fn marker(bytes: Seq<u8>, widths: Seq<RawGlyphWidth>) -> DecodedView {
    let text = Seq::new(marker_count(bytes), |i: int| REPLACEMENT);
    if widths.len() == marker_count(bytes) {
        DecodedView { text, glyphs: glyphs_of(marker_units(widths), widths) }
    } else {
        unpaired(text, widths)
    }
}

/// Whether an operand holds a byte that an encoding maps.
pub open spec fn maps_any(map: Map<u8, char>, bytes: Seq<u8>) -> bool {
    exists|i: int| 0 <= i < bytes.len() && map.contains_key(#[trigger] bytes[i])
}

/// The decode of an operand by `/Differences`, where they map one of its bytes.
pub open spec fn differences_decode(
    encoding: Option<Map<u8, char>>,
    bytes: Seq<u8>,
    cp1252: bool,
    widths: Seq<RawGlyphWidth>,
) -> Option<DecodedView> {
    match encoding {
        Some(map) => if maps_any(map, bytes) {
            let units = encoded_units(map, bytes, cp1252);
            spelled(units_text(units), units, widths)
        } else {
            None
        },
        None => None,
    }
}

/// How many zero bytes an operand holds.
pub open spec fn count_zeros(bytes: Seq<u8>) -> nat
    decreases bytes.len(),
{
    if bytes.len() == 0 {
        0
    } else {
        count_zeros(bytes.drop_last()) + if bytes.last() == 0 {
            1nat
        } else {
            0
        }
    }
}

/// The text of an operand that is Unicode in disguise: UTF-16 behind a byte order mark, UTF-16
/// by its many zeros and its score, or UTF-8.
pub open spec fn unicode_decode(bytes: Seq<u8>) -> Option<Seq<char>> {
    if bytes.len() >= 2 && bytes[0] == 0xFE && bytes[1] == 0xFF {
        Some(utf16_text(be_pairs(bytes.skip(2))))
    } else if bytes.len() >= 4 && bytes.len() % 2 == 0 && count_zeros(bytes) * 4 > bytes.len()
        && text_score(utf16_text(be_pairs(bytes))) > 0 {
        Some(utf16_text(be_pairs(bytes)))
    } else if has_high_byte(bytes) && valid_utf8(bytes) {
        Some(decode_utf8(bytes))
    } else {
        None
    }
}

/// The decode of an operand that no CMap decoded, as far as it needs no encoding of the font.
pub open spec fn early_decode(
    bytes: Seq<u8>,
    is_cid: bool,
    encoding: Option<Map<u8, char>>,
    cp1252: bool,
    widths: Seq<RawGlyphWidth>,
) -> Option<DecodedView> {
    if is_cid && has_high_byte(bytes) {
        Some(marker(bytes, widths))
    } else {
        match differences_decode(encoding, bytes, cp1252, widths) {
            Some(decoded) => Some(decoded),
            None => match unicode_decode(bytes) {
                Some(text) => Some(unpaired(text, widths)),
                None => None,
            },
        }
    }
}

/// Whether an operand is printable ASCII.
pub open spec fn is_printable(bytes: Seq<u8>) -> bool {
    forall|i: int| 0 <= i < bytes.len() ==> 0x20 <= #[trigger] bytes[i] <= 0x7E
}

/// The decode of an operand as symbols or single bytes.
pub open spec fn plain_decode(
    bytes: Seq<u8>,
    base_font: Option<Seq<char>>,
    cp1252: bool,
    widths: Seq<RawGlyphWidth>,
) -> DecodedView {
    match symbol_text(bytes, base_font) {
        Some(text) => unpaired(text, widths),
        None => {
            let units = plain_units(bytes, cp1252);
            DecodedView { text: units_text(units), glyphs: glyphs_of(units, widths) }
        },
    }
}

/// The decode of an operand by what the font's encoding made of it. A text with U+FFFD gives
/// way to printable ASCII, then to symbols; then a font that has a CMap leaves the operand
/// undecoded, and any other reads single bytes.
pub open spec fn late_decode(
    bytes: Seq<u8>,
    base_font: Option<Seq<char>>,
    cp1252: bool,
    widths: Seq<RawGlyphWidth>,
    has_cmap: bool,
    encoded: Option<Seq<char>>,
) -> Option<DecodedView> {
    match encoded {
        Some(text) => {
            let text = normalized(text, cp1252);
            if !text.contains(REPLACEMENT) {
                Some(unpaired(text, widths))
            } else if is_printable(bytes) {
                Some(unpaired(bytes.map_values(|b: u8| b as char), widths))
            } else if symbol_text(bytes, base_font) is None && has_cmap {
                None
            } else {
                Some(plain_decode(bytes, base_font, cp1252, widths))
            }
        },
        None => Some(plain_decode(bytes, base_font, cp1252, widths)),
    }
}

fn high_byte(bytes: &[u8]) -> (r: bool)
    ensures
        r == has_high_byte(bytes@),
{
    for i in 0..bytes.len()
        invariant
            forall|j: int| 0 <= j < i ==> #[trigger] bytes@[j] <= 0x7F,
    {
        if bytes[i] > 0x7F {
            return true;
        }
    }
    false
}

fn any_mapped(map: &HashMap<u8, char>, bytes: &[u8]) -> (r: bool)
    ensures
        r == maps_any(map@, bytes@),
{
    for i in 0..bytes.len()
        invariant
            forall|j: int| 0 <= j < i ==> !map@.contains_key(#[trigger] bytes@[j]),
    {
        if map.contains_key(&bytes[i]) {
            return true;
        }
    }
    false
}

fn printable(bytes: &[u8]) -> (r: bool)
    ensures
        r == is_printable(bytes@),
{
    for i in 0..bytes.len()
        invariant
            forall|j: int| 0 <= j < i ==> 0x20 <= #[trigger] bytes@[j] <= 0x7E,
    {
        if bytes[i] < 0x20 || bytes[i] > 0x7E {
            return false;
        }
    }
    true
}

fn zeros(bytes: &[u8]) -> (n: usize)
    ensures
        n == count_zeros(bytes@),
{
    let mut n: usize = 0;
    for i in 0..bytes.len()
        invariant
            n == count_zeros(bytes@.take(i as int)),
            n <= i,
    {
        assert(bytes@.take(i + 1).drop_last() == bytes@.take(i as int));
        if bytes[i] == 0 {
            n = n + 1;
        }
    }
    assert(bytes@.take(bytes@.len() as int) == bytes@);
    n
}

fn mark_undecoded(bytes: &[u8], widths: &[RawGlyphWidth]) -> (r: Decoded)
    ensures
        r@ == marker(bytes@, widths@),
{
    let count: usize = if bytes.len() < 2 {
        1
    } else {
        bytes.len() / 2
    };
    let mut text = String::new();
    for i in 0..count
        invariant
            text@ == Seq::new(i as nat, |j: int| REPLACEMENT),
    {
        text.push(REPLACEMENT);
        assert(text@ =~= Seq::new((i + 1) as nat, |j: int| REPLACEMENT));
    }
    if widths.len() != count {
        return unpair(text, widths);
    }
    let mut units: Vec<(u16, Option<String>)> = Vec::new();
    for i in 0..widths.len()
        invariant
            unit_views(units@) == marker_units(widths@).take(i as int),
    {
        let ghost before = units@;
        let unit = (widths[i].code, Some(string_of_char(REPLACEMENT)));
        units.push(unit);
        assert(unit_views(units@) =~= unit_views(before).push((unit.0, opt_text(unit.1))));
    }
    assert(unit_views(units@) =~= marker_units(widths@));
    Decoded { text, glyphs: glyphs_for(units.as_slice(), widths) }
}

fn decode_unicode(bytes: &[u8]) -> (text: Option<String>)
    ensures
        opt_text(text) == unicode_decode(bytes@),
{
    let len = bytes.len();
    if len >= 2 && bytes[0] == 0xFE && bytes[1] == 0xFF {
        let rest = vstd::slice::slice_subrange(bytes, 2, len);
        assert(rest@ == bytes@.skip(2));
        let units = pairs_of(rest);
        return Some(utf16_to_string(units.as_slice()));
    }
    if len >= 4 && len % 2 == 0 && zeros(bytes) > len / 4 {
        let units = pairs_of(bytes);
        let text = utf16_to_string(units.as_slice());
        if wide_score(text.as_str()) > 0 {
            return Some(text);
        }
    }
    if high_byte(bytes) {
        utf8_text(bytes)
    } else {
        None
    }
}

/// Decodes an operand that no CMap decoded, as far as it needs no encoding of the font.
pub fn decode_early(
    bytes: &[u8],
    is_cid: bool,
    encoding: Option<&HashMap<u8, char>>,
    cp1252: bool,
    widths: &[RawGlyphWidth],
) -> (r: Option<Decoded>)
    ensures
        opt_decoded(r) == early_decode(bytes@, is_cid, opt_map(encoding), cp1252, widths@),
{
    if is_cid && high_byte(bytes) {
        return Some(mark_undecoded(bytes, widths));
    }
    match encoding {
        Some(map) => {
            if any_mapped(map, bytes) {
                let units = units_of_encoded_bytes(map, bytes, cp1252);
                let text = units_to_string(units.as_slice());
                let decoded = spell(text, units.as_slice(), widths);
                if decoded.is_some() {
                    return decoded;
                }
            }
        },
        None => {},
    }
    match decode_unicode(bytes) {
        Some(text) => Some(unpair(text, widths)),
        None => None,
    }
}

fn decode_plain(
    bytes: &[u8],
    base_font_name: Option<&str>,
    cp1252: bool,
    widths: &[RawGlyphWidth],
) -> (r: Decoded)
    ensures
        r@ == plain_decode(bytes@, opt_name(base_font_name), cp1252, widths@),
{
    match decode_symbol_fallback(bytes, base_font_name) {
        Some(text) => unpair(text, widths),
        None => {
            let units = units_of_plain_bytes(bytes, cp1252);
            let text = units_to_string(units.as_slice());
            Decoded { text, glyphs: glyphs_for(units.as_slice(), widths) }
        },
    }
}

/// Decodes an operand by what the font's encoding made of it, and by single bytes where that is
/// of no use. `None` where a font that has a CMap leaves the operand undecoded.
pub fn decode_late(
    bytes: &[u8],
    base_font_name: Option<&str>,
    cp1252: bool,
    widths: &[RawGlyphWidth],
    has_cmap: bool,
    encoded: Option<String>,
) -> (r: Option<Decoded>)
    ensures
        opt_decoded(r) == late_decode(
            bytes@,
            opt_name(base_font_name),
            cp1252,
            widths@,
            has_cmap,
            opt_text(encoded),
        ),
{
    match encoded {
        Some(text) => {
            let text = normalize_cp1252_controls(text, cp1252);
            if !has_char(text.as_str(), REPLACEMENT) {
                return Some(unpair(text, widths));
            }
            if printable(bytes) {
                let text = decode_single_byte_fallback(bytes, false);
                assert(text@ =~= bytes@.map_values(|b: u8| b as char));
                return Some(unpair(text, widths));
            }
            if has_cmap && decode_symbol_fallback(bytes, base_font_name).is_none() {
                return None;
            }
        },
        None => {},
    }
    Some(decode_plain(bytes, base_font_name, cp1252, widths))
}

proof fn lemma_marker_text(widths: Seq<RawGlyphWidth>)
    ensures
        units_text(marker_units(widths)) == Seq::new(widths.len(), |i: int| REPLACEMENT),
    decreases widths.len(),
{
    let units = marker_units(widths);
    if widths.len() > 0 {
        lemma_marker_text(widths.drop_last());
        assert(units.drop_last() =~= marker_units(widths.drop_last()));
        assert(units_text(units) =~= Seq::new(widths.len(), |i: int| REPLACEMENT));
    } else {
        assert(units_text(units) =~= Seq::new(widths.len(), |i: int| REPLACEMENT));
    }
}

/// A decode without an encoding shows its text and adds up to its operand.
pub proof fn lemma_early_is_faithful(
    bytes: Seq<u8>,
    is_cid: bool,
    encoding: Option<Map<u8, char>>,
    cp1252: bool,
    widths: Seq<RawGlyphWidth>,
)
    requires
        widths.len() < 0x1_0000,
    ensures
        early_decode(bytes, is_cid, encoding, cp1252, widths) matches Some(decoded)
            ==> is_faithful(decoded, widths),
{
    lemma_marker_text(widths);
    law_glyphs_add_up(marker_units(widths), widths);
    law_whole_glyph_adds_up(Seq::new(marker_count(bytes), |i: int| REPLACEMENT), widths);
    match encoding {
        Some(map) => {
            law_glyphs_add_up(encoded_units(map, bytes, cp1252), widths);
        },
        None => {},
    }
    match unicode_decode(bytes) {
        Some(text) => {
            law_whole_glyph_adds_up(text, widths);
        },
        None => {},
    }
}

/// A decode by an encoding or by single bytes shows its text and adds up to its operand.
pub proof fn lemma_late_is_faithful(
    bytes: Seq<u8>,
    base_font: Option<Seq<char>>,
    cp1252: bool,
    widths: Seq<RawGlyphWidth>,
    has_cmap: bool,
    encoded: Option<Seq<char>>,
)
    requires
        widths.len() < 0x1_0000,
    ensures
        late_decode(bytes, base_font, cp1252, widths, has_cmap, encoded) matches Some(decoded)
            ==> is_faithful(decoded, widths),
{
    match encoded {
        Some(text) => {
            law_whole_glyph_adds_up(normalized(text, cp1252), widths);
        },
        None => {},
    }
    law_whole_glyph_adds_up(bytes.map_values(|b: u8| b as char), widths);
    match symbol_text(bytes, base_font) {
        Some(text) => {
            law_whole_glyph_adds_up(text, widths);
        },
        None => {},
    }
    law_glyphs_add_up(plain_units(bytes, cp1252), widths);
}

/// A code that a standard font's own encoding leaves open is measured by the character that it
/// is decoded to.
pub proof fn law_standard_widths_follow_the_text(
    differences: Map<u8, char>,
    builtin: Map<u8, char>,
    code: u8,
)
    requires
        differences.contains_key(code) || (!builtin.contains_key(code) && code >= 0x20),
    ensures
        encoded_byte(Some(differences), code, true) == Some(
            seq![standard_char(differences, builtin, code)],
        ),
{
}

/// The text of a decode without an encoding does not depend on widths.
pub proof fn lemma_early_text(
    bytes: Seq<u8>,
    is_cid: bool,
    encoding: Option<Map<u8, char>>,
    cp1252: bool,
    widths: Seq<RawGlyphWidth>,
    other: Seq<RawGlyphWidth>,
)
    ensures
        text_of(early_decode(bytes, is_cid, encoding, cp1252, widths)) == text_of(
            early_decode(bytes, is_cid, encoding, cp1252, other),
        ),
{
}

/// The text of a decode by an encoding or by single bytes does not depend on widths.
pub proof fn lemma_late_text(
    bytes: Seq<u8>,
    base_font: Option<Seq<char>>,
    cp1252: bool,
    widths: Seq<RawGlyphWidth>,
    other: Seq<RawGlyphWidth>,
    has_cmap: bool,
    encoded: Option<Seq<char>>,
)
    ensures
        text_of(late_decode(bytes, base_font, cp1252, widths, has_cmap, encoded)) == text_of(
            late_decode(bytes, base_font, cp1252, other, has_cmap, encoded),
        ),
{
}

}
