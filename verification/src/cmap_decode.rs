//! Decoding a string operand by a font's CMaps.

use crate::cmap::{cmap_text, ToUnicodeCMap};
use crate::fallback::{byte_char, decode_single_byte_fallback_char};
use crate::glyphs::{
    adds_up, glyph_views, glyphs_for, glyphs_of, glyphs_text, law_glyphs_add_up,
    law_whole_glyph_adds_up, opaque_glyph, unit_views, units_text, units_to_string, whole_glyph,
    GlyphDecode, GlyphView,
};
use crate::score::{
    better_decode, better_of, decision_of, next_decision, text_score, wide_score, CMapChoice,
    CMapDecisionCache, DecisionView,
};
use crate::text::{has_char, opt_text, string_of_char, REPLACEMENT};
use crate::widths::RawGlyphWidth;
use std::collections::HashMap;
use vstd::prelude::*;
use vstd::string::*;

verus! {

broadcast use vstd::std_specs::hash::group_hash_axioms;

/// What one CMap makes of an operand.
pub struct CMapReading<'a> {
    pub cmap: &'a ToUnicodeCMap,
    /// The text of each single byte, where it has one.
    pub byte_texts: Vec<Option<String>>,
    /// The operand's codes, each with its text where it has one.
    pub units: Vec<(u16, Option<String>)>,
    /// Whether the codes are to be taken as undecodable.
    pub failed: bool,
}

/// What a font's CMaps make of an operand: the CMap itself, its remapped form, and the one made
/// from the embedded font.
pub struct EntryReading<'a> {
    pub primary: CMapReading<'a>,
    pub remapped: Option<CMapReading<'a>>,
    pub fallback: Option<CMapReading<'a>>,
}

/// A decoded operand.
#[derive(Debug)]
pub struct Decoded {
    pub text: String,
    pub glyphs: Vec<GlyphDecode>,
}

/// A decoded operand.
#[verifier::ext_equal]
pub struct DecodedView {
    pub text: Seq<char>,
    pub glyphs: Seq<GlyphView>,
}

impl View for Decoded {
    type V = DecodedView;

    open spec fn view(&self) -> DecodedView {
        DecodedView { text: self.text@, glyphs: glyph_views(self.glyphs@) }
    }
}

/// The view of a decode that may have failed.
pub open spec fn opt_decoded(decoded: Option<Decoded>) -> Option<DecodedView> {
    match decoded {
        Some(decoded) => Some(decoded@),
        None => None,
    }
}

/// The characters of an encoding that may be absent.
pub open spec fn opt_map(map: Option<&HashMap<u8, char>>) -> Option<Map<u8, char>> {
    match map {
        Some(map) => Some(map@),
        None => None,
    }
}

/// A text without U+FFFD.
pub open spec fn is_clean(text: Option<Seq<char>>) -> bool {
    text matches Some(text) && !text.contains(REPLACEMENT)
}

/// A byte by `/Differences`, else by its number from 0x20 on.
pub open spec fn encoded_byte(
    encoding: Option<Map<u8, char>>,
    byte: u8,
    cp1252: bool,
) -> Option<Seq<char>> {
    if encoding matches Some(map) && map.contains_key(byte) {
        Some(seq![encoding->0[byte]])
    } else if byte >= 0x20 {
        Some(seq![byte_char(byte, cp1252)])
    } else {
        None
    }
}

/// A byte by the CMap, else by the embedded font's CMap, else by `/Differences`, else by its
/// number.
pub open spec fn mapped_byte(
    entry: EntryReading<'_>,
    encoding: Option<Map<u8, char>>,
    byte: u8,
    cp1252: bool,
) -> Option<Seq<char>> {
    let by_primary = cmap_text(*entry.primary.cmap, byte as u16);
    let by_fallback = match entry.fallback {
        Some(fallback) => cmap_text(*fallback.cmap, byte as u16),
        None => None,
    };
    if is_clean(by_primary) {
        by_primary
    } else if is_clean(by_fallback) {
        by_fallback
    } else {
        encoded_byte(encoding, byte, cp1252)
    }
}

/// The codes of an operand under a CMap of single bytes.
pub open spec fn mapped_units(
    entry: EntryReading<'_>,
    encoding: Option<Map<u8, char>>,
    bytes: Seq<u8>,
    cp1252: bool,
) -> Seq<(u16, Option<Seq<char>>)> {
    bytes.map_values(|b: u8| (b as u16, mapped_byte(entry, encoding, b, cp1252)))
}

/// Texts one after another, those that are there.
pub open spec fn joined(texts: Seq<Option<String>>) -> Seq<char>
    decreases texts.len(),
{
    if texts.len() == 0 {
        Seq::empty()
    } else {
        joined(texts.drop_last()) + match texts.last() {
            Some(text) => text@,
            None => Seq::empty(),
        }
    }
}

/// The text that a CMap makes of an operand's codes, empty where it failed.
pub open spec fn reading_text(reading: CMapReading<'_>) -> Seq<char> {
    if reading.failed {
        Seq::empty()
    } else {
        units_text(unit_views(reading.units@))
    }
}

/// A text with the glyphs of the codes that it comes from, unless it is empty.
pub open spec fn spelled(
    text: Seq<char>,
    units: Seq<(u16, Option<Seq<char>>)>,
    widths: Seq<RawGlyphWidth>,
) -> Option<DecodedView> {
    if text.len() > 0 {
        Some(DecodedView { text, glyphs: glyphs_of(units, widths) })
    } else {
        None
    }
}

/// A text that does not pair up with its codes.
pub open spec fn unpaired(text: Seq<char>, widths: Seq<RawGlyphWidth>) -> DecodedView {
    DecodedView { text, glyphs: seq![whole_glyph(text, widths)] }
}

/// Whether the embedded font's CMap does better: it has a text where the other has none, or has
/// one for less than half of the codes; or its text scores better by more than three.
pub open spec fn prefers_fallback(
    fallback: Seq<char>,
    text: Seq<char>,
    expected: nat,
) -> bool {
    ||| fallback.len() > 0 && text.len() == 0
    ||| fallback.len() > 0 && expected > 0 && text.len() * 2 < expected
    ||| text_score(fallback) > text_score(text) + 3
}

/// The decode of a CMap, or that of the embedded font's CMap where it does better.
pub open spec fn or_fallback(
    reading: CMapReading<'_>,
    fallback: Option<CMapReading<'_>>,
    bytes: Seq<u8>,
    widths: Seq<RawGlyphWidth>,
) -> Option<DecodedView> {
    let text = reading_text(reading);
    match fallback {
        Some(other) => if prefers_fallback(reading_text(other), text, bytes.len() / 2) {
            spelled(reading_text(other), unit_views(other.units@), widths)
        } else {
            spelled(text, unit_views(reading.units@), widths)
        },
        None => spelled(text, unit_views(reading.units@), widths),
    }
}

/// The reading that a choice picks.
pub open spec fn chosen<'a>(
    primary: CMapReading<'a>,
    remapped: CMapReading<'a>,
    choice: CMapChoice,
) -> CMapReading<'a> {
    match choice {
        CMapChoice::Primary => primary,
        CMapChoice::Remapped => remapped,
    }
}

/// Whether a choice has been made for a font, and what it picks has a text here.
pub open spec fn is_settled(
    primary: CMapReading<'_>,
    remapped: CMapReading<'_>,
    seen: DecisionView,
) -> bool {
    seen.choice matches Some(choice) && reading_text(chosen(primary, remapped, choice)).len() > 0
}

/// A font's record after an operand that its choice did not settle.
pub open spec fn reconsidered(
    primary: CMapReading<'_>,
    remapped: CMapReading<'_>,
    seen: DecisionView,
    bytes: Seq<u8>,
) -> DecisionView {
    next_decision(seen, reading_text(primary), reading_text(remapped), bytes.len() as usize)
}

/// The decode of an operand where a CMap has a remapped form.
pub open spec fn remapped_decode(
    entry: EntryReading<'_>,
    remapped: CMapReading<'_>,
    bytes: Seq<u8>,
    widths: Seq<RawGlyphWidth>,
    seen: DecisionView,
) -> Option<DecodedView> {
    if is_settled(entry.primary, remapped, seen) {
        let reading = chosen(entry.primary, remapped, seen.choice->0);
        spelled(reading_text(reading), unit_views(reading.units@), widths)
    } else {
        let choice = match reconsidered(entry.primary, remapped, seen, bytes).choice {
            Some(choice) => choice,
            None => better_decode(reading_text(entry.primary), reading_text(remapped)),
        };
        or_fallback(chosen(entry.primary, remapped, choice), entry.fallback, bytes, widths)
    }
}

/// Whether an operand of an odd length is decoded byte by byte.
pub open spec fn is_rescued(entry: EntryReading<'_>, bytes: Seq<u8>) -> bool {
    bytes.len() % 2 == 1 && joined(entry.primary.byte_texts@).len() > 0
}

/// The decode of an operand by a font's CMaps.
pub open spec fn entry_decode(
    entry: EntryReading<'_>,
    bytes: Seq<u8>,
    encoding: Option<Map<u8, char>>,
    cp1252: bool,
    widths: Seq<RawGlyphWidth>,
    seen: DecisionView,
) -> Option<DecodedView> {
    if entry.primary.cmap.code_byte_length == 1 {
        let units = mapped_units(entry, encoding, bytes, cp1252);
        spelled(units_text(units), units, widths)
    } else if is_rescued(entry, bytes) {
        Some(unpaired(joined(entry.primary.byte_texts@), widths))
    } else {
        match entry.remapped {
            Some(remapped) => remapped_decode(entry, remapped, bytes, widths, seen),
            None => if reading_text(entry.primary).len() > 0 {
                or_fallback(entry.primary, entry.fallback, bytes, widths)
            } else {
                None
            },
        }
    }
}

/// What the CMap choices are once an operand has been decoded by a font's CMaps.
pub open spec fn choices_after(
    entry: EntryReading<'_>,
    bytes: Seq<u8>,
    choices: Map<u32, DecisionView>,
    obj_num: u32,
) -> Map<u32, DecisionView> {
    if entry.primary.cmap.code_byte_length == 1 || is_rescued(entry, bytes) {
        choices
    } else {
        match entry.remapped {
            Some(remapped) => {
                let seen = decision_of(choices, obj_num);
                if is_settled(entry.primary, remapped, seen) {
                    choices
                } else {
                    choices.insert(obj_num, reconsidered(entry.primary, remapped, seen, bytes))
                }
            },
            None => choices,
        }
    }
}

fn clean_text(text: Option<&String>) -> (r: Option<String>)
    ensures
        match text {
            Some(t) => opt_text(r) == if is_clean(Some(t@)) {
                Some(t@)
            } else {
                None
            },
            None => r is None,
        },
{
    match text {
        Some(t) => if has_char(t.as_str(), REPLACEMENT) {
            None
        } else {
            Some(t.clone())
        },
        None => None,
    }
}

/// A byte by `/Differences`, else by its number.
pub(crate) fn text_of_encoded_byte(
    encoding: Option<&HashMap<u8, char>>,
    byte: u8,
    cp1252: bool,
) -> (text: Option<String>)
    ensures
        opt_text(text) == encoded_byte(opt_map(encoding), byte, cp1252),
{
    match encoding {
        Some(map) => match map.get(&byte) {
            Some(c) => {
                return Some(string_of_char(*c));
            },
            None => {},
        },
        None => {},
    }
    if byte >= 0x20 {
        Some(string_of_char(decode_single_byte_fallback_char(byte, cp1252)))
    } else {
        None
    }
}

fn text_of_mapped_byte(
    entry: &EntryReading<'_>,
    encoding: Option<&HashMap<u8, char>>,
    byte: u8,
    cp1252: bool,
) -> (text: Option<String>)
    ensures
        opt_text(text) == mapped_byte(*entry, opt_map(encoding), byte, cp1252),
{
    match clean_text(entry.primary.cmap.lookup(byte as u16)) {
        Some(text) => {
            return Some(text);
        },
        None => {},
    }
    match &entry.fallback {
        Some(fallback) => match clean_text(fallback.cmap.lookup(byte as u16)) {
            Some(text) => {
                return Some(text);
            },
            None => {},
        },
        None => {},
    }
    text_of_encoded_byte(encoding, byte, cp1252)
}

fn units_of_mapped_bytes(
    entry: &EntryReading<'_>,
    encoding: Option<&HashMap<u8, char>>,
    bytes: &[u8],
    cp1252: bool,
) -> (units: Vec<(u16, Option<String>)>)
    ensures
        unit_views(units@) == mapped_units(*entry, opt_map(encoding), bytes@, cp1252),
{
    let mut units: Vec<(u16, Option<String>)> = Vec::new();
    for i in 0..bytes.len()
        invariant
            unit_views(units@) == mapped_units(*entry, opt_map(encoding), bytes@, cp1252).take(
                i as int,
            ),
    {
        let ghost before = units@;
        let unit = (bytes[i] as u16, text_of_mapped_byte(entry, encoding, bytes[i], cp1252));
        units.push(unit);
        assert(unit_views(units@) =~= unit_views(before).push((unit.0, opt_text(unit.1))));
    }
    units
}

fn join(texts: &[Option<String>]) -> (text: String)
    ensures
        text@ == joined(texts@),
{
    let mut text = String::new();
    for i in 0..texts.len()
        invariant
            text@ == joined(texts@.take(i as int)),
    {
        assert(texts@.take(i + 1).drop_last() == texts@.take(i as int));
        match &texts[i] {
            Some(part) => {
                text.append(part.as_str());
            },
            None => {},
        }
    }
    assert(texts@.take(texts@.len() as int) == texts@);
    text
}

fn text_of_reading(reading: &CMapReading<'_>) -> (text: String)
    ensures
        text@ == reading_text(*reading),
{
    if reading.failed {
        String::new()
    } else {
        units_to_string(reading.units.as_slice())
    }
}

/// A text with the glyphs of the codes that it comes from, unless it is empty.
pub(crate) fn spell(
    text: String,
    units: &[(u16, Option<String>)],
    widths: &[RawGlyphWidth],
) -> (r: Option<Decoded>)
    ensures
        opt_decoded(r) == spelled(text@, unit_views(units@), widths@),
{
    if text.as_str().is_empty() {
        None
    } else {
        Some(Decoded { text, glyphs: glyphs_for(units, widths) })
    }
}

/// A text that does not pair up with its codes.
pub(crate) fn unpair(text: String, widths: &[RawGlyphWidth]) -> (r: Decoded)
    ensures
        r@ == unpaired(text@, widths@),
{
    let glyphs = opaque_glyph(text.clone(), widths);
    Decoded { text, glyphs }
}

fn fallback_is_better(fallback: &str, text: &str, expected: usize) -> (r: bool)
    ensures
        r == prefers_fallback(fallback@, text@, expected as nat),
{
    if !fallback.is_empty() {
        if text.is_empty() {
            return true;
        }
        let len = text.unicode_len();
        if expected > 0 && (len as u128) * 2 < expected as u128 {
            return true;
        }
    }
    wide_score(fallback) > wide_score(text) + 3
}

fn decode_or_fallback(
    reading: &CMapReading<'_>,
    fallback: &Option<CMapReading<'_>>,
    bytes: &[u8],
    widths: &[RawGlyphWidth],
) -> (r: Option<Decoded>)
    ensures
        opt_decoded(r) == or_fallback(*reading, *fallback, bytes@, widths@),
{
    let text = text_of_reading(reading);
    match fallback {
        Some(other) => {
            let other_text = text_of_reading(other);
            if fallback_is_better(other_text.as_str(), text.as_str(), bytes.len() / 2) {
                return spell(other_text, other.units.as_slice(), widths);
            }
        },
        None => {},
    }
    spell(text, reading.units.as_slice(), widths)
}

fn pick<'a, 'b>(
    primary: &'b CMapReading<'a>,
    remapped: &'b CMapReading<'a>,
    choice: CMapChoice,
) -> (reading: &'b CMapReading<'a>)
    ensures
        *reading == chosen(*primary, *remapped, choice),
{
    match choice {
        CMapChoice::Primary => primary,
        CMapChoice::Remapped => remapped,
    }
}

/// Decodes an operand by a font's CMaps, and keeps the record of the font's CMap choice.
pub fn decode_with_entry(
    entry: &EntryReading<'_>,
    bytes: &[u8],
    encoding: Option<&HashMap<u8, char>>,
    cp1252: bool,
    widths: &[RawGlyphWidth],
    obj_num: u32,
    cmap_decisions: &mut CMapDecisionCache,
) -> (r: Option<Decoded>)
    ensures
        opt_decoded(r) == entry_decode(
            *entry,
            bytes@,
            opt_map(encoding),
            cp1252,
            widths@,
            decision_of(old(cmap_decisions)@, obj_num),
        ),
        final(cmap_decisions)@ == choices_after(
            *entry,
            bytes@,
            old(cmap_decisions)@,
            obj_num,
        ),
{
    if entry.primary.cmap.code_byte_length == 1 {
        let units = units_of_mapped_bytes(entry, encoding, bytes, cp1252);
        let text = units_to_string(units.as_slice());
        return spell(text, units.as_slice(), widths);
    }
    if bytes.len() % 2 == 1 {
        let text = join(entry.primary.byte_texts.as_slice());
        if !text.as_str().is_empty() {
            return Some(unpair(text, widths));
        }
    }
    match &entry.remapped {
        Some(remapped) => {
            match cmap_decisions.get_choice(obj_num) {
                Some(choice) => {
                    let reading = pick(&entry.primary, remapped, choice);
                    let text = text_of_reading(reading);
                    if !text.as_str().is_empty() {
                        return spell(text, reading.units.as_slice(), widths);
                    }
                },
                None => {},
            }
            let primary_text = text_of_reading(&entry.primary);
            let remapped_text = text_of_reading(remapped);
            let considered = cmap_decisions.consider(
                obj_num,
                primary_text.as_str(),
                remapped_text.as_str(),
                bytes.len(),
            );
            let choice = match considered {
                Some(choice) => choice,
                None => better_of(primary_text.as_str(), remapped_text.as_str()),
            };
            let reading = pick(&entry.primary, remapped, choice);
            decode_or_fallback(reading, &entry.fallback, bytes, widths)
        },
        None => {
            if text_of_reading(&entry.primary).as_str().is_empty() {
                return None;
            }
            decode_or_fallback(&entry.primary, &entry.fallback, bytes, widths)
        },
    }
}

/// A decode whose glyphs show its text and add up to its operand.
pub open spec fn is_faithful(decoded: DecodedView, widths: Seq<RawGlyphWidth>) -> bool {
    glyphs_text(decoded.glyphs) == decoded.text && adds_up(decoded.glyphs, widths)
}

proof fn lemma_or_fallback_is_faithful(
    reading: CMapReading<'_>,
    fallback: Option<CMapReading<'_>>,
    bytes: Seq<u8>,
    widths: Seq<RawGlyphWidth>,
)
    requires
        widths.len() < 0x1_0000,
    ensures
        or_fallback(reading, fallback, bytes, widths) matches Some(decoded) ==> is_faithful(
            decoded,
            widths,
        ),
{
    law_glyphs_add_up(unit_views(reading.units@), widths);
    match fallback {
        Some(other) => {
            law_glyphs_add_up(unit_views(other.units@), widths);
        },
        None => {},
    }
}

/// A decode by CMaps shows its text and adds up to its operand.
pub proof fn lemma_entry_is_faithful(
    entry: EntryReading<'_>,
    bytes: Seq<u8>,
    encoding: Option<Map<u8, char>>,
    cp1252: bool,
    widths: Seq<RawGlyphWidth>,
    seen: DecisionView,
)
    requires
        widths.len() < 0x1_0000,
    ensures
        entry_decode(entry, bytes, encoding, cp1252, widths, seen) matches Some(decoded)
            ==> is_faithful(decoded, widths),
{
    law_glyphs_add_up(mapped_units(entry, encoding, bytes, cp1252), widths);
    law_whole_glyph_adds_up(joined(entry.primary.byte_texts@), widths);
    lemma_or_fallback_is_faithful(entry.primary, entry.fallback, bytes, widths);
    match entry.remapped {
        Some(remapped) => {
            law_glyphs_add_up(unit_views(entry.primary.units@), widths);
            law_glyphs_add_up(unit_views(remapped.units@), widths);
            lemma_or_fallback_is_faithful(remapped, entry.fallback, bytes, widths);
        },
        None => {},
    }
}

/// Under a CMap of single bytes, every byte from 0x20 on has a text, whatever the CMap leaves
/// out.
pub proof fn law_printable_bytes_always_decode(
    entry: EntryReading<'_>,
    encoding: Option<Map<u8, char>>,
    byte: u8,
    cp1252: bool,
)
    requires
        byte >= 0x20,
    ensures
        mapped_byte(entry, encoding, byte, cp1252) is Some,
{
}

/// The text of a decode.
pub open spec fn text_of(decoded: Option<DecodedView>) -> Option<Seq<char>> {
    match decoded {
        Some(decoded) => Some(decoded.text),
        None => None,
    }
}

/// The text of a decode by CMaps does not depend on widths.
pub proof fn lemma_entry_text(
    entry: EntryReading<'_>,
    bytes: Seq<u8>,
    encoding: Option<Map<u8, char>>,
    cp1252: bool,
    widths: Seq<RawGlyphWidth>,
    other: Seq<RawGlyphWidth>,
    seen: DecisionView,
)
    ensures
        text_of(entry_decode(entry, bytes, encoding, cp1252, widths, seen)) == text_of(
            entry_decode(entry, bytes, encoding, cp1252, other, seen),
        ),
{
}

}
