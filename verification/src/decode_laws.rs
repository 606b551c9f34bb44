//! What decoding an operand promises.

use crate::byte_decode::{count_zeros, early_decode, late_decode, marker_units, plain_units};
use crate::cmap_decode::{
    choices_after, entry_decode, joined, mapped_units, reading_text, CMapReading, DecodedView,
    EntryReading,
};
use crate::decode::{
    at_number, bytes_decode, choice_key, choices_after_decode, encoded_text, font_view,
    operand_result, operand_widths, FontView, PageFonts,
};
use crate::fallback::{byte_char, is_texcm, normalized, symbol_text, uses_cp1252};
use crate::fallback_laws::{law_repairs, windows_1252};
use crate::glyphs::{
    aligned_glyphs, count_spaces, glyphs_of, unit_views, units_text, whole_glyph, GlyphView,
};
use crate::outside::encoding_texts;
use crate::score::{better_decode, decision_of, next_decision, text_score, CMapChoice, DecisionView};
use crate::text::opt_text;
use crate::unicode::{be_pairs, utf16_text};
use crate::widths::{raw_widths, RawGlyphWidth};
use lopdf::Encoding;
use vstd::prelude::*;
use vstd::string::*;
use vstd::utf8::*;

verus! {

/// Texts one after another, those that are there.
pub open spec fn shown(texts: Seq<Option<Seq<char>>>) -> Seq<char> {
    texts.map_values(
        |text: Option<Seq<char>>|
            match text {
                Some(text) => text,
                None => Seq::empty(),
            },
    ).flatten()
}

/// The texts of some codes.
pub open spec fn texts_of(units: Seq<(u16, Option<Seq<char>>)>) -> Seq<Option<Seq<char>>> {
    units.map_values(|unit: (u16, Option<Seq<char>>)| unit.1)
}

proof fn lemma_shown_push(texts: Seq<Option<Seq<char>>>)
    requires
        texts.len() > 0,
    ensures
        shown(texts) == shown(texts.drop_last()) + match texts.last() {
            Some(text) => text,
            None => Seq::empty(),
        },
{
    let f = |text: Option<Seq<char>>|
        match text {
            Some(text) => text,
            None => Seq::empty(),
        };
    let front = texts.drop_last().map_values(f);
    assert(texts.map_values(f) =~= front.push(f(texts.last())));
    front.lemma_flatten_push(f(texts.last()));
}

proof fn lemma_shown_empty()
    ensures
        shown(Seq::<Option<Seq<char>>>::empty()) == Seq::<char>::empty(),
{
    let f = |text: Option<Seq<char>>|
        match text {
            Some(text) => text,
            None => Seq::empty(),
        };
    assert(Seq::<Option<Seq<char>>>::empty().map_values(f) =~= Seq::<Seq<char>>::empty());
}

/// The text of some codes is what they have of it, in their order.
pub proof fn law_text_of_codes(units: Seq<(u16, Option<Seq<char>>)>)
    ensures
        units_text(units) == shown(texts_of(units)),
    decreases units.len(),
{
    if units.len() > 0 {
        law_text_of_codes(units.drop_last());
        lemma_shown_push(texts_of(units));
        assert(texts_of(units).drop_last() =~= texts_of(units.drop_last()));
    } else {
        lemma_shown_empty();
        assert(texts_of(units) =~= Seq::<Option<Seq<char>>>::empty());
    }
}

proof fn lemma_joined(texts: Seq<Option<String>>)
    ensures
        joined(texts) == shown(texts.map_values(|t: Option<String>| opt_text(t))),
    decreases texts.len(),
{
    let views = texts.map_values(|t: Option<String>| opt_text(t));
    if texts.len() > 0 {
        lemma_joined(texts.drop_last());
        lemma_shown_push(views);
        assert(views.drop_last() =~= texts.drop_last().map_values(
            |t: Option<String>| opt_text(t),
        ));
    } else {
        lemma_shown_empty();
        assert(views =~= Seq::<Option<Seq<char>>>::empty());
    }
}

/// Texts that are all there, one after another.
proof fn lemma_shown_all(texts: Seq<Seq<char>>)
    ensures
        shown(texts.map_values(|t: Seq<char>| Some(t))) == texts.flatten(),
{
    let f = |text: Option<Seq<char>>|
        match text {
            Some(text) => text,
            None => Seq::empty(),
        };
    assert(texts.map_values(|t: Seq<char>| Some(t)).map_values(f) =~= texts);
}

/// Whether a CMap has a text for a byte, and one without U+FFFD.
pub open spec fn maps_cleanly(reading: CMapReading<'_>, byte: u8) -> bool {
    &&& reading.cmap.texts@.contains_key(byte as u16)
    &&& !reading.cmap.texts@[byte as u16]@.contains('\u{FFFD}')
}

/// Whether a font's second CMap, made from the embedded font, has such a text.
pub open spec fn falls_back(entry: EntryReading<'_>, byte: u8) -> bool {
    entry.fallback matches Some(fallback) && maps_cleanly(fallback, byte)
}

/// Under a CMap of single bytes every byte has a text of its own: that of the CMap where it has a
/// clean one, whatever else is known of the byte; else that of the CMap made from the embedded
/// font; else the character of `/Differences`; else from 0x20 on the character of its number, and
/// below it none. The decoded text is these texts in the order of the bytes.
pub proof fn law_bytes_are_read_by_the_cmap(
    entry: EntryReading<'_>,
    bytes: Seq<u8>,
    encoding: Option<Map<u8, char>>,
    cp1252: bool,
    widths: Seq<RawGlyphWidth>,
    seen: DecisionView,
) -> (texts: Seq<Option<Seq<char>>>)
    requires
        entry.primary.cmap.code_byte_length == 1,
    ensures
        texts.len() == bytes.len(),
        forall|i: int|
            0 <= i < bytes.len() && maps_cleanly(entry.primary, #[trigger] bytes[i]) ==> texts[i]
                == Some(entry.primary.cmap.texts@[bytes[i] as u16]@),
        forall|i: int|
            0 <= i < bytes.len() && !maps_cleanly(entry.primary, #[trigger] bytes[i]) && falls_back(
                entry,
                bytes[i],
            ) ==> texts[i] == Some(entry.fallback->0.cmap.texts@[bytes[i] as u16]@),
        forall|i: int|
            0 <= i < bytes.len() && !maps_cleanly(entry.primary, #[trigger] bytes[i])
                && !falls_back(entry, bytes[i]) && (encoding matches Some(map) && map.contains_key(
                bytes[i],
            )) ==> texts[i] == Some(seq![encoding->0[bytes[i]]]),
        forall|i: int|
            0 <= i < bytes.len() && !maps_cleanly(entry.primary, #[trigger] bytes[i])
                && !falls_back(entry, bytes[i]) && !(encoding matches Some(map)
                && map.contains_key(bytes[i])) ==> texts[i] == if bytes[i] >= 0x20 {
                Some(seq![byte_char(bytes[i], cp1252)])
            } else {
                None
            },
        shown(texts).len() == 0 ==> entry_decode(entry, bytes, encoding, cp1252, widths, seen)
            is None,
        shown(texts).len() > 0 ==> entry_decode(entry, bytes, encoding, cp1252, widths, seen) == (
        Some(
            DecodedView {
                text: shown(texts),
                glyphs: glyphs_of(
                    Seq::new(bytes.len(), |i: int| (bytes[i] as u16, texts[i])),
                    widths,
                ),
            },
        )),
{
    let units = mapped_units(entry, encoding, bytes, cp1252);
    let texts = texts_of(units);
    law_text_of_codes(units);
    assert(units =~= Seq::new(bytes.len(), |i: int| (bytes[i] as u16, texts[i])));
    texts
}

/// An operand all of whose bytes a CMap of single bytes maps cleanly is the texts that the CMap
/// has for them, one after another, whatever else is known of the font.
pub proof fn law_mapped_operands_are_the_texts_of_the_cmap(
    entry: EntryReading<'_>,
    bytes: Seq<u8>,
    texts: Seq<Seq<char>>,
    encoding: Option<Map<u8, char>>,
    cp1252: bool,
    widths: Seq<RawGlyphWidth>,
    seen: DecisionView,
)
    requires
        entry.primary.cmap.code_byte_length == 1,
        texts.len() == bytes.len(),
        forall|i: int|
            0 <= i < bytes.len() ==> maps_cleanly(entry.primary, #[trigger] bytes[i])
                && entry.primary.cmap.texts@[bytes[i] as u16]@ == texts[i],
        texts.flatten().len() > 0,
    ensures
        entry_decode(entry, bytes, encoding, cp1252, widths, seen) matches Some(decoded)
            && decoded.text == texts.flatten(),
{
    let read = law_bytes_are_read_by_the_cmap(entry, bytes, encoding, cp1252, widths, seen);
    assert forall|i: int| 0 <= i < bytes.len() implies #[trigger] read[i] == Some(texts[i]) by {
        assert(maps_cleanly(entry.primary, bytes[i]));
    }
    assert(read =~= texts.map_values(|t: Seq<char>| Some(t)));
    lemma_shown_all(texts);
}

/// The codes that a CMap reads, with their texts.
pub open spec fn codes_of(reading: CMapReading<'_>) -> Seq<(u16, Option<Seq<char>>)> {
    reading.units@.map_values(|u: (u16, Option<String>)| (u.0, opt_text(u.1)))
}

/// The text that a CMap reads: that of its codes, and none where it failed.
pub open spec fn read_text(reading: CMapReading<'_>) -> Seq<char> {
    if reading.failed {
        Seq::empty()
    } else {
        shown(texts_of(codes_of(reading)))
    }
}

proof fn lemma_read_text(reading: CMapReading<'_>)
    ensures
        reading_text(reading) == read_text(reading),
        unit_views(reading.units@) == codes_of(reading),
{
    law_text_of_codes(unit_views(reading.units@));
    assert(unit_views(reading.units@) =~= codes_of(reading));
}

/// The decode that takes a CMap's reading as it is.
pub open spec fn taken(reading: CMapReading<'_>, widths: Seq<RawGlyphWidth>) -> Option<DecodedView> {
    if read_text(reading).len() == 0 {
        None
    } else {
        Some(DecodedView { text: read_text(reading), glyphs: glyphs_of(codes_of(reading), widths) })
    }
}

/// An operand of an odd length whose single bytes a CMap of longer codes has texts for is those
/// texts, as one glyph, and no choice rests on it.
pub proof fn law_odd_operands_are_read_by_bytes(
    entry: EntryReading<'_>,
    bytes: Seq<u8>,
    encoding: Option<Map<u8, char>>,
    cp1252: bool,
    widths: Seq<RawGlyphWidth>,
    choices: Map<u32, DecisionView>,
    obj_num: u32,
)
    requires
        entry.primary.cmap.code_byte_length != 1,
        bytes.len() % 2 == 1,
        shown(entry.primary.byte_texts@.map_values(|t: Option<String>| opt_text(t))).len() > 0,
    ensures
        ({
            let text = shown(
                entry.primary.byte_texts@.map_values(|t: Option<String>| opt_text(t)),
            );
            &&& entry_decode(
                entry,
                bytes,
                encoding,
                cp1252,
                widths,
                decision_of(choices, obj_num),
            ) == Some(DecodedView { text, glyphs: seq![whole_glyph(text, widths)] })
            &&& choices_after(entry, bytes, choices, obj_num) == choices
        }),
{
    lemma_joined(entry.primary.byte_texts@);
}

/// Whether an operand is read by the codes of a CMap: they are longer than a byte, and it is not
/// read by bytes for its odd length.
pub open spec fn is_read_by_codes(entry: EntryReading<'_>, bytes: Seq<u8>) -> bool {
    &&& entry.primary.cmap.code_byte_length != 1
    &&& bytes.len() % 2 == 0 || shown(
        entry.primary.byte_texts@.map_values(|t: Option<String>| opt_text(t)),
    ).len() == 0
}

/// An operand that is read by the codes of a CMap, without a remapped form and a CMap of the
/// embedded font, is the text of its codes; without text it is left undecoded.
pub proof fn law_operands_are_read_by_codes(
    entry: EntryReading<'_>,
    bytes: Seq<u8>,
    encoding: Option<Map<u8, char>>,
    cp1252: bool,
    widths: Seq<RawGlyphWidth>,
    choices: Map<u32, DecisionView>,
    obj_num: u32,
)
    requires
        is_read_by_codes(entry, bytes),
        entry.remapped is None,
        entry.fallback is None,
    ensures
        entry_decode(entry, bytes, encoding, cp1252, widths, decision_of(choices, obj_num)) == taken(
            entry.primary,
            widths,
        ),
        choices_after(entry, bytes, choices, obj_num) == choices,
{
    lemma_joined(entry.primary.byte_texts@);
    lemma_read_text(entry.primary);
}

/// Whether the CMap of the embedded font is to be preferred: it has a text, where the other has
/// none, or has fewer characters than half of the pairs of bytes; or its text scores more than
/// three above the other's.
pub open spec fn is_better_read(
    other: CMapReading<'_>,
    reading: CMapReading<'_>,
    bytes: Seq<u8>,
) -> bool {
    ||| read_text(other).len() > 0 && read_text(reading).len() == 0
    ||| read_text(other).len() > 0 && 2 * read_text(reading).len() < bytes.len() / 2
    ||| text_score(read_text(other)) - text_score(read_text(reading)) > 3
}

/// A CMap without a remapped form that has a text gives way to the CMap of the embedded font
/// exactly where that is to be preferred; without a text the operand is left undecoded.
pub proof fn law_embedded_cmaps_step_in(
    entry: EntryReading<'_>,
    other: CMapReading<'_>,
    bytes: Seq<u8>,
    encoding: Option<Map<u8, char>>,
    cp1252: bool,
    widths: Seq<RawGlyphWidth>,
    seen: DecisionView,
)
    requires
        is_read_by_codes(entry, bytes),
        entry.remapped is None,
        entry.fallback == Some(other),
    ensures
        entry_decode(entry, bytes, encoding, cp1252, widths, seen) == if read_text(
            entry.primary,
        ).len() == 0 {
            None
        } else if is_better_read(other, entry.primary, bytes) {
            taken(other, widths)
        } else {
            taken(entry.primary, widths)
        },
{
    lemma_joined(entry.primary.byte_texts@);
    lemma_read_text(entry.primary);
    lemma_read_text(other);
}

/// Once a font's choice is made, an operand for which the chosen form has a text is that text, and
/// the record stays.
pub proof fn law_made_choices_decide(
    entry: EntryReading<'_>,
    remapped: CMapReading<'_>,
    bytes: Seq<u8>,
    encoding: Option<Map<u8, char>>,
    cp1252: bool,
    widths: Seq<RawGlyphWidth>,
    choices: Map<u32, DecisionView>,
    obj_num: u32,
)
    requires
        is_read_by_codes(entry, bytes),
        entry.remapped == Some(remapped),
        choices.contains_key(obj_num),
    ensures
        choices[obj_num].choice == Some(CMapChoice::Remapped) && read_text(remapped).len() > 0
            ==> entry_decode(
            entry,
            bytes,
            encoding,
            cp1252,
            widths,
            decision_of(choices, obj_num),
        ) == taken(remapped, widths) && choices_after(entry, bytes, choices, obj_num) == choices,
        choices[obj_num].choice == Some(CMapChoice::Primary) && read_text(entry.primary).len() > 0
            ==> entry_decode(
            entry,
            bytes,
            encoding,
            cp1252,
            widths,
            decision_of(choices, obj_num),
        ) == taken(entry.primary, widths) && choices_after(entry, bytes, choices, obj_num)
            == choices,
{
    lemma_joined(entry.primary.byte_texts@);
    lemma_read_text(entry.primary);
    lemma_read_text(remapped);
}

/// While a font's choice is not made, and where the chosen form has no text for an operand, the
/// operand adds both of its texts and its length to the font's record. It is read by the choice,
/// where that is made by then; else by the better of the two forms. The CMap of the embedded font steps in where it is to be preferred.
pub proof fn law_operands_are_sampled_until_the_choice(
    entry: EntryReading<'_>,
    remapped: CMapReading<'_>,
    bytes: Seq<u8>,
    encoding: Option<Map<u8, char>>,
    cp1252: bool,
    widths: Seq<RawGlyphWidth>,
    choices: Map<u32, DecisionView>,
    obj_num: u32,
)
    requires
        is_read_by_codes(entry, bytes),
        entry.remapped == Some(remapped),
        !(decision_of(choices, obj_num).choice == Some(CMapChoice::Primary) && read_text(
            entry.primary,
        ).len() > 0),
        !(decision_of(choices, obj_num).choice == Some(CMapChoice::Remapped) && read_text(
            remapped,
        ).len() > 0),
    ensures
        ({
            let seen = decision_of(choices, obj_num);
            let record = next_decision(
                seen,
                read_text(entry.primary),
                read_text(remapped),
                bytes.len() as usize,
            );
            let choice = match record.choice {
                Some(choice) => choice,
                None => better_decode(read_text(entry.primary), read_text(remapped)),
            };
            let reading = if choice == CMapChoice::Remapped {
                remapped
            } else {
                entry.primary
            };
            &&& choices_after(entry, bytes, choices, obj_num) == choices.insert(obj_num, record)
            &&& entry_decode(entry, bytes, encoding, cp1252, widths, seen) == if (
            entry.fallback matches Some(other) && is_better_read(other, reading, bytes)) {
                taken(entry.fallback->0, widths)
            } else {
                taken(reading, widths)
            }
        }),
{
    lemma_joined(entry.primary.byte_texts@);
    lemma_read_text(entry.primary);
    lemma_read_text(remapped);
    match entry.fallback {
        Some(other) => {
            lemma_read_text(other);
        },
        None => {},
    }
}

/// The CMaps of single bytes leave the choices alone.
pub proof fn law_single_bytes_make_no_choice(
    entry: EntryReading<'_>,
    bytes: Seq<u8>,
    choices: Map<u32, DecisionView>,
    obj_num: u32,
)
    requires
        entry.primary.cmap.code_byte_length == 1,
    ensures
        choices_after(entry, bytes, choices, obj_num) == choices,
{
}

/// The decode of an operand by an entry that a font may have.
pub open spec fn decode_of<'a, 'b>(
    entry: Option<&EntryReading<'a>>,
    bytes: Seq<u8>,
    font: FontView<'b>,
    choices: Map<u32, DecisionView>,
) -> Option<DecodedView> {
    match entry {
        Some(entry) => entry_decode(
            *entry,
            bytes,
            font.differences,
            font.cp1252(),
            operand_widths(font.info, bytes),
            decision_of(choices, choice_key(font.obj_num)),
        ),
        None => None,
    }
}

/// The choices after an operand has been decoded by an entry that a font may have.
pub open spec fn choices_of<'a, 'b>(
    entry: Option<&EntryReading<'a>>,
    bytes: Seq<u8>,
    font: FontView<'b>,
    choices: Map<u32, DecisionView>,
) -> Map<u32, DecisionView> {
    match entry {
        Some(entry) => choices_after(*entry, bytes, choices, choice_key(font.obj_num)),
        None => choices,
    }
}

/// An operand is decoded by the font's own CMaps; where they leave it undecoded, by those that its
/// ToUnicode entry refers to; then by what its bytes say, and last by the font's encoding. A font
/// without a reference has no CMaps that it refers to.
pub proof fn law_operands_are_decoded_in_turn<'a, 'b>(
    bytes: Seq<u8>,
    font: FontView<'b>,
    inline: Option<&EntryReading<'a>>,
    referenced: Option<&EntryReading<'a>>,
    choices: Map<u32, DecisionView>,
)
    ensures
        ({
            let second = if font.obj_num is Some {
                referenced
            } else {
                None
            };
            let after = choices_of(inline, bytes, font, choices);
            let widths = operand_widths(font.info, bytes);
            let early = early_decode(bytes, font.is_cid(), font.differences, font.cp1252(), widths);
            let decoded = bytes_decode(bytes, font, inline, referenced, choices);
            &&& decode_of(inline, bytes, font, choices) is Some ==> decoded == decode_of(
                inline,
                bytes,
                font,
                choices,
            ) && choices_after_decode(bytes, font, inline, referenced, choices) == after
            &&& decode_of(inline, bytes, font, choices) is None ==> choices_after_decode(
                bytes,
                font,
                inline,
                referenced,
                choices,
            ) == choices_of(second, bytes, font, after)
            &&& decode_of(inline, bytes, font, choices) is None && decode_of(
                second,
                bytes,
                font,
                after,
            ) is Some ==> decoded == decode_of(second, bytes, font, after)
            &&& decode_of(inline, bytes, font, choices) is None && decode_of(
                second,
                bytes,
                font,
                after,
            ) is None && early is Some ==> decoded == early
            &&& decode_of(inline, bytes, font, choices) is None && decode_of(
                second,
                bytes,
                font,
                after,
            ) is None && early is None ==> decoded == late_decode(
                bytes,
                font.base_font,
                font.cp1252(),
                widths,
                inline is Some || font.obj_num is Some,
                encoded_text(font.encoding, bytes),
            )
        }),
{
}

/// An operand all of whose bytes the font's own CMap of single bytes maps cleanly to plain
/// characters comes out as the texts of the CMap.
pub proof fn law_cmap_texts_come_out<'a, 'b>(
    bytes: Seq<u8>,
    font: FontView<'b>,
    entry: &EntryReading<'a>,
    referenced: Option<&EntryReading<'a>>,
    choices: Map<u32, DecisionView>,
    texts: Seq<Seq<char>>,
    i: int,
)
    requires
        entry.primary.cmap.code_byte_length == 1,
        texts.len() == bytes.len(),
        forall|i: int|
            0 <= i < bytes.len() ==> maps_cleanly(entry.primary, #[trigger] bytes[i])
                && entry.primary.cmap.texts@[bytes[i] as u16]@ == texts[i],
        0 <= i < texts.flatten().len(),
    ensures
        ({
            let out = operand_result(
                bytes_decode(bytes, font, Some(entry), referenced, choices),
                font,
            ).0;
            let c = texts.flatten()[i];
            &&& out is Some && out->0.len() == texts.flatten().len()
            &&& c < '\u{80}' || '\u{FF}' < c < '\u{F000}' || c > '\u{FFFF}' ==> out->0[i] == c
        }),
        choices_after_decode(bytes, font, Some(entry), referenced, choices) == choices,
{
    let widths = operand_widths(font.info, bytes);
    let seen = decision_of(choices, choice_key(font.obj_num));
    law_mapped_operands_are_the_texts_of_the_cmap(
        *entry,
        bytes,
        texts,
        font.differences,
        font.cp1252(),
        widths,
        seen,
    );
    law_operands_are_decoded_in_turn(bytes, font, Some(entry), referenced, choices);
    law_single_bytes_make_no_choice(*entry, bytes, choices, choice_key(font.obj_num));
    law_repairs(texts.flatten(), font.base_font, font.cp1252(), i);
}

/// The text that comes out is the decoded one, repaired character by character: most characters
/// stay, private symbols become what they show, and C1 controls are read by Windows-1252 in the
/// fonts that are read so. The glyphs are those that were decoded. An operand that is left
/// undecoded has neither.
pub proof fn law_results(decoded: Option<DecodedView>, font: FontView<'_>, i: int)
    ensures
        decoded is None ==> operand_result(decoded, font).0 is None && operand_result(
            decoded,
            font,
        ).1.len() == 0,
        decoded matches Some(d) ==> operand_result(decoded, font).1 == d.glyphs && (operand_result(
            decoded,
            font,
        ).0 matches Some(text) && text.len() == d.text.len() && (0 <= i < text.len() ==> {
            let c = d.text[i];
            &&& c < '\u{80}' || '\u{FF}' < c < '\u{F000}' || c > '\u{FFFF}' ==> text[i] == c
            &&& c == '\u{F0A1}' || c == '\u{F0A7}' || c == '\u{F0B7}' ==> text[i] == '\u{2022}'
            &&& c == '\u{F0FC}' ==> text[i] == '\u{2713}'
            &&& '\u{F020}' <= c <= '\u{F07F}' ==> text[i] as u32 == c as u32 - 0xF000
            &&& '\u{80}' <= c <= '\u{9F}' && font.cp1252() ==> text[i] as u32
                == windows_1252()[c as u32 - 0x80]
            &&& '\u{80}' <= c <= '\u{9F}' && !font.cp1252() ==> text[i] == c
            &&& '\u{80}' <= c <= '\u{FF}' && !font.cp1252() && !is_texcm(font.base_font)
                ==> text[i] == c
            &&& c == '\u{BC}' && is_texcm(font.base_font) ==> text[i] == '='
            &&& c == '\u{BD}' && is_texcm(font.base_font) ==> text[i] == '-'
            &&& c == '\u{FE}' && is_texcm(font.base_font) ==> text[i] == '+'
            &&& c == '\u{F0}' && is_texcm(font.base_font) ==> text[i] == '('
            &&& c == '\u{DE}' && is_texcm(font.base_font) ==> text[i] == ')'
        })),
{
    match decoded {
        Some(d) => {
            if 0 <= i < d.text.len() {
                law_repairs(d.text, font.base_font, font.cp1252(), i);
            }
        },
        None => {},
    }
}

/// What a page knows of a font is what it holds under the font's name.
pub proof fn law_fonts_are_known_by_name(
    fonts: PageFonts<'_>,
    name: Seq<char>,
    base: Option<Seq<char>>,
)
    ensures
        ({
            let font = font_view(fonts, name, base);
            &&& font.base_font == base
            &&& fonts.widths@.contains_key(name) ==> font.info == Some(fonts.widths@[name])
                && font.is_cid() == fonts.widths@[name].is_cid
            &&& !fonts.widths@.contains_key(name) ==> font.info is None && !font.is_cid()
            &&& fonts.tounicode_refs@.contains_key(name) ==> font.obj_num == Some(
                fonts.tounicode_refs@[name],
            ) && choice_key(font.obj_num) == fonts.tounicode_refs@[name]
            &&& !fonts.tounicode_refs@.contains_key(name) ==> font.obj_num is None && choice_key(
                font.obj_num,
            ) == 0
            &&& fonts.encodings@.contains_key(name) ==> font.differences == Some(
                fonts.encodings@[name]@,
            )
            &&& !fonts.encodings@.contains_key(name) ==> font.differences is None
            &&& fonts.text_encodings@.contains_key(name) ==> font.encoding == Some(
                fonts.text_encodings@[name],
            )
            &&& !fonts.text_encodings@.contains_key(name) ==> font.encoding is None
            &&& font.cp1252() == uses_cp1252(base, font.is_cid())
        }),
{
}

/// The entry that a font refers to is the one under the number of its reference.
pub proof fn law_referenced_entries<E>(by_object: Map<u32, E>, obj_num: u32)
    ensures
        at_number(by_object, None) is None,
        by_object.contains_key(obj_num) ==> at_number(by_object, Some(obj_num)) == Some(
            by_object[obj_num],
        ),
        !by_object.contains_key(obj_num) ==> at_number(by_object, Some(obj_num)) is None,
{
}

/// The widths of an operand are those of its codes in the font, none where the font has none.
pub proof fn law_operand_widths(font: FontView<'_>, bytes: Seq<u8>)
    ensures
        font.info matches Some(info) ==> operand_widths(font.info, bytes) == raw_widths(
            bytes,
            info@,
        ),
        font.info is None ==> operand_widths(font.info, bytes).len() == 0,
{
}

/// Whether one of some bytes is no ASCII.
pub open spec fn is_beyond_ascii(bytes: Seq<u8>) -> bool {
    exists|i: int| 0 <= i < bytes.len() && 0x80 <= #[trigger] bytes[i]
}

/// Whether an encoding maps one of some bytes.
pub open spec fn touches(encoding: Option<Map<u8, char>>, bytes: Seq<u8>) -> bool {
    encoding matches Some(map) && exists|i: int|
        0 <= i < bytes.len() && map.contains_key(#[trigger] bytes[i])
}

/// A composite font never reads bytes beyond ASCII as characters: it shows U+FFFD for each pair of
/// them, and once for a single byte.
pub proof fn law_composite_fonts_mark_what_they_cannot_read(
    bytes: Seq<u8>,
    encoding: Option<Map<u8, char>>,
    cp1252: bool,
    widths: Seq<RawGlyphWidth>,
)
    requires
        is_beyond_ascii(bytes),
    ensures
        early_decode(bytes, true, encoding, cp1252, widths) matches Some(decoded)
            && decoded.text.len() == if bytes.len() < 2 {
            1
        } else {
            bytes.len() / 2
        } && (forall|i: int|
            0 <= i < decoded.text.len() ==> #[trigger] decoded.text[i] == '\u{FFFD}') && (
        decoded.text.len() == widths.len() ==> decoded.glyphs == glyphs_of(
            Seq::new(widths.len(), |i: int| (widths[i].code, Some(seq!['\u{FFFD}']))),
            widths,
        )) && (decoded.text.len() != widths.len() ==> decoded.glyphs == seq![
            whole_glyph(decoded.text, widths),
        ]),
{
    let i = choose|i: int| 0 <= i < bytes.len() && 0x80 <= #[trigger] bytes[i];
    assert(bytes[i] > 0x7F);
    assert(marker_units(widths) =~= Seq::new(
        widths.len(),
        |i: int| (widths[i].code, Some(seq!['\u{FFFD}'])),
    ));
}

/// Where `/Differences` map one of the bytes, every byte is read by them, and from 0x20 on by its
/// number where they do not map it.
pub proof fn law_differences_decide(
    bytes: Seq<u8>,
    is_cid: bool,
    map: Map<u8, char>,
    cp1252: bool,
    widths: Seq<RawGlyphWidth>,
) -> (texts: Seq<Option<Seq<char>>>)
    requires
        !is_cid || !is_beyond_ascii(bytes),
        touches(Some(map), bytes),
    ensures
        texts.len() == bytes.len(),
        forall|i: int|
            0 <= i < bytes.len() && map.contains_key(#[trigger] bytes[i]) ==> texts[i] == Some(
                seq![map[bytes[i]]],
            ),
        forall|i: int|
            0 <= i < bytes.len() && !map.contains_key(#[trigger] bytes[i]) ==> texts[i]
                == if bytes[i] >= 0x20 {
                Some(seq![byte_char(bytes[i], cp1252)])
            } else {
                None
            },
        early_decode(bytes, is_cid, Some(map), cp1252, widths) == Some(
            DecodedView {
                text: shown(texts),
                glyphs: glyphs_of(
                    Seq::new(bytes.len(), |i: int| (bytes[i] as u16, texts[i])),
                    widths,
                ),
            },
        ),
{
    let units = crate::byte_decode::encoded_units(map, bytes, cp1252);
    let texts = texts_of(units);
    law_text_of_codes(units);
    assert(units =~= Seq::new(bytes.len(), |i: int| (bytes[i] as u16, texts[i])));
    let k = choose|i: int| 0 <= i < bytes.len() && map.contains_key(#[trigger] bytes[i]);
    lemma_shown_holds(texts, k);
    texts
}

/// What one of some texts holds is shown.
proof fn lemma_shown_holds(texts: Seq<Option<Seq<char>>>, k: int)
    requires
        0 <= k < texts.len(),
        texts[k] matches Some(text) && text.len() > 0,
    ensures
        shown(texts).len() > 0,
    decreases texts.len(),
{
    lemma_shown_push(texts);
    if k < texts.len() - 1 {
        lemma_shown_holds(texts.drop_last(), k);
    }
}

/// Whether an operand starts with the byte order mark of UTF-16.
pub open spec fn is_marked(bytes: Seq<u8>) -> bool {
    bytes.len() >= 2 && bytes[0] == 0xFE && bytes[1] == 0xFF
}

/// Whether an operand looks like UTF-16 without a mark: of an even length of four or more, with
/// more than a quarter of its bytes 0, and with a text that scores above 0.
pub open spec fn looks_like_utf16(bytes: Seq<u8>) -> bool {
    &&& bytes.len() >= 4
    &&& bytes.len() % 2 == 0
    &&& 4 * bytes.filter(|b: u8| b == 0).len() > bytes.len()
    &&& text_score(utf16_text(be_pairs(bytes))) > 0
}

proof fn lemma_zeros(bytes: Seq<u8>)
    ensures
        count_zeros(bytes) == bytes.filter(|b: u8| b == 0).len(),
    decreases bytes.len(),
{
    reveal(Seq::filter);
    if bytes.len() > 0 {
        lemma_zeros(bytes.drop_last());
    }
}

/// An operand that `/Differences` do not touch is read as Unicode where it is Unicode in disguise:
/// UTF-16 behind a mark, what looks like UTF-16, and UTF-8 beyond ASCII, in this order. Any other
/// is left to the font's encoding.
pub proof fn law_unicode_in_disguise(
    bytes: Seq<u8>,
    is_cid: bool,
    encoding: Option<Map<u8, char>>,
    cp1252: bool,
    widths: Seq<RawGlyphWidth>,
)
    requires
        !is_cid || !is_beyond_ascii(bytes),
        !touches(encoding, bytes),
    ensures
        ({
            let decoded = early_decode(bytes, is_cid, encoding, cp1252, widths);
            let as_one = |text: Seq<char>|
                Some(DecodedView { text, glyphs: seq![whole_glyph(text, widths)] });
            &&& is_marked(bytes) ==> decoded == as_one(utf16_text(be_pairs(bytes.skip(2))))
            &&& !is_marked(bytes) && looks_like_utf16(bytes) ==> decoded == as_one(
                utf16_text(be_pairs(bytes)),
            )
            &&& !is_marked(bytes) && !looks_like_utf16(bytes) && is_beyond_ascii(bytes)
                && valid_utf8(bytes) ==> decoded == as_one(decode_utf8(bytes))
            &&& !is_marked(bytes) && !looks_like_utf16(bytes) && !(is_beyond_ascii(bytes)
                && valid_utf8(bytes)) ==> decoded is None
        }),
{
    lemma_zeros(bytes);
    if is_beyond_ascii(bytes) {
        let i = choose|i: int| 0 <= i < bytes.len() && 0x80 <= #[trigger] bytes[i];
        assert(bytes[i] > 0x7F);
    }
    if crate::byte_decode::has_high_byte(bytes) {
        let i = choose|i: int| 0 <= i < bytes.len() && #[trigger] bytes[i] > 0x7F;
        assert(0x80 <= bytes[i]);
    }
    match encoding {
        Some(map) => {
            if crate::byte_decode::maps_any(map, bytes) {
                let i = choose|i: int| 0 <= i < bytes.len() && map.contains_key(#[trigger] bytes[i]);
                assert(map.contains_key(bytes[i]));
            }
        },
        None => {},
    }
}

/// What a font's encoding makes of some bytes is the text that it has for them.
pub proof fn law_encodings(encoding: Encoding<'_>, bytes: Seq<u8>)
    ensures
        encoded_text(None, bytes) is None,
        encoding_texts(encoding).contains_key(bytes) ==> encoded_text(Some(encoding), bytes) == Some(
            encoding_texts(encoding)[bytes],
        ),
        !encoding_texts(encoding).contains_key(bytes) ==> encoded_text(Some(encoding), bytes)
            is None,
{
}

/// Whether an operand is printable ASCII.
pub open spec fn is_plain_ascii(bytes: Seq<u8>) -> bool {
    forall|i: int| 0 <= i < bytes.len() ==> 0x20 <= #[trigger] bytes[i] < 0x7F
}

/// A text of the font's encoding is taken as it is, its controls read by Windows-1252 where the
/// font is read so, unless it holds U+FFFD. Then printable ASCII is taken by its bytes, symbols in
/// a symbol font; and what is left is left undecoded by a font that has a CMap, and read byte by
/// byte by any other. Without a text of the encoding it is symbols or bytes.
pub proof fn law_encodings_decide(
    bytes: Seq<u8>,
    base: Option<Seq<char>>,
    cp1252: bool,
    widths: Seq<RawGlyphWidth>,
    has_cmap: bool,
    encoded: Option<Seq<char>>,
)
    ensures
        ({
            let decoded = late_decode(bytes, base, cp1252, widths, has_cmap, encoded);
            let as_one = |text: Seq<char>|
                Some(DecodedView { text, glyphs: seq![whole_glyph(text, widths)] });
            let clean = encoded matches Some(text) && !normalized(text, cp1252).contains(
                '\u{FFFD}',
            );
            let chars = bytes.map_values(|b: u8| byte_char(b, cp1252));
            let by_bytes = Some(
                DecodedView {
                    text: chars,
                    glyphs: glyphs_of(
                        Seq::new(bytes.len(), |i: int| (bytes[i] as u16, Some(seq![chars[i]]))),
                        widths,
                    ),
                },
            );
            &&& clean ==> decoded == as_one(normalized(encoded->0, cp1252))
            &&& encoded is Some && !clean && is_plain_ascii(bytes) ==> decoded == as_one(
                bytes.map_values(|b: u8| b as char),
            )
            &&& !clean && !(encoded is Some && is_plain_ascii(bytes)) && symbol_text(bytes, base)
                is Some ==> decoded == as_one(symbol_text(bytes, base)->0)
            &&& encoded is Some && !clean && !is_plain_ascii(bytes) && symbol_text(bytes, base)
                is None && has_cmap ==> decoded is None
            &&& encoded is Some && !clean && !is_plain_ascii(bytes) && symbol_text(bytes, base)
                is None && !has_cmap ==> decoded == by_bytes
            &&& encoded is None && symbol_text(bytes, base) is None ==> decoded == by_bytes
        }),
{
    let chars = bytes.map_values(|b: u8| byte_char(b, cp1252));
    let units = plain_units(bytes, cp1252);
    law_text_of_codes(units);
    assert(units =~= Seq::new(bytes.len(), |i: int| (bytes[i] as u16, Some(seq![chars[i]]))));
    let each = chars.map_values(|c: char| seq![c]);
    assert(texts_of(units) =~= each.map_values(|t: Seq<char>| Some(t)));
    lemma_shown_all(each);
    lemma_flat_chars(chars);
    if is_plain_ascii(bytes) {
        assert forall|i: int| 0 <= i < bytes.len() implies 0x20 <= #[trigger] bytes[i] <= 0x7E by {
        }
        assert(crate::byte_decode::is_printable(bytes));
    }
    if crate::byte_decode::is_printable(bytes) {
        assert forall|i: int| 0 <= i < bytes.len() implies 0x20 <= #[trigger] bytes[i] < 0x7F by {
        }
        assert(is_plain_ascii(bytes));
    }
}

proof fn lemma_flat_chars(chars: Seq<char>)
    ensures
        chars.map_values(|c: char| seq![c]).flatten() == chars,
    decreases chars.len(),
{
    let each = chars.map_values(|c: char| seq![c]);
    if chars.len() > 0 {
        let front = chars.drop_last();
        lemma_flat_chars(front);
        assert(each =~= front.map_values(|c: char| seq![c]).push(seq![chars.last()]));
        front.map_values(|c: char| seq![c]).lemma_flatten_push(seq![chars.last()]);
        assert(front + seq![chars.last()] =~= chars);
    } else {
        assert(each =~= Seq::<Seq<char>>::empty());
        assert(chars =~= Seq::<char>::empty());
    }
}

/// Whether some glyphs are those of one code: the first carries the code, its width, and the first
/// character of its text; a filler follows for each further character.
pub open spec fn are_glyphs_of(
    glyphs: Seq<GlyphView>,
    code: u16,
    text: Option<Seq<char>>,
    width: RawGlyphWidth,
) -> bool {
    let chars = match text {
        Some(text) => text,
        None => Seq::empty(),
    };
    &&& glyphs.len() == if chars.len() == 0 {
        1
    } else {
        chars.len()
    }
    &&& glyphs[0].cid == Some(code)
    &&& glyphs[0].raw_widths == seq![width.raw_width]
    &&& glyphs[0].code_count == 1
    &&& glyphs[0].space_count == if width.is_space {
        1u16
    } else {
        0u16
    }
    &&& chars.len() == 0 ==> glyphs[0].text.len() == 0
    &&& forall|i: int| 0 <= i < chars.len() ==> (#[trigger] glyphs[i]).text == seq![chars[i]]
    &&& forall|i: int|
        0 < i < glyphs.len() ==> (#[trigger] glyphs[i]).cid is None && glyphs[i].raw_widths.len()
            == 0 && glyphs[i].code_count == 0 && glyphs[i].space_count == 0
    &&& forall|i: int|
        0 <= i < glyphs.len() ==> (#[trigger] glyphs[i]).pen is None && glyphs[i].full_advance_ts
            == 0
}

/// The glyphs of codes that pair up with their widths are those of each code, in their order.
pub proof fn law_glyphs_follow_the_codes(
    units: Seq<(u16, Option<Seq<char>>)>,
    widths: Seq<RawGlyphWidth>,
) -> (pieces: Seq<Seq<GlyphView>>)
    requires
        units.len() == widths.len(),
    ensures
        pieces.len() == units.len(),
        glyphs_of(units, widths) == pieces.flatten(),
        forall|k: int|
            0 <= k < pieces.len() ==> are_glyphs_of(
                #[trigger] pieces[k],
                units[k].0,
                units[k].1,
                widths[k],
            ),
{
    lemma_aligned(units, widths)
}

proof fn lemma_aligned(
    units: Seq<(u16, Option<Seq<char>>)>,
    widths: Seq<RawGlyphWidth>,
) -> (pieces: Seq<Seq<GlyphView>>)
    requires
        units.len() == widths.len(),
    ensures
        pieces.len() == units.len(),
        aligned_glyphs(units, widths) == pieces.flatten(),
        forall|k: int|
            0 <= k < pieces.len() ==> are_glyphs_of(
                #[trigger] pieces[k],
                units[k].0,
                units[k].1,
                widths[k],
            ),
    decreases units.len(),
{
    if units.len() == 0 {
        Seq::empty()
    } else {
        let front = lemma_aligned(units.drop_last(), widths.drop_last());
        let last = crate::glyphs::unit_glyphs(units.last(), widths.last());
        front.lemma_flatten_push(last);
        match units.last().1 {
            Some(text) => {
                if text.len() > 0 {
                    assert(text.take(1) =~= seq![text[0]]);
                    assert forall|i: int| 0 <= i < text.len() implies (#[trigger] last[i]).text
                        == seq![text[i]] by {
                        if i > 0 {
                            assert(last[i] == crate::glyphs::filler_glyph(text.skip(1)[i - 1]));
                        }
                    }
                }
            },
            None => {},
        }
        assert(are_glyphs_of(last, units.last().0, units.last().1, widths.last()));
        front.push(last)
    }
}

/// A text that does not pair up with its codes is one glyph, which carries the text, the widths
/// and the counts of the whole operand.
pub proof fn law_one_glyph_for_all(
    units: Seq<(u16, Option<Seq<char>>)>,
    text: Seq<char>,
    widths: Seq<RawGlyphWidth>,
)
    ensures
        units.len() != widths.len() ==> glyphs_of(units, widths) == seq![
            whole_glyph(shown(texts_of(units)), widths),
        ],
        ({
            let glyph = whole_glyph(text, widths);
            &&& glyph.text == text
            &&& glyph.cid is None
            &&& glyph.pen is None
            &&& glyph.full_advance_ts == 0
            &&& glyph.raw_widths.len() == widths.len()
            &&& forall|i: int|
                0 <= i < widths.len() ==> #[trigger] glyph.raw_widths[i] == widths[i].raw_width
            &&& widths.len() < 0x1_0000 ==> glyph.code_count == widths.len() && glyph.space_count
                == widths.filter(|w: RawGlyphWidth| w.is_space).len()
        }),
{
    law_text_of_codes(units);
    lemma_spaces(widths);
}

proof fn lemma_spaces(widths: Seq<RawGlyphWidth>)
    ensures
        count_spaces(widths) == widths.filter(|w: RawGlyphWidth| w.is_space).len(),
        count_spaces(widths) <= widths.len(),
    decreases widths.len(),
{
    reveal(Seq::filter);
    if widths.len() > 0 {
        lemma_spaces(widths.drop_last());
    }
}

}
