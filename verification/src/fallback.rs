//! Single-byte decoding for fonts without a usable CMap, and the repairs that decoded text gets.

use crate::text::{
    after_last, has_part, has_prefix, lower, lower_chars, occurs_in, opt_name, opt_text, same_chars,
    strip_to_last,
};
use vstd::prelude::*;
use vstd::string::*;

verus! {

/// Windows-1252: what it puts at 0x80..=0x9F, and Latin-1 elsewhere.
pub open spec fn cp1252_char(byte: u8) -> char {
    match byte {
        0x80 => '\u{20AC}',
        0x82 => '\u{201A}',
        0x83 => '\u{0192}',
        0x84 => '\u{201E}',
        0x85 => '\u{2026}',
        0x86 => '\u{2020}',
        0x87 => '\u{2021}',
        0x88 => '\u{02C6}',
        0x89 => '\u{2030}',
        0x8A => '\u{0160}',
        0x8B => '\u{2039}',
        0x8C => '\u{0152}',
        0x8E => '\u{017D}',
        0x91 => '\u{2018}',
        0x92 => '\u{2019}',
        0x93 => '\u{201C}',
        0x94 => '\u{201D}',
        0x95 => '\u{2022}',
        0x96 => '\u{2013}',
        0x97 => '\u{2014}',
        0x98 => '\u{02DC}',
        0x99 => '\u{2122}',
        0x9A => '\u{0161}',
        0x9B => '\u{203A}',
        0x9C => '\u{0153}',
        0x9E => '\u{017E}',
        0x9F => '\u{0178}',
        _ => byte as char,
    }
}

/// A byte read as a character: by Windows-1252 or by Latin-1.
pub open spec fn byte_char(byte: u8, cp1252: bool) -> char {
    if cp1252 {
        cp1252_char(byte)
    } else {
        byte as char
    }
}

/// The C1 controls.
pub open spec fn is_c1(c: char) -> bool {
    '\u{80}' <= c <= '\u{9F}'
}

/// C1 controls read as the Windows-1252 characters of the same number.
pub open spec fn without_c1(text: Seq<char>) -> Seq<char> {
    text.map_values(
        |c: char|
            if is_c1(c) {
                cp1252_char(c as u8)
            } else {
                c
            },
    )
}

/// Text with its C1 controls read by Windows-1252, where the font is read so.
pub open spec fn normalized(text: Seq<char>, cp1252: bool) -> Seq<char> {
    if cp1252 {
        without_c1(text)
    } else {
        text
    }
}

/// The fonts whose bytes 0x80..=0x9F hold ligatures or symbols: TeX text and mathematics fonts
/// by their name's start, symbol fonts by a part of it.
pub open spec fn has_symbols_in_c1(name: Seq<char>) -> bool {
    ||| "cmr"@.is_prefix_of(name)
    ||| "cmb"@.is_prefix_of(name)
    ||| "cmmi"@.is_prefix_of(name)
    ||| "cmsy"@.is_prefix_of(name)
    ||| "cmex"@.is_prefix_of(name)
    ||| "cmtt"@.is_prefix_of(name)
    ||| "cmss"@.is_prefix_of(name)
    ||| "cmti"@.is_prefix_of(name)
    ||| "ecrm"@.is_prefix_of(name)
    ||| "ecbx"@.is_prefix_of(name)
    ||| "ecti"@.is_prefix_of(name)
    ||| "tcrm"@.is_prefix_of(name)
    ||| "tctt"@.is_prefix_of(name)
    ||| "msam"@.is_prefix_of(name)
    ||| "msbm"@.is_prefix_of(name)
    ||| "ttdc"@.is_prefix_of(name)
    ||| occurs_in("math"@, name)
    ||| occurs_in("symbol"@, name)
    ||| occurs_in("dingbat"@, name)
    ||| occurs_in("emoji"@, name)
}

/// Whether a font's single bytes are read by Windows-1252: never for a composite font, always
/// for a font without a name.
pub open spec fn uses_cp1252(base_font: Option<Seq<char>>, is_cid: bool) -> bool {
    !is_cid && match base_font {
        Some(name) => !has_symbols_in_c1(lower(after_last(name, '+'))),
        None => true,
    }
}

/// The fonts of the family TeXCMMathsSymbols.
pub open spec fn is_texcm(base_font: Option<Seq<char>>) -> bool {
    match base_font {
        Some(name) => lower(after_last(name, '+')) == lower("TeXCMMathsSymbols"@),
        None => false,
    }
}

/// What a glyph of the TeXCMMathsSymbols fonts shows, by the Latin letter it is misnamed after.
pub open spec fn texcm_char(c: char) -> char {
    match c {
        '¼' => '=',
        '½' => '-',
        'þ' => '+',
        'ð' => '(',
        'Þ' => ')',
        _ => c,
    }
}

/// Text of a TeXCMMathsSymbols font with its misnamed glyphs put right.
pub open spec fn texcm_remapped(text: Seq<char>, base_font: Option<Seq<char>>) -> Seq<char> {
    if is_texcm(base_font) {
        text.map_values(|c: char| texcm_char(c))
    } else {
        text
    }
}

/// A character of the private range U+F000..=U+F0FF read as what Symbol and Wingdings show
/// there: bullets, a check mark, else Latin-1. The controls of the range stay.
pub open spec fn pua_char(c: char) -> char {
    if c == '\u{F0A1}' || c == '\u{F0A7}' || c == '\u{F0B7}' {
        '\u{2022}'
    } else if c == '\u{F0FC}' {
        '\u{2713}'
    } else if '\u{F020}' <= c <= '\u{F0FF}' {
        (c as u32 - 0xF000) as char
    } else {
        c
    }
}

/// Text with its private symbol characters read as what they show.
pub open spec fn pua_cleaned(text: Seq<char>) -> Seq<char> {
    text.map_values(|c: char| pua_char(c))
}

/// The repairs that every decoded text gets, in their order.
pub open spec fn repaired(
    text: Seq<char>,
    base_font: Option<Seq<char>>,
    cp1252: bool,
) -> Seq<char> {
    normalized(texcm_remapped(pua_cleaned(text), base_font), cp1252)
}

/// The fonts whose bytes are symbols, by a part of their name.
pub open spec fn is_symbol_font(base_font: Option<Seq<char>>) -> bool {
    match base_font {
        Some(name) => {
            ||| occurs_in("symbol"@, lower(name))
            ||| occurs_in("wingdings"@, lower(name))
            ||| occurs_in("zapfdingbats"@, lower(name))
        },
        None => false,
    }
}

/// The bytes from 0x20 on, moved to U+F000.
pub open spec fn symbol_chars(bytes: Seq<u8>) -> Seq<char>
    decreases bytes.len(),
{
    if bytes.len() == 0 {
        Seq::empty()
    } else {
        let front = symbol_chars(bytes.drop_last());
        if bytes.last() < 0x20 {
            front
        } else {
            front.push((0xF000 + bytes.last()) as char)
        }
    }
}

/// A symbol font's bytes as private characters, where there are any.
pub open spec fn symbol_text(bytes: Seq<u8>, base_font: Option<Seq<char>>) -> Option<Seq<char>> {
    if is_symbol_font(base_font) && symbol_chars(bytes).len() > 0 {
        Some(symbol_chars(bytes))
    } else {
        None
    }
}

/// One byte of a simple font as a character.
pub fn decode_single_byte_fallback_char(byte: u8, use_cp1252_fallback: bool) -> (c: char)
    ensures
        c == byte_char(byte, use_cp1252_fallback),
{
    if !use_cp1252_fallback {
        return byte as char;
    }
    match byte {
        0x80 => '\u{20AC}',
        0x82 => '\u{201A}',
        0x83 => '\u{0192}',
        0x84 => '\u{201E}',
        0x85 => '\u{2026}',
        0x86 => '\u{2020}',
        0x87 => '\u{2021}',
        0x88 => '\u{02C6}',
        0x89 => '\u{2030}',
        0x8A => '\u{0160}',
        0x8B => '\u{2039}',
        0x8C => '\u{0152}',
        0x8E => '\u{017D}',
        0x91 => '\u{2018}',
        0x92 => '\u{2019}',
        0x93 => '\u{201C}',
        0x94 => '\u{201D}',
        0x95 => '\u{2022}',
        0x96 => '\u{2013}',
        0x97 => '\u{2014}',
        0x98 => '\u{02DC}',
        0x99 => '\u{2122}',
        0x9A => '\u{0161}',
        0x9B => '\u{203A}',
        0x9C => '\u{0153}',
        0x9E => '\u{017E}',
        0x9F => '\u{0178}',
        _ => byte as char,
    }
}

/// The bytes of a simple font as text.
pub fn decode_single_byte_fallback(bytes: &[u8], use_cp1252_fallback: bool) -> (text: String)
    ensures
        text@ == bytes@.map_values(|b: u8| byte_char(b, use_cp1252_fallback)),
{
    let mut text = String::new();
    for i in 0..bytes.len()
        invariant
            text@ == bytes@.map_values(|b: u8| byte_char(b, use_cp1252_fallback)).take(i as int),
    {
        text.push(decode_single_byte_fallback_char(bytes[i], use_cp1252_fallback));
    }
    text
}

/// Text with its C1 controls read by Windows-1252, where the font is read so.
pub fn normalize_cp1252_controls(text: String, use_cp1252_fallback: bool) -> (r: String)
    ensures
        r@ == normalized(text@, use_cp1252_fallback),
{
    if !use_cp1252_fallback {
        return text;
    }
    let mut r = String::new();
    for c in it: text.chars()
        invariant
            it.seq() == text@,
            r@ == without_c1(text@.take(it.index())),
    {
        assert(text@.take(it.index() + 1) == text@.take(it.index()).push(c));
        if '\u{80}' <= c && c <= '\u{9F}' {
            r.push(decode_single_byte_fallback_char(c as u8, true));
        } else {
            r.push(c);
        }
    }
    assert(text@.take(text@.len() as int) == text@);
    r
}

/// Whether a font's single bytes are read by Windows-1252.
pub fn should_use_cp1252_single_byte_fallback(
    base_font_name: Option<&str>,
    is_type0_cid_font: bool,
) -> (r: bool)
    ensures
        r == uses_cp1252(opt_name(base_font_name), is_type0_cid_font),
{
    if is_type0_cid_font {
        return false;
    }
    let base_font_name = match base_font_name {
        Some(name) => name,
        None => return true,
    };
    let name = lower_chars(strip_to_last(base_font_name, '+'));
    if has_prefix(&name, "cmr") || has_prefix(&name, "cmb") || has_prefix(&name, "cmmi")
        || has_prefix(&name, "cmsy") || has_prefix(&name, "cmex") || has_prefix(&name, "cmtt")
        || has_prefix(&name, "cmss") || has_prefix(&name, "cmti") || has_prefix(&name, "ecrm")
        || has_prefix(&name, "ecbx") || has_prefix(&name, "ecti") || has_prefix(&name, "tcrm")
        || has_prefix(&name, "tctt") || has_prefix(&name, "msam") || has_prefix(&name, "msbm")
        || has_prefix(&name, "ttdc") {
        return false;
    }
    !(has_part(&name, "math") || has_part(&name, "symbol") || has_part(&name, "dingbat")
        || has_part(&name, "emoji"))
}

fn texcm_font(base_font_name: Option<&str>) -> (r: bool)
    ensures
        r == is_texcm(opt_name(base_font_name)),
{
    match base_font_name {
        Some(name) => {
            let name = lower_chars(strip_to_last(name, '+'));
            let wanted = lower_chars("TeXCMMathsSymbols");
            same_chars(&name, &wanted)
        },
        None => false,
    }
}

/// Text of a TeXCMMathsSymbols font with its misnamed glyphs put right; other text as it is.
pub fn remap_texcm_math_symbols(text: String, base_font_name: Option<&str>) -> (r: String)
    ensures
        r@ == texcm_remapped(text@, opt_name(base_font_name)),
{
    if !texcm_font(base_font_name) {
        return text;
    }
    let mut r = String::new();
    for c in it: text.chars()
        invariant
            it.seq() == text@,
            r@ == text@.take(it.index()).map_values(|c: char| texcm_char(c)),
    {
        assert(text@.take(it.index() + 1) == text@.take(it.index()).push(c));
        r.push(
            match c {
                '¼' => '=',
                '½' => '-',
                'þ' => '+',
                'ð' => '(',
                'Þ' => ')',
                _ => c,
            },
        );
    }
    assert(text@.take(text@.len() as int) == text@);
    r
}

/// Text with its private symbol characters read as what they show.
pub fn clean_symbol_pua(text: String) -> (r: String)
    ensures
        r@ == pua_cleaned(text@),
{
    let mut r = String::new();
    for c in it: text.chars()
        invariant
            it.seq() == text@,
            r@ == pua_cleaned(text@.take(it.index())),
    {
        assert(text@.take(it.index() + 1) == text@.take(it.index()).push(c));
        if c == '\u{F0A1}' || c == '\u{F0A7}' || c == '\u{F0B7}' {
            r.push('\u{2022}');
        } else if c == '\u{F0FC}' {
            r.push('\u{2713}');
        } else if '\u{F020}' <= c && c <= '\u{F0FF}' {
            r.push((c as u32 - 0xF000) as u8 as char);
        } else {
            r.push(c);
        }
    }
    assert(text@.take(text@.len() as int) == text@);
    r
}

/// The repairs that every decoded text gets.
pub fn repair(text: String, base_font_name: Option<&str>, use_cp1252_fallback: bool) -> (r: String)
    ensures
        r@ == repaired(text@, opt_name(base_font_name), use_cp1252_fallback),
{
    let text = clean_symbol_pua(text);
    let text = remap_texcm_math_symbols(text, base_font_name);
    normalize_cp1252_controls(text, use_cp1252_fallback)
}

/// A symbol font's bytes as private characters.
pub fn decode_symbol_fallback(bytes: &[u8], base_font_name: Option<&str>) -> (text: Option<String>)
    ensures
        opt_text(text) == symbol_text(bytes@, opt_name(base_font_name)),
{
    let name = match base_font_name {
        Some(name) => lower_chars(name),
        None => return None,
    };
    if !has_part(&name, "symbol") && !has_part(&name, "wingdings") && !has_part(
        &name,
        "zapfdingbats",
    ) {
        return None;
    }
    let mut out = String::new();
    for i in 0..bytes.len()
        invariant
            out@ == symbol_chars(bytes@.take(i as int)),
    {
        assert(bytes@.take(i + 1).drop_last() == bytes@.take(i as int));
        if bytes[i] >= 0x20 {
            match char::from_u32(0xF000 + bytes[i] as u32) {
                Some(c) => {
                    out.push(c);
                },
                None => {},
            }
        }
    }
    assert(bytes@.take(bytes@.len() as int) == bytes@);
    if out.as_str().is_empty() {
        None
    } else {
        Some(out)
    }
}

/// Windows-1252 keeps ASCII.
pub proof fn law_ascii_bytes_are_themselves(byte: u8, cp1252: bool)
    requires
        byte < 0x80,
    ensures
        byte_char(byte, cp1252) == byte as char,
{
}

/// Reading C1 controls by Windows-1252 a second time changes nothing.
pub proof fn law_normalizing_is_idempotent(text: Seq<char>, cp1252: bool)
    ensures
        normalized(normalized(text, cp1252), cp1252) == normalized(text, cp1252),
{
    assert(without_c1(without_c1(text)) =~= without_c1(text));
}

/// Cleaned text holds no private symbol character but the controls of the range.
pub proof fn law_cleaned_text_has_no_symbol_pua(text: Seq<char>, i: int)
    requires
        0 <= i < text.len(),
    ensures
        !('\u{F020}' <= pua_cleaned(text)[i] <= '\u{F0FF}'),
{
}

}
