//! What reading single bytes and repairing text promise.

use crate::fallback::{
    byte_char, cp1252_char, is_symbol_font, is_texcm, normalized, pua_char, repaired, symbol_chars,
    symbol_text, texcm_char, uses_cp1252,
};
use crate::text::{after_last, lower, occurs_in};
use vstd::prelude::*;
use vstd::string::*;

verus! {

/// The code points of Windows-1252 from 0x80 to 0x9F; the five that it leaves open are those of
/// Latin-1.
pub open spec fn windows_1252() -> Seq<u32> {
    seq![
        0x20ACu32, 0x81u32, 0x201Au32, 0x192u32, 0x201Eu32, 0x2026u32, 0x2020u32, 0x2021u32,
        0x2C6u32, 0x2030u32, 0x160u32, 0x2039u32, 0x152u32, 0x8Du32, 0x17Du32, 0x8Fu32,
        0x90u32, 0x2018u32, 0x2019u32, 0x201Cu32, 0x201Du32, 0x2022u32, 0x2013u32, 0x2014u32,
        0x2DCu32, 0x2122u32, 0x161u32, 0x203Au32, 0x153u32, 0x9Du32, 0x17Eu32, 0x178u32,
    ]
}

/// A byte is the character of its number, but from 0x80 to 0x9F that of Windows-1252 where a font
/// is read so.
pub proof fn law_bytes_as_characters(byte: u8, cp1252: bool)
    ensures
        byte < 0x80 || byte > 0x9F || !cp1252 ==> byte_char(byte, cp1252) as u32 == byte as u32,
        0x80 <= byte <= 0x9F ==> byte_char(byte, true) as u32 == windows_1252()[byte - 0x80]
            && cp1252_char(byte) as u32 == windows_1252()[byte - 0x80],
{
}

/// Different bytes are different characters.
pub proof fn law_bytes_are_told_apart(a: u8, b: u8, cp1252: bool)
    requires
        byte_char(a, cp1252) == byte_char(b, cp1252),
    ensures
        a == b,
{
    law_bytes_as_characters(a, cp1252);
    law_bytes_as_characters(b, cp1252);
    if cp1252 && 0x80 <= a <= 0x9F && 0x80 <= b <= 0x9F {
        assert(windows_1252()[a - 0x80] == windows_1252()[b - 0x80]);
    }
}

/// Repairing text changes it character by character. Most characters stay. Those of the private
/// symbol range become what they show: bullets, a check mark, or the character of their low byte.
/// C1 controls become Windows-1252 where the font is read so, and five characters of one font
/// family the signs that it shows for them.
pub proof fn law_repairs(text: Seq<char>, base: Option<Seq<char>>, cp1252: bool, i: int)
    requires
        0 <= i < text.len(),
    ensures
        repaired(text, base, cp1252).len() == text.len(),
        ({
            let c = text[i];
            let r = repaired(text, base, cp1252)[i];
            let private = '\u{F020}' <= c <= '\u{F0FF}';
            let c1 = '\u{80}' <= c <= '\u{9F}';
            let misnamed = c == '\u{BC}' || c == '\u{BD}' || c == '\u{FE}' || c == '\u{F0}' || c
                == '\u{DE}';
            &&& !private && !c1 && !misnamed ==> r == c
            &&& !private && !c1 && !is_texcm(base) ==> r == c
            &&& !private && !misnamed && !cp1252 ==> r == c
            &&& c == '\u{F0A1}' || c == '\u{F0A7}' || c == '\u{F0B7}' ==> r == '\u{2022}'
            &&& c == '\u{F0FC}' ==> r == '\u{2713}'
            &&& '\u{F020}' <= c <= '\u{F07F}' ==> r as u32 == c as u32 - 0xF000
            &&& private && c != '\u{F0A1}' && c != '\u{F0A7}' && c != '\u{F0B7}' && c
                != '\u{F0FC}' && !cp1252 && !is_texcm(base) ==> r as u32 == c as u32 - 0xF000
            &&& c1 && cp1252 ==> r as u32 == windows_1252()[c as u32 - 0x80]
            &&& c1 && !cp1252 ==> r == c
            &&& is_texcm(base) && c == '\u{BC}' ==> r == '='
            &&& is_texcm(base) && c == '\u{BD}' ==> r == '-'
            &&& is_texcm(base) && c == '\u{FE}' ==> r == '+'
            &&& is_texcm(base) && c == '\u{F0}' ==> r == '('
            &&& is_texcm(base) && c == '\u{DE}' ==> r == ')'
        }),
{
    let c = text[i];
    let cleaned = pua_char(c);
    if '\u{F020}' <= c <= '\u{F0FF}' {
        assert(c as u32 - 0xF000 <= 0xFF);
    }
    let mapped = if is_texcm(base) {
        texcm_char(cleaned)
    } else {
        cleaned
    };
    assert(repaired(text, base, cp1252)[i] == if cp1252 && '\u{80}' <= mapped <= '\u{9F}' {
        cp1252_char(mapped as u8)
    } else {
        mapped
    });
    if '\u{80}' <= mapped <= '\u{9F}' {
        law_bytes_as_characters(mapped as u8, true);
    }
}

/// Reading C1 controls by Windows-1252 changes nothing else, and nothing at all in other fonts.
pub proof fn law_controls(text: Seq<char>, cp1252: bool, i: int)
    requires
        0 <= i < text.len(),
    ensures
        normalized(text, false) == text,
        normalized(text, cp1252).len() == text.len(),
        !('\u{80}' <= text[i] <= '\u{9F}') ==> normalized(text, cp1252)[i] == text[i],
        '\u{80}' <= text[i] <= '\u{9F}' && cp1252 ==> normalized(text, cp1252)[i] as u32
            == windows_1252()[text[i] as u32 - 0x80],
{
    if '\u{80}' <= text[i] <= '\u{9F}' {
        law_bytes_as_characters(text[i] as u8, true);
    }
}

/// The family whose signs are misnamed is known by its name, without a subset tag and in whatever
/// case.
pub proof fn law_misnamed_family(name: Seq<char>)
    ensures
        is_texcm(Some(name)) <==> lower(after_last(name, '+')) == lower("TeXCMMathsSymbols"@),
        !is_texcm(None),
{
}

/// The beginnings of the names of fonts whose bytes from 0x80 to 0x9F are not text.
pub open spec fn symbol_beginnings() -> Seq<Seq<char>> {
    seq![
        "cmr"@, "cmb"@, "cmmi"@, "cmsy"@, "cmex"@, "cmtt"@, "cmss"@, "cmti"@, "ecrm"@, "ecbx"@,
        "ecti"@, "tcrm"@, "tctt"@, "msam"@, "msbm"@, "ttdc"@,
    ]
}

/// The parts of the names of such fonts.
pub open spec fn symbol_parts() -> Seq<Seq<char>> {
    seq!["math"@, "symbol"@, "dingbat"@, "emoji"@]
}

/// A composite font is never read by Windows-1252, a font without a name always, and any other
/// unless its name, without a subset tag and in lower case, begins like that of a TeX font or
/// holds a word for symbols.
pub proof fn law_fonts_of_windows_1252(name: Seq<char>)
    ensures
        !uses_cp1252(Some(name), true),
        !uses_cp1252(None, true),
        uses_cp1252(None, false),
        uses_cp1252(Some(name), false) <==> ({
            let short = lower(after_last(name, '+'));
            &&& forall|k: int|
                0 <= k < 16 ==> !(#[trigger] symbol_beginnings()[k]).is_prefix_of(short)
            &&& forall|k: int| 0 <= k < 4 ==> !occurs_in(#[trigger] symbol_parts()[k], short)
        }),
{
    let a = symbol_beginnings();
    let b = symbol_parts();
    assert(a[0] == "cmr"@ && a[1] == "cmb"@ && a[2] == "cmmi"@ && a[3] == "cmsy"@ && a[4]
        == "cmex"@ && a[5] == "cmtt"@ && a[6] == "cmss"@ && a[7] == "cmti"@ && a[8] == "ecrm"@
        && a[9] == "ecbx"@ && a[10] == "ecti"@ && a[11] == "tcrm"@ && a[12] == "tctt"@ && a[13]
        == "msam"@ && a[14] == "msbm"@ && a[15] == "ttdc"@);
    assert(b[0] == "math"@ && b[1] == "symbol"@ && b[2] == "dingbat"@ && b[3] == "emoji"@);
}

/// A symbol font is known by a part of its name, in whatever case.
pub proof fn law_symbol_fonts(name: Seq<char>)
    ensures
        !is_symbol_font(None),
        is_symbol_font(Some(name)) <==> occurs_in("symbol"@, lower(name)) || occurs_in(
            "wingdings"@,
            lower(name),
        ) || occurs_in("zapfdingbats"@, lower(name)),
{
}

proof fn lemma_symbol_chars(bytes: Seq<u8>)
    ensures
        symbol_chars(bytes) == bytes.filter(|b: u8| b >= 0x20).map_values(
            |b: u8| (0xF000 + b) as char,
        ),
    decreases bytes.len(),
{
    reveal(Seq::filter);
    if bytes.len() > 0 {
        lemma_symbol_chars(bytes.drop_last());
    }
    assert(symbol_chars(bytes) =~= bytes.filter(|b: u8| b >= 0x20).map_values(
        |b: u8| (0xF000 + b) as char,
    ));
}

/// The bytes of a symbol font from 0x20 on are the private characters from U+F020 on; without
/// such a byte, and in other fonts, there is no symbol text.
pub proof fn law_symbol_text(bytes: Seq<u8>, base: Option<Seq<char>>)
    ensures
        !is_symbol_font(base) ==> symbol_text(bytes, base) is None,
        is_symbol_font(base) && bytes.filter(|b: u8| b >= 0x20).len() == 0 ==> symbol_text(
            bytes,
            base,
        ) is None,
        is_symbol_font(base) && bytes.filter(|b: u8| b >= 0x20).len() > 0 ==> symbol_text(
            bytes,
            base,
        ) == Some(bytes.filter(|b: u8| b >= 0x20).map_values(|b: u8| (0xF000 + b) as char)),
{
    lemma_symbol_chars(bytes);
}

}
