//! Byte strings read as Unicode text.

use crate::text::REPLACEMENT;
use vstd::prelude::*;
use vstd::utf8::*;

verus! {

/// What `String::from_utf8_lossy` makes of some bytes.
pub uninterp spec fn utf8_lossy(bytes: Seq<u8>) -> Seq<char>;

/// The character with a given code point, where there is one.
pub open spec fn char_of_code(code: u32) -> Option<char> {
    if code <= 0xD7FF || 0xE000 <= code <= 0x10FFFF {
        Some(code as char)
    } else {
        None
    }
}

/// A big-endian pair of bytes.
pub open spec fn be16(high: u8, low: u8) -> u16 {
    (high * 256 + low) as u16
}

/// The big-endian pairs that a byte string holds; an odd last byte is left out.
pub open spec fn be_pairs(bytes: Seq<u8>) -> Seq<u16> {
    Seq::new(bytes.len() / 2, |i: int| be16(bytes[2 * i], bytes[2 * i + 1]))
}

/// The text of a sequence of UTF-16 code units. A surrogate without its partner becomes U+FFFD.
pub open spec fn utf16_text(units: Seq<u16>) -> Seq<char>
    decreases units.len(),
{
    if units.len() == 0 {
        Seq::empty()
    } else if !(0xD800 <= units[0] <= 0xDFFF) {
        seq![units[0] as char] + utf16_text(units.skip(1))
    } else if units[0] <= 0xDBFF && units.len() > 1 && 0xDC00 <= units[1] <= 0xDFFF {
        seq![(0x10000 + (units[0] - 0xD800) * 0x400 + (units[1] - 0xDC00)) as char] + utf16_text(
            units.skip(2),
        )
    } else {
        seq![REPLACEMENT] + utf16_text(units.skip(1))
    }
}

/// `char::from_u32` gives the character with a code point: none for a surrogate, and none past
/// U+10FFFF.
pub assume_specification[ char::from_u32 ](code: u32) -> (c: Option<char>)
    ensures
        c == char_of_code(code),
;

/// `std::str::from_utf8` accepts exactly the valid UTF-8 strings and gives the text they encode.
#[verifier::external_body]
pub(crate) fn utf8_text(bytes: &[u8]) -> (text: Option<String>)
    ensures
        text is Some <==> valid_utf8(bytes@),
        text matches Some(text) ==> text@ == decode_utf8(bytes@),
{
    std::str::from_utf8(bytes).ok().map(str::to_string)
}

/// `String::from_utf8_lossy` depends on the bytes alone, and gives the text that valid UTF-8
/// encodes.
#[verifier::external_body]
pub(crate) fn lossy_text(bytes: &[u8]) -> (text: String)
    ensures
        text@ == utf8_lossy(bytes@),
        valid_utf8(bytes@) ==> text@ == decode_utf8(bytes@),
{
    String::from_utf8_lossy(bytes).to_string()
}

/// The big-endian pairs of a byte string.
pub fn pairs_of(bytes: &[u8]) -> (units: Vec<u16>)
    ensures
        units@ == be_pairs(bytes@),
{
    let mut units: Vec<u16> = Vec::new();
    let len = bytes.len();
    let mut i: usize = 0;
    while i < len / 2
        invariant
            len == bytes@.len(),
            i <= len / 2,
            units@ == be_pairs(bytes@).take(i as int),
        decreases len - i,
    {
        let high = bytes[2 * i] as u16;
        let low = bytes[2 * i + 1] as u16;
        units.push(high * 256 + low);
        i += 1;
        assert(units@ == be_pairs(bytes@).take(i as int));
    }
    units
}

/// The text of a sequence of UTF-16 code units.
pub fn utf16_to_string(units: &[u16]) -> (text: String)
    ensures
        text@ == utf16_text(units@),
{
    let mut text = String::new();
    let len = units.len();
    let mut i: usize = 0;
    assert(units@.skip(0) == units@);
    while i < len
        invariant
            len == units@.len(),
            i <= len,
            text@ + utf16_text(units@.skip(i as int)) == utf16_text(units@),
        decreases len - i,
    {
        let ghost rest = units@.skip(i as int);
        let ghost before = text@;
        let unit = units[i];
        assert(rest.skip(1) == units@.skip(i + 1));
        if unit < 0xD800 || 0xDFFF < unit {
            match char::from_u32(unit as u32) {
                Some(c) => {
                    text.push(c);
                },
                None => {},
            }
            assert(text@ == before + seq![unit as char]);
            i += 1;
        } else if unit <= 0xDBFF && i + 1 < len && 0xDC00 <= units[i + 1] && units[i + 1]
            <= 0xDFFF {
            let high = unit as u32 - 0xD800;
            let low = units[i + 1] as u32 - 0xDC00;
            assert(rest.skip(2) == units@.skip(i + 2));
            match char::from_u32(0x10000 + high * 0x400 + low) {
                Some(c) => {
                    text.push(c);
                    assert(text@ == before + seq![c]);
                },
                None => {},
            }
            i += 2;
        } else {
            text.push(REPLACEMENT);
            assert(text@ == before + seq![REPLACEMENT]);
            i += 1;
        }
    }
    assert(units@.skip(len as int) == Seq::<u16>::empty());
    text
}

}
