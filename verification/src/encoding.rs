//! Font encodings: what a font's `/Differences` make of its character codes.

use crate::cmap::{cmap_text, FontCMaps, ToUnicodeCMap};
use crate::names::{named, NameMap};
use crate::object::{
    array_entry, base_font, dict_entry, reference_entry, Dictionary, Document, Object, ObjectId,
};
use crate::text::{
    after_first, chars_of, has_char, has_prefix, is_ascii_digit, is_digit, lower, lower_chars,
    opt_name, same_chars, same_text, strip_to_first, REPLACEMENT,
};
use crate::unicode::{lossy_text, utf8_lossy};
use std::collections::HashMap;
use vstd::prelude::*;
use vstd::string::*;

verus! {

broadcast use vstd::std_specs::hash::group_hash_axioms;

/// What a font's `/Differences` say.
#[derive(Debug)]
pub struct EncodingResult {
    /// The character of each code that they map.
    pub map: HashMap<u8, char>,
    /// The codes whose glyph names are raw glyph ids, `gid` and a number. Only a ToUnicode CMap
    /// can decode them.
    pub gid_codes: Vec<u8>,
}

/// The encodings of a page's fonts, by resource name.
pub type PageFontEncodings = NameMap<HashMap<u8, char>>;

/// What `/Differences` say: characters by code, and the codes named by glyph id.
pub struct EncodingView {
    pub map: Map<u8, char>,
    pub gid_codes: Seq<u8>,
}

impl View for EncodingResult {
    type V = EncodingView;

    open spec fn view(&self) -> EncodingView {
        EncodingView { map: self.map@, gid_codes: self.gid_codes@ }
    }
}

/// The ligatures ff, fi, fl, ffi and ffl.
pub open spec fn is_ligature(c: char) -> bool {
    '\u{FB00}' <= c <= '\u{FB04}'
}

/// The glyph names that only one family uses: Aptos shows its ff ligature as g431.
pub open spec fn private_glyph(glyph: Seq<char>, base_font: Option<Seq<char>>) -> Option<char> {
    match base_font {
        Some(name) => if lower(after_first(name, '+')) == lower("Aptos"@) && glyph == "g431"@ {
            Some('\u{FB00}')
        } else {
            None
        },
        None => None,
    }
}

/// The character that a glyph name stands for.
pub open spec fn glyph_char(
    glyph: Seq<char>,
    glyph_names: Map<Seq<char>, char>,
    base_font: Option<Seq<char>>,
) -> Option<char> {
    match named(glyph_names, glyph) {
        Some(c) => Some(c),
        None => private_glyph(glyph, base_font),
    }
}

/// A raw glyph id as a name: `gid` and at least one digit, and nothing but digits.
pub open spec fn is_gid_name(glyph: Seq<char>) -> bool {
    &&& "gid"@.is_prefix_of(glyph)
    &&& glyph.len() >= 4
    &&& forall|i: int| 3 <= i < glyph.len() ==> is_ascii_digit(#[trigger] glyph[i])
}

/// The code that the next glyph name of a `/Differences` array stands for: an integer sets it,
/// a name moves it on by one.
pub open spec fn next_code(items: Seq<Object>) -> u8
    decreases items.len(),
{
    if items.len() == 0 {
        0
    } else {
        match items.last() {
            Object::Integer(n) => n as u8,
            Object::Name(_) => ((next_code(items.drop_last()) + 1) % 256) as u8,
            _ => next_code(items.drop_last()),
        }
    }
}

/// The characters that a `/Differences` array gives to codes.
pub open spec fn differences_map(
    items: Seq<Object>,
    glyph_names: Map<Seq<char>, char>,
    base_font: Option<Seq<char>>,
) -> Map<u8, char>
    decreases items.len(),
{
    if items.len() == 0 {
        Map::empty()
    } else {
        let front = differences_map(items.drop_last(), glyph_names, base_font);
        match items.last() {
            Object::Name(name) => match glyph_char(utf8_lossy(name@), glyph_names, base_font) {
                Some(c) => front.insert(next_code(items.drop_last()), c),
                None => front,
            },
            _ => front,
        }
    }
}

/// The codes that a `/Differences` array names by glyph id.
pub open spec fn differences_gids(items: Seq<Object>) -> Seq<u8>
    decreases items.len(),
{
    if items.len() == 0 {
        Seq::empty()
    } else {
        let front = differences_gids(items.drop_last());
        match items.last() {
            Object::Name(name) => if is_gid_name(utf8_lossy(name@)) {
                front.push(next_code(items.drop_last()))
            } else {
                front
            },
            _ => front,
        }
    }
}

/// What an encoding dictionary says.
pub open spec fn encoding_of_dict(
    doc: Map<ObjectId, Object>,
    enc_dict: Dictionary,
    glyph_names: Map<Seq<char>, char>,
    base_font: Option<Seq<char>>,
) -> Option<EncodingView> {
    match array_entry(doc, enc_dict, "Differences"@) {
        Some(items) => Some(
            EncodingView {
                map: differences_map(items, glyph_names, base_font),
                gid_codes: differences_gids(items),
            },
        ),
        None => None,
    }
}

/// What a font's encoding says; a standard encoding's name says nothing.
pub open spec fn encoding_of(
    doc: Map<ObjectId, Object>,
    font_dict: Dictionary,
    glyph_names: Map<Seq<char>, char>,
) -> Option<EncodingView> {
    match dict_entry(doc, font_dict, "Encoding"@) {
        Some(enc_dict) => encoding_of_dict(doc, enc_dict, glyph_names, base_font(font_dict)),
        None => None,
    }
}

/// A CMap text that extraction accepts: not empty, and without U+FFFD.
pub open spec fn is_usable(text: Seq<char>) -> bool {
    text.len() > 0 && !text.contains(REPLACEMENT)
}

/// Whether a CMap maps one of some codes usably.
pub open spec fn maps_one_of(cmap: ToUnicodeCMap, codes: Seq<u8>) -> bool {
    exists|i: int|
        0 <= i < codes.len() && (#[trigger] cmap_text(cmap, codes[i] as u16) matches Some(text)
            && is_usable(text))
}

/// Whether a font's ToUnicode CMap maps one of some codes usably.
pub open spec fn tounicode_covers(
    font_dict: Dictionary,
    cmaps: Map<u32, ToUnicodeCMap>,
    codes: Seq<u8>,
) -> bool {
    match reference_entry(font_dict, "ToUnicode"@) {
        Some(id) => cmaps.contains_key(id.0) && maps_one_of(cmaps[id.0], codes),
        None => false,
    }
}

/// The encodings of some fonts, by resource name; fonts whose encoding maps nothing have none.
pub open spec fn page_encodings(
    doc: Map<ObjectId, Object>,
    fonts: Seq<(Vec<u8>, &Dictionary)>,
    glyph_names: Map<Seq<char>, char>,
) -> Map<Seq<char>, Map<u8, char>>
    decreases fonts.len(),
{
    if fonts.len() == 0 {
        Map::empty()
    } else {
        let front = page_encodings(doc, fonts.drop_last(), glyph_names);
        match encoding_of(doc, *fonts.last().1, glyph_names) {
            Some(result) => if result.map.len() > 0 {
                front.insert(utf8_lossy(fonts.last().0@), result.map)
            } else {
                front
            },
            None => front,
        }
    }
}

/// Whether a font names codes by glyph id that its ToUnicode CMap leaves undecoded.
pub open spec fn has_lost_gids(
    doc: Map<ObjectId, Object>,
    font_dict: Dictionary,
    cmaps: Map<u32, ToUnicodeCMap>,
    glyph_names: Map<Seq<char>, char>,
) -> bool {
    match encoding_of(doc, font_dict, glyph_names) {
        Some(result) => result.gid_codes.len() > 0 && !tounicode_covers(
            font_dict,
            cmaps,
            result.gid_codes,
        ),
        None => false,
    }
}

/// Whether a character is one of the ligatures ff, fi, fl, ffi and ffl.
pub fn is_ligature_char(ch: char) -> (r: bool)
    ensures
        r == is_ligature(ch),
{
    '\u{FB00}' <= ch && ch <= '\u{FB04}'
}

/// A font name without its subset tag: what follows the first `+`.
pub fn strip_subset_prefix(font_name: &str) -> (name: &str)
    ensures
        name@ == after_first(font_name@, '+'),
{
    strip_to_first(font_name, '+')
}

/// The character of a glyph name that only one family uses.
pub fn private_glyph_to_char(glyph_name: &str, base_font_name: Option<&str>) -> (c: Option<char>)
    ensures
        c == private_glyph(glyph_name@, opt_name(base_font_name)),
{
    match base_font_name {
        Some(name) => {
            let family = lower_chars(strip_subset_prefix(name));
            let aptos = lower_chars("Aptos");
            if same_chars(&family, &aptos) && same_text(glyph_name, "g431") {
                Some('\u{FB00}')
            } else {
                None
            }
        },
        None => None,
    }
}

fn gid_name(glyph: &str) -> (r: bool)
    ensures
        r == is_gid_name(glyph@),
{
    let chars = chars_of(glyph);
    if !has_prefix(&chars, "gid") || chars.len() < 4 {
        return false;
    }
    for i in 3..chars.len()
        invariant
            chars@ == glyph@,
            forall|j: int| 3 <= j < i ==> is_ascii_digit(#[trigger] glyph@[j]),
    {
        if !is_digit(chars[i]) {
            assert(!is_ascii_digit(glyph@[i as int]));
            return false;
        }
    }
    true
}

/// Reads the `/Differences` of an encoding dictionary.
pub fn parse_encoding_dictionary(
    doc: &Document,
    enc_dict: &Dictionary,
    base_font_name: Option<&str>,
    glyph_names: &NameMap<char>,
) -> (result: Option<EncodingResult>)
    ensures
        match result {
            Some(result) => encoding_of_dict(
                doc@,
                *enc_dict,
                glyph_names@,
                opt_name(base_font_name),
            ) == Some(result@),
            None => encoding_of_dict(
                doc@,
                *enc_dict,
                glyph_names@,
                opt_name(base_font_name),
            ) is None,
        },
{
    let items = match enc_dict.get_array(doc, "Differences") {
        Some(items) => items,
        None => return None,
    };
    let ghost base = opt_name(base_font_name);
    let mut map: HashMap<u8, char> = HashMap::new();
    let mut gid_codes: Vec<u8> = Vec::new();
    let mut current_code: u8 = 0;
    for i in 0..items.len()
        invariant
            base == opt_name(base_font_name),
            current_code == next_code(items@.take(i as int)),
            map@ == differences_map(items@.take(i as int), glyph_names@, base),
            gid_codes@ == differences_gids(items@.take(i as int)),
    {
        assert(items@.take(i + 1).drop_last() == items@.take(i as int));
        match &items[i] {
            Object::Integer(n) => {
                current_code = *n as u8;
            },
            Object::Name(name) => {
                let glyph_name = lossy_text(name.as_slice());
                let mapped = match glyph_names.get(glyph_name.as_str()) {
                    Some(c) => Some(*c),
                    None => private_glyph_to_char(glyph_name.as_str(), base_font_name),
                };
                if gid_name(glyph_name.as_str()) {
                    gid_codes.push(current_code);
                }
                match mapped {
                    Some(c) => {
                        map.insert(current_code, c);
                    },
                    None => {},
                }
                current_code = current_code.wrapping_add(1);
            },
            _ => {},
        }
    }
    assert(items@.take(items@.len() as int) == items@);
    Some(EncodingResult { map, gid_codes })
}

/// Reads a font's encoding.
pub fn parse_font_encoding(
    doc: &Document,
    font_dict: &Dictionary,
    glyph_names: &NameMap<char>,
) -> (result: Option<EncodingResult>)
    ensures
        match result {
            Some(result) => encoding_of(doc@, *font_dict, glyph_names@) == Some(result@),
            None => encoding_of(doc@, *font_dict, glyph_names@) is None,
        },
{
    let enc_dict = match font_dict.get_dict(doc, "Encoding") {
        Some(enc_dict) => enc_dict,
        None => return None,
    };
    let base_font_name = font_dict.base_font_name();
    match &base_font_name {
        Some(name) => parse_encoding_dictionary(doc, enc_dict, Some(name.as_str()), glyph_names),
        None => parse_encoding_dictionary(doc, enc_dict, None, glyph_names),
    }
}

/// Whether a font's ToUnicode CMap maps one of some codes usably.
pub fn tounicode_maps_codes(font_dict: &Dictionary, cmaps: &FontCMaps, codes: &[u8]) -> (r: bool)
    ensures
        r == tounicode_covers(*font_dict, cmaps.by_object@, codes@),
{
    let id = match font_dict.get_reference("ToUnicode") {
        Some(id) => id,
        None => return false,
    };
    let cmap = match cmaps.get_by_obj(id.0) {
        Some(cmap) => cmap,
        None => return false,
    };
    for i in 0..codes.len()
        invariant
            reference_entry(*font_dict, "ToUnicode"@) == Some(id),
            cmaps.by_object@.contains_key(id.0),
            *cmap == cmaps.by_object@[id.0],
            forall|j: int|
                0 <= j < i ==> !(#[trigger] cmap_text(*cmap, codes@[j] as u16) matches Some(text)
                    && is_usable(text)),
    {
        match cmap.lookup(codes[i] as u16) {
            Some(text) => {
                if !text.as_str().is_empty() && !has_char(text.as_str(), REPLACEMENT) {
                    assert(cmap_text(*cmap, codes@[i as int] as u16) == Some(text@));
                    return true;
                }
            },
            None => {},
        }
    }
    false
}

/// The encodings of a page's fonts, and whether any of the fonts names codes by glyph id that
/// its ToUnicode CMap leaves undecoded.
pub fn build_font_encodings(
    doc: &Document,
    fonts: &[(Vec<u8>, &Dictionary)],
    cmaps: &FontCMaps,
    glyph_names: &NameMap<char>,
) -> (r: (PageFontEncodings, bool))
    ensures
        r.0@.map_values(|map: HashMap<u8, char>| map@) == page_encodings(
            doc@,
            fonts@,
            glyph_names@,
        ),
        r.1 == exists|i: int|
            0 <= i < fonts@.len() && has_lost_gids(
                doc@,
                *(#[trigger] fonts@[i]).1,
                cmaps.by_object@,
                glyph_names@,
            ),
{
    let mut encodings: PageFontEncodings = NameMap::new();
    let mut has_gid_fonts = false;
    assert(encodings@.map_values(|map: HashMap<u8, char>| map@) == page_encodings(
        doc@,
        fonts@.take(0),
        glyph_names@,
    ));
    for i in 0..fonts.len()
        invariant
            encodings@.map_values(|map: HashMap<u8, char>| map@) == page_encodings(
                doc@,
                fonts@.take(i as int),
                glyph_names@,
            ),
            has_gid_fonts == exists|j: int|
                0 <= j < i && has_lost_gids(
                    doc@,
                    *(#[trigger] fonts@[j]).1,
                    cmaps.by_object@,
                    glyph_names@,
                ),
    {
        assert(fonts@.take(i + 1).drop_last() == fonts@.take(i as int));
        let ghost before = encodings@;
        match parse_font_encoding(doc, fonts[i].1, glyph_names) {
            Some(result) => {
                if result.gid_codes.len() > 0 && !tounicode_maps_codes(
                    fonts[i].1,
                    cmaps,
                    result.gid_codes.as_slice(),
                ) {
                    has_gid_fonts = true;
                    assert(has_lost_gids(
                        doc@,
                        *fonts@[i as int].1,
                        cmaps.by_object@,
                        glyph_names@,
                    ));
                }
                if result.map.len() > 0 {
                    let name = lossy_text(fonts[i].0.as_slice());
                    let ghost map = result.map@;
                    encodings.insert(name, result.map);
                    assert(encodings@.map_values(|map: HashMap<u8, char>| map@)
                        =~= before.map_values(|map: HashMap<u8, char>| map@).insert(name@, map));
                }
            },
            None => {},
        }
    }
    assert(fonts@.take(fonts@.len() as int) == fonts@);
    (encodings, has_gid_fonts)
}

/// Names one after another stand for consecutive codes, whether or not they are known; past 255
/// the codes start again.
pub proof fn law_names_take_consecutive_codes(items: Seq<Object>, names: Seq<Object>)
    requires
        forall|i: int| 0 <= i < names.len() ==> (#[trigger] names[i]) is Name,
    ensures
        next_code(items + names) == (next_code(items) + names.len()) % 256,
    decreases names.len(),
{
    if names.len() == 0 {
        assert(items + names =~= items);
    } else {
        assert((items + names).drop_last() =~= items + names.drop_last());
        assert((items + names).last() == names[names.len() - 1]);
        law_names_take_consecutive_codes(items, names.drop_last());
    }
}

/// One code named by glyph id that the font's ToUnicode CMap maps usably clears the font, and
/// where it maps none the font is flagged.
pub proof fn law_one_mapped_gid_clears_a_font(
    doc: Map<ObjectId, Object>,
    font_dict: Dictionary,
    cmaps: Map<u32, ToUnicodeCMap>,
    glyph_names: Map<Seq<char>, char>,
    id: ObjectId,
)
    requires
        encoding_of(doc, font_dict, glyph_names) is Some,
        encoding_of(doc, font_dict, glyph_names)->0.gid_codes.len() > 0,
        reference_entry(font_dict, "ToUnicode"@) == Some(id),
        cmaps.contains_key(id.0),
    ensures
        has_lost_gids(doc, font_dict, cmaps, glyph_names) <==> !maps_one_of(
            cmaps[id.0],
            encoding_of(doc, font_dict, glyph_names)->0.gid_codes,
        ),
{
}

}
