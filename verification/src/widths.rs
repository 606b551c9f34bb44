//! Glyph widths: simple fonts, composite fonts and the standard fonts that carry none.

use crate::cid_widths::{
    applied, assignments, capped, number_width, parse_cid_w_array, width_number, wrapped_code,
    MAX_CID_W_EXPANSION,
};
use crate::encoding::{encoding_of, parse_font_encoding};
use crate::fallback::{byte_char, decode_single_byte_fallback_char};
use crate::names::NameMap;
use crate::number::{is_nan, magnitude, nan, Number, SIGN};
use crate::object::{
    array_entry, base_font, dict_of, entry, has_name, resolve_dict, resolved, value_of, Dictionary,
    Document, Object, ObjectId,
};
use crate::unicode::{be_pairs, lossy_text, pairs_of, utf8_lossy};
use std::collections::HashMap;
use vstd::prelude::*;
use vstd::string::*;

verus! {

broadcast use vstd::std_specs::hash::group_hash_axioms;

/// The bits of half of 0.001.
pub const SCALE_LOW: u32 = 0x3A03_126F;

/// The bits of the largest number that is no more than half of 0.001 above 0.001.
pub const SCALE_HIGH: u32 = 0x3AC4_9BA6;

/// What turns a font's units into text space: a thousandth, or for a Type3 font the absolute
/// value of the first number of its `/FontMatrix`.
#[derive(Debug, Copy, Clone, PartialEq, Eq, Structural)]
pub enum UnitsScale {
    Thousandth,
    Magnitude(Number),
}

/// The width of a font's space: in its units, or 45 hundredths of the mean of `count` widths
/// that add up to `total`, at least 1.
#[derive(Debug, Copy, Clone, PartialEq, Eq, Structural)]
pub enum SpaceWidth {
    Units(u16),
    ShareOfMean { total: u64, count: u64 },
}

/// A font's widths by code.
#[derive(Debug)]
pub struct FontWidthInfo {
    pub widths: HashMap<u16, u16>,
    pub default_width: u16,
    pub space_width: SpaceWidth,
    pub is_cid: bool,
    pub units_scale: UnitsScale,
    pub wmode: u8,
}

/// The widths of a page's fonts, by resource name.
pub type PageFontWidths = NameMap<FontWidthInfo>;

/// What is known of one of the standard fonts: its own encoding, and the width of each
/// character by its code point.
#[derive(Debug)]
pub struct StandardFont {
    pub builtin: HashMap<u8, char>,
    pub char_widths: HashMap<u32, u16>,
}

/// A font's widths by code.
pub struct WidthsView {
    pub widths: Map<u16, u16>,
    pub default_width: u16,
    pub space_width: SpaceWidth,
    pub is_cid: bool,
    pub units_scale: UnitsScale,
    pub wmode: u8,
}

impl View for FontWidthInfo {
    type V = WidthsView;

    open spec fn view(&self) -> WidthsView {
        WidthsView {
            widths: self.widths@,
            default_width: self.default_width,
            space_width: self.space_width,
            is_cid: self.is_cid,
            units_scale: self.units_scale,
            wmode: self.wmode,
        }
    }
}

/// The view of widths that may be absent.
pub open spec fn opt_widths(info: Option<FontWidthInfo>) -> Option<WidthsView> {
    match info {
        Some(info) => Some(info@),
        None => None,
    }
}

/// A width, given directly or by reference.
pub open spec fn resolved_width(doc: Map<ObjectId, Object>, object: Object) -> Option<u16> {
    match resolved(doc, object) {
        Some(object) => width_number(object),
        None => None,
    }
}

/// A character code under a key, given directly or by reference.
pub open spec fn code_entry(
    doc: Map<ObjectId, Object>,
    dict: Dictionary,
    key: Seq<char>,
) -> Option<u16> {
    match entry(dict, key) {
        Some(object) => match resolved(doc, object) {
            Some(Object::Integer(n)) => Some(n as u16),
            _ => None,
        },
        None => None,
    }
}

/// How many of `n` widths from code `first` on come before a code past `last`.
pub open spec fn reach(first: u16, last: u16, n: nat) -> nat
    decreases n,
{
    if n == 0 {
        0
    } else {
        let before = reach(first, last, (n - 1) as nat);
        if before == n - 1 && (first + n - 1) % 0x1_0000 <= last {
            n
        } else {
            before
        }
    }
}

/// The widths of an array, given directly or by reference, for the codes from `first` on; what
/// is no number is passed over.
pub open spec fn numbered(
    doc: Map<ObjectId, Object>,
    first: u16,
    items: Seq<Object>,
) -> Seq<(u16, u16)>
    decreases items.len(),
{
    if items.len() == 0 {
        Seq::empty()
    } else {
        let front = numbered(doc, first, items.drop_last());
        match resolved_width(doc, items.last()) {
            Some(w) => front.push((((first + items.len() - 1) % 0x1_0000) as u16, w)),
            None => front,
        }
    }
}

/// The widths of a simple font: those of the codes from `first` to `last`.
pub open spec fn simple_widths(
    doc: Map<ObjectId, Object>,
    first: u16,
    last: u16,
    items: Seq<Object>,
) -> Map<u16, u16> {
    applied(
        Map::empty(),
        numbered(doc, first, items.take(reach(first, last, items.len()) as int)),
    )
}

/// The scale of a simple font: a thousandth, unless the font is a Type3 font whose `/FontMatrix`
/// starts with a number.
pub open spec fn font_scale(doc: Map<ObjectId, Object>, font_dict: Dictionary) -> UnitsScale {
    if !has_name(font_dict, "Subtype"@, "Type3"@) {
        UnitsScale::Thousandth
    } else {
        match array_entry(doc, font_dict, "FontMatrix"@) {
            Some(items) => if items.len() > 0 {
                match items[0] {
                    Object::Integer(n) => UnitsScale::Magnitude(Number::Integer(n)),
                    Object::Real(bits) => UnitsScale::Magnitude(Number::Real(bits)),
                    _ => UnitsScale::Thousandth,
                }
            } else {
                UnitsScale::Thousandth
            },
            None => UnitsScale::Thousandth,
        }
    }
}

/// Whether a scale lies more than half of 0.001 from 0.001.
pub open spec fn is_unusual(scale: UnitsScale) -> bool {
    match scale {
        UnitsScale::Thousandth => false,
        UnitsScale::Magnitude(Number::Integer(_)) => true,
        UnitsScale::Magnitude(Number::Real(bits)) => !is_nan(bits) && (magnitude(bits) < SCALE_LOW
            || magnitude(bits) > SCALE_HIGH),
    }
}

/// The sum of the widths of the codes below `n`.
pub open spec fn width_total(widths: Map<u16, u16>, n: nat) -> nat
    decreases n,
{
    if n == 0 {
        0
    } else {
        width_total(widths, (n - 1) as nat) + if widths.contains_key((n - 1) as u16) {
            widths[(n - 1) as u16] as nat
        } else {
            0
        }
    }
}

/// The width of a simple font's space: that of code 32; where it has none, a share of the mean
/// width at an unusual scale, else 250.
pub open spec fn simple_space(widths: Map<u16, u16>, scale: UnitsScale) -> SpaceWidth {
    if widths.contains_key(32) && widths[32] != 0 {
        SpaceWidth::Units(widths[32])
    } else if widths.len() > 0 && is_unusual(scale) {
        SpaceWidth::ShareOfMean {
            total: width_total(widths, 0x1_0000) as u64,
            count: widths.len() as u64,
        }
    } else {
        SpaceWidth::Units(250)
    }
}

/// The widths of a simple font.
pub open spec fn simple_font_widths(
    doc: Map<ObjectId, Object>,
    font_dict: Dictionary,
) -> Option<WidthsView> {
    match (
        code_entry(doc, font_dict, "FirstChar"@),
        code_entry(doc, font_dict, "LastChar"@),
        array_entry(doc, font_dict, "Widths"@),
    ) {
        (Some(first), Some(last), Some(items)) => {
            let widths = simple_widths(doc, first, last, items);
            let scale = font_scale(doc, font_dict);
            Some(
                WidthsView {
                    widths,
                    default_width: 0,
                    space_width: simple_space(widths, scale),
                    is_cid: false,
                    units_scale: scale,
                    wmode: 0,
                },
            )
        },
        _ => None,
    }
}

/// The dictionary of a composite font's first descendant.
pub open spec fn descendant(
    doc: Map<ObjectId, Object>,
    font_dict: Dictionary,
) -> Option<Dictionary> {
    match array_entry(doc, font_dict, "DescendantFonts"@) {
        Some(items) => if items.len() > 0 {
            dict_of(doc, items[0])
        } else {
            None
        },
        None => None,
    }
}

/// The widths of a composite font.
pub open spec fn type0_widths(
    doc: Map<ObjectId, Object>,
    font_dict: Dictionary,
) -> Option<WidthsView> {
    match descendant(doc, font_dict) {
        Some(cid_font) => {
            let default_width = match entry(cid_font, "DW"@) {
                Some(object) => match width_number(object) {
                    Some(w) => w,
                    None => 1000,
                },
                None => 1000,
            };
            let widths = match array_entry(doc, cid_font, "W"@) {
                Some(items) => applied(
                    Map::empty(),
                    capped(assignments(doc, items), MAX_CID_W_EXPANSION as int),
                ),
                None => Map::empty(),
            };
            let space: u16 = if widths.contains_key(32) {
                widths[32]
            } else if widths.contains_key(3) {
                widths[3]
            } else if default_width > 0 {
                default_width / 4
            } else {
                250
            };
            Some(
                WidthsView {
                    widths,
                    default_width,
                    space_width: SpaceWidth::Units(space),
                    is_cid: true,
                    units_scale: UnitsScale::Thousandth,
                    wmode: match entry(font_dict, "WMode"@) {
                        Some(Object::Integer(n)) => n as u8,
                        _ => 0,
                    },
                },
            )
        },
        None => None,
    }
}

/// The character that a standard font shows for a code: by its `/Differences`, else by its own
/// encoding, else as the text decoder reads the byte.
pub open spec fn standard_char(
    differences: Map<u8, char>,
    builtin: Map<u8, char>,
    code: u8,
) -> char {
    if differences.contains_key(code) {
        differences[code]
    } else if builtin.contains_key(code) {
        builtin[code]
    } else {
        byte_char(code, true)
    }
}

/// The characters that a font's `/Differences` map, none where it has no encoding dictionary.
pub open spec fn differences_of(
    doc: Map<ObjectId, Object>,
    font_dict: Dictionary,
    glyph_names: Map<Seq<char>, char>,
) -> Map<u8, char> {
    match encoding_of(doc, font_dict, glyph_names) {
        Some(result) => result.map,
        None => Map::empty(),
    }
}

/// The widths of a standard font by code.
pub open spec fn standard_widths(
    differences: Map<u8, char>,
    builtin: Map<u8, char>,
    char_widths: Map<u32, u16>,
) -> Map<u16, u16> {
    Map::new(
        |code: u16|
            code < 256 && char_widths.contains_key(
                standard_char(differences, builtin, code as u8) as u32,
            ),
        |code: u16| char_widths[standard_char(differences, builtin, code as u8) as u32],
    )
}

/// The widths of a standard font that carries none.
pub open spec fn base14_widths(
    doc: Map<ObjectId, Object>,
    font_dict: Dictionary,
    glyph_names: Map<Seq<char>, char>,
    standard: Map<Seq<char>, StandardFont>,
) -> Option<WidthsView> {
    match base_font(font_dict) {
        Some(name) => if standard.contains_key(name) {
            let widths = standard_widths(
                differences_of(doc, font_dict, glyph_names),
                standard[name].builtin@,
                standard[name].char_widths@,
            );
            Some(
                WidthsView {
                    widths,
                    default_width: 500,
                    space_width: SpaceWidth::Units(
                        if widths.contains_key(32) {
                            widths[32]
                        } else {
                            250
                        },
                    ),
                    is_cid: false,
                    units_scale: UnitsScale::Thousandth,
                    wmode: 0,
                },
            )
        } else {
            None
        },
        None => None,
    }
}

/// The widths of a font, by its `/Subtype`.
pub open spec fn font_widths(
    doc: Map<ObjectId, Object>,
    font_dict: Dictionary,
    glyph_names: Map<Seq<char>, char>,
    standard: Map<Seq<char>, StandardFont>,
) -> Option<WidthsView> {
    if has_name(font_dict, "Subtype"@, "Type0"@) {
        type0_widths(doc, font_dict)
    } else if has_name(font_dict, "Subtype"@, "Type1"@) || has_name(
        font_dict,
        "Subtype"@,
        "TrueType"@,
    ) || has_name(font_dict, "Subtype"@, "MMType1"@) {
        match simple_font_widths(doc, font_dict) {
            Some(widths) => Some(widths),
            None => base14_widths(doc, font_dict, glyph_names, standard),
        }
    } else if has_name(font_dict, "Subtype"@, "Type3"@) {
        simple_font_widths(doc, font_dict)
    } else {
        None
    }
}

/// The widths of some fonts, by resource name.
pub open spec fn page_widths(
    doc: Map<ObjectId, Object>,
    fonts: Seq<(Vec<u8>, &Dictionary)>,
    glyph_names: Map<Seq<char>, char>,
    standard: Map<Seq<char>, StandardFont>,
) -> Map<Seq<char>, WidthsView>
    decreases fonts.len(),
{
    if fonts.len() == 0 {
        Map::empty()
    } else {
        let front = page_widths(doc, fonts.drop_last(), glyph_names, standard);
        match font_widths(doc, *fonts.last().1, glyph_names, standard) {
            Some(widths) => front.insert(utf8_lossy(fonts.last().0@), widths),
            None => front,
        }
    }
}

/// A code under a key, given directly or by reference.
fn code_under(doc: &Document, dict: &Dictionary, key: &str) -> (code: Option<u16>)
    ensures
        code == code_entry(doc@, *dict, key@),
{
    match dict.get(key) {
        Some(Object::Integer(n)) => Some(*n as u16),
        Some(Object::Reference(id)) => match doc.get_object(*id) {
            Some(Object::Integer(n)) => Some(*n as u16),
            _ => None,
        },
        _ => None,
    }
}

/// A width, given directly or by reference.
fn width_of(doc: &Document, object: &Object) -> (w: Option<u16>)
    ensures
        w == resolved_width(doc@, *object),
{
    match object {
        Object::Reference(id) => match doc.get_object(*id) {
            Some(object) => number_width(object),
            None => None,
        },
        _ => number_width(object),
    }
}

/// Past a code beyond the last one nothing more is reached.
proof fn lemma_reach_stops(first: u16, last: u16, at: nat, n: nat)
    requires
        at < n,
        reach(first, last, at) == at,
        (first + at) % 0x1_0000 > last,
    ensures
        reach(first, last, n) == at,
    decreases n,
{
    if n > at + 1 {
        lemma_reach_stops(first, last, at, (n - 1) as nat);
    }
}

/// The widths of the codes from `first` to `last`.
fn read_simple_widths(doc: &Document, first: u16, last: u16, items: &Vec<Object>) -> (widths:
    HashMap<u16, u16>)
    ensures
        widths@ == simple_widths(doc@, first, last, items@),
{
    let mut widths: HashMap<u16, u16> = HashMap::new();
    for i in 0..items.len()
        invariant
            reach(first, last, i as nat) == i,
            widths@ == applied(Map::empty(), numbered(doc@, first, items@.take(i as int))),
    {
        let code = wrapped_code(first, i);
        if code > last {
            proof {
                lemma_reach_stops(first, last, i as nat, items@.len());
            }
            return widths;
        }
        let ghost done = numbered(doc@, first, items@.take(i as int));
        let ghost next = numbered(doc@, first, items@.take(i + 1));
        assert(items@.take(i + 1).drop_last() == items@.take(i as int));
        match width_of(doc, &items[i]) {
            Some(w) => {
                widths.insert(code, w);
                assert(next == done.push((code, w)));
                assert(next.drop_last() == done);
            },
            None => {
                assert(next == done);
            },
        }
    }
    widths
}

/// The scale of a simple font.
fn scale_of(doc: &Document, font_dict: &Dictionary) -> (scale: UnitsScale)
    ensures
        scale == font_scale(doc@, *font_dict),
{
    if !font_dict.names("Subtype", "Type3") {
        return UnitsScale::Thousandth;
    }
    match font_dict.get_array(doc, "FontMatrix") {
        Some(items) => if items.len() > 0 {
            match &items[0] {
                Object::Integer(n) => UnitsScale::Magnitude(Number::Integer(*n)),
                Object::Real(bits) => UnitsScale::Magnitude(Number::Real(*bits)),
                _ => UnitsScale::Thousandth,
            }
        } else {
            UnitsScale::Thousandth
        },
        None => UnitsScale::Thousandth,
    }
}

fn unusual(scale: UnitsScale) -> (r: bool)
    ensures
        r == is_unusual(scale),
{
    match scale {
        UnitsScale::Thousandth => false,
        UnitsScale::Magnitude(Number::Integer(_)) => true,
        UnitsScale::Magnitude(Number::Real(bits)) => !nan(bits) && (bits % SIGN < SCALE_LOW || bits
            % SIGN > SCALE_HIGH),
    }
}

/// The sum of a font's widths.
fn sum_of_widths(widths: &HashMap<u16, u16>) -> (total: u64)
    ensures
        total == width_total(widths@, 0x1_0000),
{
    let mut total: u64 = 0;
    for code in 0..0x1_0000u32
        invariant
            total == width_total(widths@, code as nat),
            total <= code * 0xFFFF,
    {
        match widths.get(&(code as u16)) {
            Some(w) => {
                total = total + *w as u64;
            },
            None => {},
        }
    }
    total
}

/// Reads the widths of a simple font: `/FirstChar`, `/LastChar` and `/Widths`, for a Type3 font
/// with the scale of its `/FontMatrix`.
pub fn parse_simple_font_widths(doc: &Document, font_dict: &Dictionary) -> (info: Option<
    FontWidthInfo,
>)
    ensures
        opt_widths(info) == simple_font_widths(doc@, *font_dict),
{
    let first_char = match code_under(doc, font_dict, "FirstChar") {
        Some(code) => code,
        None => return None,
    };
    let last_char = match code_under(doc, font_dict, "LastChar") {
        Some(code) => code,
        None => return None,
    };
    let items = match font_dict.get_array(doc, "Widths") {
        Some(items) => items,
        None => return None,
    };
    let widths = read_simple_widths(doc, first_char, last_char, items);
    let units_scale = scale_of(doc, font_dict);
    let declared: u16 = match widths.get(&32) {
        Some(w) => *w,
        None => 0,
    };
    let space_width = if declared != 0 {
        SpaceWidth::Units(declared)
    } else if widths.len() > 0 && unusual(units_scale) {
        SpaceWidth::ShareOfMean { total: sum_of_widths(&widths), count: widths.len() as u64 }
    } else {
        SpaceWidth::Units(250)
    };
    Some(
        FontWidthInfo {
            widths,
            default_width: 0,
            space_width,
            is_cid: false,
            units_scale,
            wmode: 0,
        },
    )
}

/// The dictionary of a composite font's first descendant.
pub fn descendant_font<'a>(doc: &'a Document, font_dict: &'a Dictionary) -> (dict: Option<
    &'a Dictionary,
>)
    ensures
        value_of(dict) == descendant(doc@, *font_dict),
{
    match font_dict.get_array(doc, "DescendantFonts") {
        Some(items) => if items.len() > 0 {
            resolve_dict(doc, &items[0])
        } else {
            None
        },
        None => None,
    }
}

/// Reads the widths of a composite font: `/W` and `/DW` of its first descendant.
pub fn parse_type0_widths(doc: &Document, font_dict: &Dictionary) -> (info: Option<FontWidthInfo>)
    ensures
        opt_widths(info) == type0_widths(doc@, *font_dict),
{
    let cid_font = match descendant_font(doc, font_dict) {
        Some(dict) => dict,
        None => return None,
    };
    let default_width: u16 = match cid_font.get("DW") {
        Some(object) => match number_width(object) {
            Some(w) => w,
            None => 1000,
        },
        None => 1000,
    };
    let mut widths: HashMap<u16, u16> = HashMap::new();
    match cid_font.get_array(doc, "W") {
        Some(items) => {
            parse_cid_w_array(doc, items.as_slice(), &mut widths);
        },
        None => {},
    }
    let space: u16 = match widths.get(&32) {
        Some(w) => *w,
        None => match widths.get(&3) {
            Some(w) => *w,
            None => if default_width > 0 {
                default_width / 4
            } else {
                250
            },
        },
    };
    let wmode: u8 = match font_dict.get("WMode") {
        Some(Object::Integer(n)) => *n as u8,
        _ => 0,
    };
    Some(
        FontWidthInfo {
            widths,
            default_width,
            space_width: SpaceWidth::Units(space),
            is_cid: true,
            units_scale: UnitsScale::Thousandth,
            wmode,
        },
    )
}

/// The widths of a standard font's codes.
fn read_standard_widths(differences: &HashMap<u8, char>, font: &StandardFont) -> (widths: HashMap<
    u16,
    u16,
>)
    ensures
        widths@ == standard_widths(differences@, font.builtin@, font.char_widths@),
{
    let mut widths: HashMap<u16, u16> = HashMap::new();
    let ghost all = standard_widths(differences@, font.builtin@, font.char_widths@);
    for code in 0..256u16
        invariant
            all == standard_widths(differences@, font.builtin@, font.char_widths@),
            forall|c: u16|
                #![trigger widths@.contains_key(c)]
                widths@.contains_key(c) == (c < code && all.contains_key(c)),
            forall|c: u16| #![trigger widths@[c]] widths@.contains_key(c) ==> widths@[c] == all[c],
    {
        let byte = code as u8;
        let c = match differences.get(&byte) {
            Some(c) => *c,
            None => match font.builtin.get(&byte) {
                Some(c) => *c,
                None => decode_single_byte_fallback_char(byte, true),
            },
        };
        match font.char_widths.get(&(c as u32)) {
            Some(w) => {
                widths.insert(code, *w);
            },
            None => {},
        }
    }
    assert(widths@ =~= all);
    widths
}

/// The widths of a standard font that carries none.
pub fn base14_fallback_widths(
    doc: &Document,
    font_dict: &Dictionary,
    glyph_names: &NameMap<char>,
    standard: &NameMap<StandardFont>,
) -> (info: Option<FontWidthInfo>)
    ensures
        opt_widths(info) == base14_widths(doc@, *font_dict, glyph_names@, standard@),
{
    let name = match font_dict.base_font_name() {
        Some(name) => name,
        None => return None,
    };
    let font = match standard.get(name.as_str()) {
        Some(font) => font,
        None => return None,
    };
    let differences = match parse_font_encoding(doc, font_dict, glyph_names) {
        Some(result) => result.map,
        None => HashMap::new(),
    };
    assert(differences@ == differences_of(doc@, *font_dict, glyph_names@));
    let widths = read_standard_widths(&differences, font);
    let space: u16 = match widths.get(&32) {
        Some(w) => *w,
        None => 250,
    };
    Some(
        FontWidthInfo {
            widths,
            default_width: 500,
            space_width: SpaceWidth::Units(space),
            is_cid: false,
            units_scale: UnitsScale::Thousandth,
            wmode: 0,
        },
    )
}

/// Reads the widths of a font, by its `/Subtype`.
pub fn parse_font_widths(
    doc: &Document,
    font_dict: &Dictionary,
    glyph_names: &NameMap<char>,
    standard: &NameMap<StandardFont>,
) -> (info: Option<FontWidthInfo>)
    ensures
        opt_widths(info) == font_widths(doc@, *font_dict, glyph_names@, standard@),
{
    if font_dict.names("Subtype", "Type0") {
        parse_type0_widths(doc, font_dict)
    } else if font_dict.names("Subtype", "Type1") || font_dict.names("Subtype", "TrueType")
        || font_dict.names("Subtype", "MMType1") {
        match parse_simple_font_widths(doc, font_dict) {
            Some(info) => Some(info),
            None => base14_fallback_widths(doc, font_dict, glyph_names, standard),
        }
    } else if font_dict.names("Subtype", "Type3") {
        parse_simple_font_widths(doc, font_dict)
    } else {
        None
    }
}

/// The widths of a page's fonts.
pub fn build_font_widths(
    doc: &Document,
    fonts: &[(Vec<u8>, &Dictionary)],
    glyph_names: &NameMap<char>,
    standard: &NameMap<StandardFont>,
) -> (widths: PageFontWidths)
    ensures
        widths@.map_values(|info: FontWidthInfo| info@) == page_widths(
            doc@,
            fonts@,
            glyph_names@,
            standard@,
        ),
{
    let mut widths: PageFontWidths = NameMap::new();
    assert(widths@.map_values(|info: FontWidthInfo| info@) == page_widths(
        doc@,
        fonts@.take(0),
        glyph_names@,
        standard@,
    ));
    for i in 0..fonts.len()
        invariant
            widths@.map_values(|info: FontWidthInfo| info@) == page_widths(
                doc@,
                fonts@.take(i as int),
                glyph_names@,
                standard@,
            ),
    {
        assert(fonts@.take(i + 1).drop_last() == fonts@.take(i as int));
        let ghost before = widths@;
        match parse_font_widths(doc, fonts[i].1, glyph_names, standard) {
            Some(info) => {
                let name = lossy_text(fonts[i].0.as_slice());
                let ghost view = info@;
                widths.insert(name, info);
                assert(widths@.map_values(|info: FontWidthInfo| info@) =~= before.map_values(
                    |info: FontWidthInfo| info@,
                ).insert(name@, view));
            },
            None => {},
        }
    }
    assert(fonts@.take(fonts@.len() as int) == fonts@);
    widths
}

/// One code of an operand: its width in font units, and whether word spacing applies to it.
#[derive(Debug, Copy, Clone, PartialEq, Eq, Structural)]
pub struct RawGlyphWidth {
    pub code: u16,
    pub raw_width: u16,
    pub is_space: bool,
}

/// The codes of an operand: pairs of bytes for a composite font, single bytes otherwise.
pub open spec fn operand_codes(bytes: Seq<u8>, is_cid: bool) -> Seq<u16> {
    if is_cid {
        be_pairs(bytes)
    } else {
        bytes.map_values(|b: u8| b as u16)
    }
}

/// The width of one code.
pub open spec fn code_width(code: u16, info: WidthsView) -> RawGlyphWidth {
    RawGlyphWidth {
        code,
        raw_width: if info.widths.contains_key(code) {
            info.widths[code]
        } else {
            info.default_width
        },
        is_space: code == 32,
    }
}

/// The widths of an operand's codes.
pub open spec fn raw_widths(bytes: Seq<u8>, info: WidthsView) -> Seq<RawGlyphWidth> {
    operand_codes(bytes, info.is_cid).map_values(|code: u16| code_width(code, info))
}

/// The width of one code.
fn width_of_code(code: u16, info: &FontWidthInfo) -> (w: RawGlyphWidth)
    ensures
        w == code_width(code, info@),
{
    RawGlyphWidth {
        code,
        raw_width: match info.widths.get(&code) {
            Some(w) => *w,
            None => info.default_width,
        },
        is_space: code == 32,
    }
}

/// The widths of an operand's codes, in font units.
pub fn raw_glyph_widths(bytes: &[u8], font_info: &FontWidthInfo) -> (out: Vec<RawGlyphWidth>)
    ensures
        out@ == raw_widths(bytes@, font_info@),
{
    let mut out: Vec<RawGlyphWidth> = Vec::new();
    if font_info.is_cid {
        let codes = pairs_of(bytes);
        for i in 0..codes.len()
            invariant
                codes@ == be_pairs(bytes@),
                font_info.is_cid,
                out@ == raw_widths(bytes@, font_info@).take(i as int),
        {
            out.push(width_of_code(codes[i], font_info));
        }
    } else {
        for i in 0..bytes.len()
            invariant
                !font_info.is_cid,
                out@ == raw_widths(bytes@, font_info@).take(i as int),
        {
            out.push(width_of_code(bytes[i] as u16, font_info));
        }
    }
    out
}

/// An operand's widths come one for each pair of bytes or for each byte.
pub proof fn law_one_width_per_code(bytes: Seq<u8>, info: WidthsView)
    ensures
        raw_widths(bytes, info).len() == if info.is_cid {
            bytes.len() / 2
        } else {
            bytes.len()
        },
{
}

/// The `/FontMatrix` of a font that is no Type3 font has no say: the font has the scale of a
/// thousandth, and its space, where it has no width of its own, is 250 units wide.
pub proof fn law_only_type3_fonts_have_a_scale_of_their_own(
    doc: Map<ObjectId, Object>,
    font_dict: Dictionary,
)
    requires
        !has_name(font_dict, "Subtype"@, "Type3"@),
    ensures
        simple_font_widths(doc, font_dict) matches Some(info) ==> info.units_scale
            == UnitsScale::Thousandth && info.space_width == SpaceWidth::Units(
            if info.widths.contains_key(32) && info.widths[32] != 0 {
                info.widths[32]
            } else {
                250
            },
        ),
{
}

}
