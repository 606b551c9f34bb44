//! Type3 fonts whose declared size says nothing of the size of their glyphs.

use crate::names::NameMap;
use crate::number::{is_less, less, Number, INFINITY};
use crate::object::{
    array_entry, get_number, has_name, number_of, resolved, Dictionary, Document, Object, ObjectId,
};
use crate::unicode::{lossy_text, utf8_lossy};
use vstd::prelude::*;
use vstd::string::*;

verus! {

/// The bits of 0.25, the smallest scale that leaves a font's size as declared.
pub const CONSISTENT_LO: u32 = 0x3E80_0000;

/// The bits of 4.0, the largest.
pub const CONSISTENT_HI: u32 = 0x4080_0000;

/// The numbers that tell the height of a Type3 font's glyphs in text space: the second row of
/// its `/FontMatrix`, and the bottom and top of its `/FontBBox`.
#[derive(Debug, Copy, Clone, PartialEq, Eq, Structural)]
pub struct GlyphBox {
    pub matrix_c: Number,
    pub matrix_d: Number,
    pub bottom: Number,
    pub top: Number,
}

/// A number, given directly or by reference; 0 for anything else.
pub open spec fn number_or_zero(doc: Map<ObjectId, Object>, object: Object) -> Number {
    match resolved(doc, object) {
        Some(object) => match number_of(object) {
            Some(number) => number,
            None => Number::Integer(0),
        },
        None => Number::Integer(0),
    }
}

/// The glyph box of a Type3 font that has a matrix and a bounding box.
pub open spec fn glyph_box(doc: Map<ObjectId, Object>, font_dict: Dictionary) -> Option<GlyphBox> {
    if !has_name(font_dict, "Subtype"@, "Type3"@) {
        None
    } else {
        match (
            array_entry(doc, font_dict, "FontMatrix"@),
            array_entry(doc, font_dict, "FontBBox"@),
        ) {
            (Some(matrix), Some(bbox)) => if matrix.len() >= 4 && bbox.len() >= 4 {
                Some(
                    GlyphBox {
                        matrix_c: number_or_zero(doc, matrix[2]),
                        matrix_d: number_or_zero(doc, matrix[3]),
                        bottom: number_or_zero(doc, bbox[1]),
                        top: number_or_zero(doc, bbox[3]),
                    },
                )
            } else {
                None
            },
            _ => None,
        }
    }
}

/// The glyph boxes of a page's Type3 fonts, by resource name and in the order of the fonts.
pub open spec fn page_boxes(
    doc: Map<ObjectId, Object>,
    fonts: Seq<(Vec<u8>, &Dictionary)>,
) -> Seq<(Seq<char>, GlyphBox)>
    decreases fonts.len(),
{
    if fonts.len() == 0 {
        Seq::empty()
    } else {
        let front = page_boxes(doc, fonts.drop_last());
        match glyph_box(doc, *fonts.last().1) {
            Some(glyphs) => front.push((utf8_lossy(fonts.last().0@), glyphs)),
            None => front,
        }
    }
}

/// A scale that renormalizes a font's size: a finite number above 0 and outside the band in
/// which the declared size is taken as it is.
pub open spec fn is_inconsistent(scale: u32) -> bool {
    &&& is_less(0, scale)
    &&& is_less(scale, INFINITY)
    &&& is_less(scale, CONSISTENT_LO) || is_less(CONSISTENT_HI, scale)
}

/// The scales that renormalize, by resource name.
pub open spec fn kept_scales(scales: Seq<(String, u32)>) -> Map<Seq<char>, u32>
    decreases scales.len(),
{
    if scales.len() == 0 {
        Map::empty()
    } else {
        let front = kept_scales(scales.drop_last());
        if is_inconsistent(scales.last().1) {
            front.insert(scales.last().0@, scales.last().1)
        } else {
            front
        }
    }
}

/// A number, given directly or by reference; 0 for anything else.
fn number_at(doc: &Document, object: &Object) -> (number: Number)
    ensures
        number == number_or_zero(doc@, *object),
{
    let found = match object {
        Object::Reference(id) => match doc.get_object(*id) {
            Some(object) => get_number(object),
            None => None,
        },
        _ => get_number(object),
    };
    match found {
        Some(number) => number,
        None => Number::Integer(0),
    }
}

/// The glyph box of a Type3 font.
pub fn type3_box(doc: &Document, font_dict: &Dictionary) -> (r: Option<GlyphBox>)
    ensures
        r == glyph_box(doc@, *font_dict),
{
    if !font_dict.names("Subtype", "Type3") {
        return None;
    }
    let matrix = match font_dict.get_array(doc, "FontMatrix") {
        Some(items) => items,
        None => return None,
    };
    let bbox = match font_dict.get_array(doc, "FontBBox") {
        Some(items) => items,
        None => return None,
    };
    if matrix.len() < 4 || bbox.len() < 4 {
        return None;
    }
    Some(
        GlyphBox {
            matrix_c: number_at(doc, &matrix[2]),
            matrix_d: number_at(doc, &matrix[3]),
            bottom: number_at(doc, &bbox[1]),
            top: number_at(doc, &bbox[3]),
        },
    )
}

/// The glyph boxes of a page's Type3 fonts.
pub fn type3_boxes(doc: &Document, fonts: &[(Vec<u8>, &Dictionary)]) -> (boxes: Vec<
    (String, GlyphBox),
>)
    ensures
        boxes@.map_values(|b: (String, GlyphBox)| (b.0@, b.1)) == page_boxes(doc@, fonts@),
{
    let mut boxes: Vec<(String, GlyphBox)> = Vec::new();
    for i in 0..fonts.len()
        invariant
            boxes@.map_values(|b: (String, GlyphBox)| (b.0@, b.1)) == page_boxes(
                doc@,
                fonts@.take(i as int),
            ),
    {
        assert(fonts@.take(i + 1).drop_last() == fonts@.take(i as int));
        let ghost before = boxes@;
        match type3_box(doc, fonts[i].1) {
            Some(glyphs) => {
                let name = lossy_text(fonts[i].0.as_slice());
                boxes.push((name, glyphs));
                assert(boxes@.map_values(|b: (String, GlyphBox)| (b.0@, b.1))
                    =~= before.map_values(|b: (String, GlyphBox)| (b.0@, b.1)).push(
                    (name@, glyphs),
                ));
            },
            None => {},
        }
    }
    assert(fonts@.take(fonts@.len() as int) == fonts@);
    boxes
}

/// Whether a scale renormalizes a font's size.
pub fn inconsistent_scale(scale: u32) -> (r: bool)
    ensures
        r == is_inconsistent(scale),
{
    less(0, scale) && less(scale, INFINITY) && (less(scale, CONSISTENT_LO) || less(
        CONSISTENT_HI,
        scale,
    ))
}

/// The scales of a page's Type3 fonts by resource name, without those that leave the size as
/// declared.
pub fn build_type3_scales(scales: Vec<(String, u32)>) -> (kept: NameMap<u32>)
    ensures
        kept@ == kept_scales(scales@),
{
    let mut kept: NameMap<u32> = NameMap::new();
    for i in 0..scales.len()
        invariant
            kept@ == kept_scales(scales@.take(i as int)),
    {
        assert(scales@.take(i + 1).drop_last() == scales@.take(i as int));
        if inconsistent_scale(scales[i].1) {
            kept.insert(scales[i].0.clone(), scales[i].1);
        }
    }
    assert(scales@.take(scales@.len() as int) == scales@);
    kept
}

/// A font that is kept has a scale outside the band; one inside it is treated as scale 1.
pub proof fn law_kept_scales_are_inconsistent(scales: Seq<(String, u32)>, name: Seq<char>)
    requires
        kept_scales(scales).contains_key(name),
    ensures
        is_inconsistent(kept_scales(scales)[name]),
    decreases scales.len(),
{
    if scales.len() > 0 && !(is_inconsistent(scales.last().1) && scales.last().0@ == name) {
        law_kept_scales_are_inconsistent(scales.drop_last(), name);
    }
}

}
