//! What finding Type3 fonts of an unusual size promises.

use crate::annotation_laws::number_in;
use crate::number::Number;
use crate::object::{array_entry, has_name, Dictionary, Object, ObjectId};
use crate::type3::{glyph_box, is_inconsistent, kept_scales, number_or_zero, page_boxes, GlyphBox};
use crate::unicode::utf8_lossy;
use vstd::prelude::*;
use vstd::string::*;

verus! {

/// A number may be given by reference, and counts as 0 where it is none.
pub proof fn law_numbers_by_reference(doc: Map<ObjectId, Object>, object: Object, id: ObjectId)
    ensures
        !(object is Reference) ==> number_or_zero(doc, object) == number_in(object),
        doc.contains_key(id) ==> number_or_zero(doc, Object::Reference(id)) == number_in(doc[id]),
        !doc.contains_key(id) ==> number_or_zero(doc, Object::Reference(id)) == Number::Integer(0),
{
}

/// The glyph box of a Type3 font is told by the third and fourth number of its matrix, and by the
/// second and fourth of its bounding box. Other fonts, and fonts that lack one of the two or have
/// fewer than four items in it, have none.
pub proof fn law_glyph_boxes(
    doc: Map<ObjectId, Object>,
    font_dict: Dictionary,
    matrix: Seq<Object>,
    bbox: Seq<Object>,
)
    ensures
        !has_name(font_dict, "Subtype"@, "Type3"@) ==> glyph_box(doc, font_dict) is None,
        array_entry(doc, font_dict, "FontMatrix"@) is None || array_entry(
            doc,
            font_dict,
            "FontBBox"@,
        ) is None ==> glyph_box(doc, font_dict) is None,
        has_name(font_dict, "Subtype"@, "Type3"@) && array_entry(doc, font_dict, "FontMatrix"@)
            == Some(matrix) && array_entry(doc, font_dict, "FontBBox"@) == Some(bbox) ==> {
            &&& matrix.len() < 4 || bbox.len() < 4 ==> glyph_box(doc, font_dict) is None
            &&& matrix.len() >= 4 && bbox.len() >= 4 ==> (glyph_box(doc, font_dict) matches Some(
                glyphs,
            ) && glyphs.matrix_c == number_or_zero(doc, matrix[2]) && glyphs.matrix_d
                == number_or_zero(doc, matrix[3]) && glyphs.bottom == number_or_zero(doc, bbox[1])
                && glyphs.top == number_or_zero(doc, bbox[3]))
        },
{
}

/// The glyph boxes of a page are those of its fonts, in the order of the fonts, none left out.
pub proof fn law_boxes_come_in_order(
    doc: Map<ObjectId, Object>,
    fonts: Seq<(Vec<u8>, &Dictionary)>,
)
    ensures
        page_boxes(doc, fonts) == fonts.filter_map(
            |font: (Vec<u8>, &Dictionary)|
                match glyph_box(doc, *font.1) {
                    Some(glyphs) => Some((utf8_lossy(font.0@), glyphs)),
                    None => None::<(Seq<char>, GlyphBox)>,
                },
        ),
    decreases fonts.len(),
{
    if fonts.len() > 0 {
        law_boxes_come_in_order(doc, fonts.drop_last());
    }
    assert(page_boxes(doc, fonts) =~= fonts.filter_map(
        |font: (Vec<u8>, &Dictionary)|
            match glyph_box(doc, *font.1) {
                Some(glyphs) => Some((utf8_lossy(font.0@), glyphs)),
                None => None::<(Seq<char>, GlyphBox)>,
            },
    ));
}

/// A scale is unusual where it lies between 0 and 0.25, or above 4 and below infinity; the bits of
/// numbers above 0 are in the order of the numbers.
pub proof fn law_unusual_scales(scale: u32)
    ensures
        is_inconsistent(scale) <==> 0 < scale < 0x3E80_0000 || 0x4080_0000 < scale < 0x7F80_0000,
{
}

/// Every unusual scale is kept under the name of its font, unless a later one has the same name.
pub proof fn law_unusual_scales_are_kept(scales: Seq<(String, u32)>, i: int)
    requires
        0 <= i < scales.len(),
        is_inconsistent(scales[i].1),
        forall|j: int|
            i < j < scales.len() && is_inconsistent((#[trigger] scales[j]).1) ==> scales[j].0@
                != scales[i].0@,
    ensures
        kept_scales(scales).contains_key(scales[i].0@),
        kept_scales(scales)[scales[i].0@] == scales[i].1,
    decreases scales.len(),
{
    if i < scales.len() - 1 {
        let front = scales.drop_last();
        assert forall|j: int|
            i < j < front.len() && is_inconsistent((#[trigger] front[j]).1) implies front[j].0@
            != front[i].0@ by {
            assert(front[j] == scales[j]);
        }
        law_unusual_scales_are_kept(front, i);
        assert(is_inconsistent(scales[scales.len() - 1].1) ==> scales[scales.len() - 1].0@
            != scales[i].0@);
    }
}

/// No other scale is kept.
pub proof fn law_no_other_scales(scales: Seq<(String, u32)>, name: Seq<char>)
    requires
        forall|j: int|
            0 <= j < scales.len() && is_inconsistent((#[trigger] scales[j]).1) ==> scales[j].0@
                != name,
    ensures
        !kept_scales(scales).contains_key(name),
    decreases scales.len(),
{
    if scales.len() > 0 {
        let front = scales.drop_last();
        assert forall|j: int|
            0 <= j < front.len() && is_inconsistent((#[trigger] front[j]).1) implies front[j].0@
            != name by {
            assert(front[j] == scales[j]);
        }
        law_no_other_scales(front, name);
        assert(is_inconsistent(scales[scales.len() - 1].1) ==> scales[scales.len() - 1].0@ != name);
    }
}

}
