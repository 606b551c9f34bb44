//! What reading annotations promises.

use crate::annotations::{
    annot_items, appearance_bbox_of, appearance_matrix_of, appearance_of, appearance_views,
    contents_view, free_text, free_texts, is_hidden, page_annots, text_source, AnnotTextView,
    AnnotView,
};
use crate::items::{is_cid_resource, ItemType, ItemView};
use crate::number::{as_i64, through_real, Number};
use crate::object::{
    array_entry, dict_entry, dict_of, entry, has_name, reference_entry, Dictionary, Object,
    ObjectId,
};
use crate::text::{is_white_space, leading_space, trimmed, without_trailing_space};
use crate::text_laws::{is_blank, law_flags, law_trimming};
use vstd::prelude::*;
use vstd::string::*;

verus! {

/// An annotation is hidden by two of its flags, and by no other; without flags it is shown.
pub proof fn law_hidden_annotations(dict: Dictionary, n: i64, bits: u32)
    ensures
        entry(dict, "F"@) is None ==> !is_hidden(dict),
        entry(dict, "F"@) matches Some(object) && !(object is Integer) && !(object is Real)
            ==> !is_hidden(dict),
        entry(dict, "F"@) == Some(Object::Integer(n)) && -0x100_0000 < n < 0x100_0000 ==> (
        is_hidden(dict) <==> n & 0x02 != 0 || n & 0x20 != 0),
        entry(dict, "F"@) == Some(Object::Integer(n)) ==> (is_hidden(dict) <==> through_real(n)
            & 0x02 != 0 || through_real(n) & 0x20 != 0),
        entry(dict, "F"@) == Some(Object::Real(bits)) ==> (is_hidden(dict) <==> as_i64(bits) & 0x02
            != 0 || as_i64(bits) & 0x20 != 0),
{
    law_flags(n, bits);
    let m = as_i64(bits);
    let r = through_real(n);
    assert(r & (0x02i64 | 0x20i64) != 0 <==> r & 0x02 != 0 || r & 0x20 != 0) by (bit_vector);
    assert(n & (0x02i64 | 0x20i64) != 0 <==> n & 0x02 != 0 || n & 0x20 != 0) by (bit_vector);
    assert(m & (0x02i64 | 0x20i64) != 0 <==> m & 0x02 != 0 || m & 0x20 != 0) by (bit_vector);
    assert(0i64 & (0x02i64 | 0x20i64) == 0) by (bit_vector);
}

/// The appearance of an annotation is the stream that `/N` of its `/AP` refers to; what is no
/// stream is no appearance.
pub proof fn law_appearances(
    doc: Map<ObjectId, Object>,
    dict: Dictionary,
    ap: Dictionary,
    id: ObjectId,
)
    ensures
        dict_entry(doc, dict, "AP"@) is None ==> appearance_of(doc, dict) is None,
        dict_entry(doc, dict, "AP"@) == Some(ap) && reference_entry(ap, "N"@) is None
            ==> appearance_of(doc, dict) is None,
        dict_entry(doc, dict, "AP"@) == Some(ap) && reference_entry(ap, "N"@) == Some(id) ==> (
        appearance_of(doc, dict) == if doc.contains_key(id) && doc[id] is Stream {
            Some(id)
        } else {
            None
        }),
{
}

/// The number that an object is; 0 for what is none.
pub open spec fn number_in(object: Object) -> Number {
    match object {
        Object::Integer(n) => Number::Integer(n),
        Object::Real(bits) => Number::Real(bits),
        _ => Number::Integer(0),
    }
}

/// Every free-text annotation that is shown and has a rectangle of four items or more is read: with
/// the first four items of the rectangle, the bytes of its contents, and its appearance.
pub proof fn law_shown_free_text_is_read(
    doc: Map<ObjectId, Object>,
    object: Object,
    dict: Dictionary,
    rect: Vec<Object>,
)
    requires
        dict_of(doc, object) == Some(dict),
        has_name(dict, "Subtype"@, "FreeText"@),
        !is_hidden(dict),
        entry(dict, "Rect"@) == Some(Object::Array(rect)),
        rect@.len() >= 4,
    ensures
        free_text(doc, object) matches Some(annot) && {
            &&& annot.rect.len() == 4
            &&& forall|i: int| 0 <= i < 4 ==> #[trigger] annot.rect[i] == number_in(rect@[i])
            &&& entry(dict, "Contents"@) matches Some(Object::String(bytes)) ==> annot.contents
                == Some(bytes@)
            &&& !(entry(dict, "Contents"@) matches Some(Object::String(_))) ==> annot.contents
                is None
            &&& annot.ap_form_id == appearance_of(doc, dict)
        },
{
}

/// No other annotation is read.
pub proof fn law_nothing_else_is_read(doc: Map<ObjectId, Object>, object: Object)
    ensures
        dict_of(doc, object) is None ==> free_text(doc, object) is None,
        dict_of(doc, object) matches Some(dict) && !has_name(dict, "Subtype"@, "FreeText"@)
            ==> free_text(doc, object) is None,
        dict_of(doc, object) matches Some(dict) && is_hidden(dict) ==> free_text(doc, object)
            is None,
        dict_of(doc, object) matches Some(dict) && !(entry(dict, "Rect"@) matches Some(
            Object::Array(rect),
        ) && rect@.len() >= 4) ==> free_text(doc, object) is None,
{
}

/// The annotations of a page that are read come out in their order, none left out.
pub proof fn law_annotations_come_in_order(doc: Map<ObjectId, Object>, annots: Seq<Object>)
    ensures
        free_texts(doc, annots) == annots.filter_map(|object: Object| free_text(doc, object)),
    decreases annots.len(),
{
    if annots.len() > 0 {
        law_annotations_come_in_order(doc, annots.drop_last());
    }
    assert(free_texts(doc, annots) =~= annots.filter_map(|object: Object| free_text(doc, object)));
}

/// The annotations of a page are those of its `/Annots`.
pub proof fn law_page_annotations(doc: Map<ObjectId, Object>, page_id: ObjectId, page: Dictionary)
    ensures
        doc.contains_key(page_id) && doc[page_id] == Object::Dictionary(page) ==> page_annots(
            doc,
            page_id,
        ) == (match array_entry(doc, page, "Annots"@) {
            Some(annots) => annots,
            None => Seq::empty(),
        }),
        !(doc.contains_key(page_id) && doc[page_id] is Dictionary) ==> page_annots(
            doc,
            page_id,
        ).len() == 0,
{
}

proof fn lemma_leading_stops(s: Seq<char>, i: int)
    requires
        0 <= i < s.len(),
        !is_white_space(s[i]),
    ensures
        leading_space(s) <= i,
    decreases s.len(),
{
    if is_white_space(s[0]) {
        assert(s.skip(1)[i - 1] == s[i]);
        lemma_leading_stops(s.skip(1), i - 1);
    }
}

proof fn lemma_trailing_stops(s: Seq<char>, i: int)
    requires
        0 <= i < s.len(),
        !is_white_space(s[i]),
    ensures
        i < without_trailing_space(s),
    decreases s.len(),
{
    if is_white_space(s.last()) {
        lemma_trailing_stops(s.drop_last(), i);
    }
}

proof fn lemma_blank(s: Seq<char>)
    ensures
        trimmed(s).len() == 0 <==> is_blank(s),
{
    if is_blank(s) {
        law_trimming(s, Seq::empty(), Seq::empty());
        assert(s + Seq::<char>::empty() + Seq::<char>::empty() =~= s);
    } else {
        let i = choose|i: int| 0 <= i < s.len() && !is_white_space(#[trigger] s[i]);
        lemma_leading_stops(s, i);
        let front = s.skip(leading_space(s) as int);
        assert(front[i - leading_space(s)] == s[i]);
        lemma_trailing_stops(front, i - leading_space(s));
        lemma_trailing_len(front);
    }
}

proof fn lemma_trailing_len(s: Seq<char>)
    ensures
        without_trailing_space(s) <= s.len(),
    decreases s.len(),
{
    if s.len() > 0 && is_white_space(s.last()) {
        lemma_trailing_len(s.drop_last());
    }
}

/// The text of an annotation is its contents without the white space round them; where they are
/// blank or absent it is what the appearance shows, and without one there is none.
pub proof fn law_text_of_annotations(
    annot: AnnotView,
    front: Seq<char>,
    core: Seq<char>,
    back: Seq<char>,
)
    requires
        is_blank(front),
        is_blank(back),
        core.len() > 0 ==> !is_white_space(core[0]) && !is_white_space(core.last()),
    ensures
        core.len() > 0 ==> text_source(annot, Some(front + core + back)) == AnnotTextView::Contents(
            core,
        ),
        core.len() == 0 ==> text_source(annot, Some(front + core + back)) == text_source(
            annot,
            None,
        ),
        annot.ap_form_id matches Some(id) ==> text_source(annot, None)
            == AnnotTextView::Appearance(id),
        annot.ap_form_id is None ==> text_source(annot, None) == AnnotTextView::Nowhere,
{
    law_trimming(front, core, back);
}

/// The contents of an annotation are one item: their text at the annotation's rectangle, without
/// a font and without style.
pub proof fn law_contents_are_one_item(
    text: Seq<char>,
    rect: (u32, u32, u32, u32),
    shown: Seq<ItemView>,
    page: u32,
)
    ensures
        ({
            let items = annot_items(AnnotTextView::Contents(text), rect, shown, page);
            &&& items.len() == 1
            &&& items[0] == contents_view(text, rect, page)
            &&& items[0].text == text
            &&& items[0].x == rect.0 && items[0].y == rect.1
            &&& items[0].width == rect.2 && items[0].height == rect.3
            &&& items[0].page == page
            &&& items[0].font.len() == 0 && items[0].font_size == 0
            &&& !items[0].is_bold && !items[0].is_italic
            &&& !items[0].is_underline && !items[0].is_strikeout
            &&& items[0].item_type == ItemType::Annotation
            &&& items[0].mcid is None
        }),
        annot_items(AnnotTextView::Nowhere, rect, shown, page).len() == 0,
{
}

/// An appearance gives the items that it shows, but the blank ones, in their order: each as it is,
/// but marked as the annotation's and without marked content.
pub proof fn law_appearances_give_what_they_show(
    id: ObjectId,
    rect: (u32, u32, u32, u32),
    shown: Seq<ItemView>,
    page: u32,
)
    ensures
        annot_items(AnnotTextView::Appearance(id), rect, shown, page) == shown.filter(
            |item: ItemView| !is_blank(item.text),
        ).map_values(
            |item: ItemView| ItemView { item_type: ItemType::Annotation, mcid: None, ..item },
        ),
{
    lemma_appearance(shown);
}

proof fn lemma_appearance(shown: Seq<ItemView>)
    ensures
        appearance_views(shown) == shown.filter(
            |item: ItemView| !is_blank(item.text),
        ).map_values(
            |item: ItemView| ItemView { item_type: ItemType::Annotation, mcid: None, ..item },
        ),
    decreases shown.len(),
{
    reveal(Seq::filter);
    if shown.len() > 0 {
        lemma_appearance(shown.drop_last());
        lemma_blank(shown.last().text);
    }
    assert(appearance_views(shown) =~= shown.filter(
        |item: ItemView| !is_blank(item.text),
    ).map_values(
        |item: ItemView| ItemView { item_type: ItemType::Annotation, mcid: None, ..item },
    ));
}

/// An appearance is placed by the first four numbers of its `/BBox`, and by the first six of its
/// `/Matrix`; what is no number in the matrix, and a matrix that is too short, is the identity's.
pub proof fn law_appearances_are_placed(
    dict: Dictionary,
    bbox: Vec<Object>,
    matrix: Vec<Object>,
    i: int,
)
    ensures
        !(entry(dict, "BBox"@) matches Some(Object::Array(_))) ==> appearance_bbox_of(dict) is None,
        entry(dict, "BBox"@) == Some(Object::Array(bbox)) ==> {
            &&& bbox@.len() < 4 ==> appearance_bbox_of(dict) is None
            &&& bbox@.len() >= 4 && 0 <= i < 4 && !(bbox@[i] is Integer) && !(bbox@[i] is Real)
                ==> appearance_bbox_of(dict) is None
            &&& bbox@.len() >= 4 && (forall|k: int|
                0 <= k < 4 ==> #[trigger] bbox@[k] is Integer || bbox@[k] is Real) ==> (
            appearance_bbox_of(dict) matches Some(numbers) && numbers.len() == 4 && (0 <= i < 4
                ==> numbers[i] == number_in(bbox@[i])))
        },
        appearance_matrix_of(dict).len() == 6,
        !(entry(dict, "Matrix"@) matches Some(Object::Array(_))) && 0 <= i < 6
            ==> appearance_matrix_of(dict)[i] == Number::Integer(
            if i == 0 || i == 3 {
                1
            } else {
                0
            },
        ),
        entry(dict, "Matrix"@) == Some(Object::Array(matrix)) && 0 <= i < 6
            ==> appearance_matrix_of(dict)[i] == if matrix@.len() >= 6 && (matrix@[i] is Integer
            || matrix@[i] is Real) {
            number_in(matrix@[i])
        } else {
            Number::Integer(
                if i == 0 || i == 3 {
                    1
                } else {
                    0
                },
            )
        },
{
    if entry(dict, "BBox"@) == Some(Object::Array(bbox)) && bbox@.len() >= 4 {
        if 0 <= i < 4 && !(bbox@[i] is Integer) && !(bbox@[i] is Real) {
            assert(crate::object::number_of(bbox@[i]) is None);
        }
        if forall|k: int| 0 <= k < 4 ==> #[trigger] bbox@[k] is Integer || bbox@[k] is Real {
            assert forall|k: int| 0 <= k < 4 implies crate::object::number_of(#[trigger] bbox@[k])
                is Some by {
                assert(bbox@[k] is Integer || bbox@[k] is Real);
            }
        }
    }
}

/// The resource names of composite fonts begin with C2_ or C0_.
pub proof fn law_composite_resources(rest: Seq<char>, name: Seq<char>)
    ensures
        is_cid_resource(seq!['C', '2', '_'] + rest),
        is_cid_resource(seq!['C', '0', '_'] + rest),
        is_cid_resource(name) ==> name.len() >= 3 && name[0] == 'C' && (name[1] == '2' || name[1]
            == '0') && name[2] == '_',
{
    reveal_strlit("C2_");
    reveal_strlit("C0_");
    let two = seq!['C', '2', '_'];
    let zero = seq!['C', '0', '_'];
    assert("C2_"@ =~= two);
    assert("C0_"@ =~= zero);
    assert((two + rest).subrange(0, 3) =~= two);
    assert((zero + rest).subrange(0, 3) =~= zero);
    if two.is_prefix_of(name) {
        assert(name.subrange(0, 3)[0] == 'C' && name.subrange(0, 3)[1] == '2' && name.subrange(
            0,
            3,
        )[2] == '_');
    }
    if zero.is_prefix_of(name) {
        assert(name.subrange(0, 3)[0] == 'C' && name.subrange(0, 3)[1] == '0' && name.subrange(
            0,
            3,
        )[2] == '_');
    }
}

}
