//! Free-text annotations: which of them have text to extract, and where it comes from.

use crate::items::{item_views, ItemType, ItemView, TextItem};
use crate::number::{flag_bits, flags, Number};
use crate::object::{
    array_entry, dict_entry, dict_of, entry, get_number, has_name, number_of, object_at,
    reference_entry, resolve_dict, Dictionary, Document, Object, ObjectId,
};
use crate::text::{opt_text, trim, trimmed};
use vstd::prelude::*;
use vstd::slice::slice_to_vec;
use vstd::string::*;

verus! {

/// The flag of an annotation that is not shown.
pub const ANNOT_FLAG_HIDDEN: i64 = 0x02;

/// The flag of an annotation that is not shown on the screen.
pub const ANNOT_FLAG_NOVIEW: i64 = 0x20;

/// A free-text annotation: the numbers of its `/Rect`, its `/Contents` as they stand, and the
/// stream that shows it.
#[derive(Debug)]
pub struct FreeTextAnnot {
    pub rect: [Number; 4],
    pub contents: Option<Vec<u8>>,
    pub ap_form_id: Option<ObjectId>,
}

/// A free-text annotation.
pub struct AnnotView {
    pub rect: Seq<Number>,
    pub contents: Option<Seq<u8>>,
    pub ap_form_id: Option<ObjectId>,
}

impl View for FreeTextAnnot {
    type V = AnnotView;

    open spec fn view(&self) -> AnnotView {
        AnnotView {
            rect: self.rect@,
            contents: match self.contents {
                Some(bytes) => Some(bytes@),
                None => None,
            },
            ap_form_id: self.ap_form_id,
        }
    }
}

/// The views of some annotations.
pub open spec fn annot_views(annots: Seq<FreeTextAnnot>) -> Seq<AnnotView> {
    annots.map_values(|annot: FreeTextAnnot| annot@)
}

/// An object's value as a number, or what counts where it is none.
pub open spec fn number_or(object: Object, default: i64) -> Number {
    match number_of(object) {
        Some(number) => number,
        None => Number::Integer(default),
    }
}

/// An annotation's flags.
pub open spec fn annot_flags(dict: Dictionary) -> i64 {
    match entry(dict, "F"@) {
        Some(object) => match number_of(object) {
            Some(number) => flag_bits(number),
            None => 0,
        },
        None => 0,
    }
}

/// Whether an annotation is not shown.
pub open spec fn is_hidden(dict: Dictionary) -> bool {
    annot_flags(dict) & (ANNOT_FLAG_HIDDEN | ANNOT_FLAG_NOVIEW) != 0
}

/// The stream that shows an annotation: `/N` of its `/AP`, where that refers to a stream.
pub open spec fn appearance_of(doc: Map<ObjectId, Object>, dict: Dictionary) -> Option<ObjectId> {
    match dict_entry(doc, dict, "AP"@) {
        Some(ap) => match reference_entry(ap, "N"@) {
            Some(id) => match object_at(doc, id) {
                Some(Object::Stream(_)) => Some(id),
                _ => None,
            },
            None => None,
        },
        None => None,
    }
}

/// A free-text annotation that is shown and has a rectangle.
pub open spec fn free_text(doc: Map<ObjectId, Object>, object: Object) -> Option<AnnotView> {
    match dict_of(doc, object) {
        Some(dict) => if has_name(dict, "Subtype"@, "FreeText"@) && !is_hidden(dict) {
            match entry(dict, "Rect"@) {
                Some(Object::Array(rect)) => if rect@.len() >= 4 {
                    Some(
                        AnnotView {
                            rect: Seq::new(4, |i: int| number_or(rect@[i], 0)),
                            contents: match entry(dict, "Contents"@) {
                                Some(Object::String(bytes)) => Some(bytes@),
                                _ => None,
                            },
                            ap_form_id: appearance_of(doc, dict),
                        },
                    )
                } else {
                    None
                },
                _ => None,
            }
        } else {
            None
        },
        None => None,
    }
}

/// The free-text annotations among some annotations, in their order.
pub open spec fn free_texts(doc: Map<ObjectId, Object>, annots: Seq<Object>) -> Seq<AnnotView>
    decreases annots.len(),
{
    if annots.len() == 0 {
        Seq::empty()
    } else {
        let front = free_texts(doc, annots.drop_last());
        match free_text(doc, annots.last()) {
            Some(annot) => front.push(annot),
            None => front,
        }
    }
}

/// The annotations of a page.
pub open spec fn page_annots(doc: Map<ObjectId, Object>, page_id: ObjectId) -> Seq<Object> {
    match dict_of(doc, Object::Reference(page_id)) {
        Some(page) => match array_entry(doc, page, "Annots"@) {
            Some(annots) => annots,
            None => Seq::empty(),
        },
        None => Seq::empty(),
    }
}

/// What an appearance stream is placed by: its `/BBox`, and its `/Matrix` or the identity.
#[derive(Debug)]
pub struct AppearanceBox {
    pub bbox: [Number; 4],
    pub matrix: [Number; 6],
}

/// The entries of the identity matrix.
pub open spec fn identity_entry(i: int) -> i64 {
    if i == 0 || i == 3 {
        1
    } else {
        0
    }
}

/// The matrix of an appearance stream.
pub open spec fn appearance_matrix_of(dict: Dictionary) -> Seq<Number> {
    match entry(dict, "Matrix"@) {
        Some(Object::Array(items)) => if items@.len() >= 6 {
            Seq::new(6, |i: int| number_or(items@[i], identity_entry(i)))
        } else {
            Seq::new(6, |i: int| Number::Integer(identity_entry(i)))
        },
        _ => Seq::new(6, |i: int| Number::Integer(identity_entry(i))),
    }
}

/// The bounding box of an appearance stream: four numbers.
pub open spec fn appearance_bbox_of(dict: Dictionary) -> Option<Seq<Number>> {
    match entry(dict, "BBox"@) {
        Some(Object::Array(items)) => if items@.len() >= 4 && forall|i: int|
            0 <= i < 4 ==> number_of(#[trigger] items@[i]) is Some {
            Some(Seq::new(4, |i: int| number_of(items@[i])->0))
        } else {
            None
        },
        _ => None,
    }
}

/// Where an annotation's text comes from.
#[derive(Debug)]
pub enum AnnotText {
    /// Its contents, trimmed.
    Contents(String),
    /// The stream that shows it.
    Appearance(ObjectId),
    Nowhere,
}

/// Where an annotation's text comes from.
pub enum AnnotTextView {
    Contents(Seq<char>),
    Appearance(ObjectId),
    Nowhere,
}

impl View for AnnotText {
    type V = AnnotTextView;

    open spec fn view(&self) -> AnnotTextView {
        match self {
            AnnotText::Contents(text) => AnnotTextView::Contents(text@),
            AnnotText::Appearance(id) => AnnotTextView::Appearance(*id),
            AnnotText::Nowhere => AnnotTextView::Nowhere,
        }
    }
}

/// An annotation's text is that of its contents, unless they are absent or blank; then it is
/// what its appearance shows.
pub open spec fn text_source(annot: AnnotView, contents: Option<Seq<char>>) -> AnnotTextView {
    if contents matches Some(text) && trimmed(text).len() > 0 {
        AnnotTextView::Contents(trimmed(contents->0))
    } else {
        match annot.ap_form_id {
            Some(id) => AnnotTextView::Appearance(id),
            None => AnnotTextView::Nowhere,
        }
    }
}

/// The item of an annotation's contents.
pub open spec fn contents_view(
    text: Seq<char>,
    rect: (u32, u32, u32, u32),
    page: u32,
) -> ItemView {
    ItemView {
        text,
        x: rect.0,
        y: rect.1,
        width: rect.2,
        height: rect.3,
        font: Seq::empty(),
        font_size: 0,
        page,
        is_bold: false,
        is_italic: false,
        is_underline: false,
        is_strikeout: false,
        item_type: ItemType::Annotation,
        mcid: None,
    }
}

/// The items of an appearance stream as those of the annotation: without the blank ones.
pub open spec fn appearance_views(items: Seq<ItemView>) -> Seq<ItemView>
    decreases items.len(),
{
    if items.len() == 0 {
        Seq::empty()
    } else {
        let front = appearance_views(items.drop_last());
        if trimmed(items.last().text).len() == 0 {
            front
        } else {
            front.push(
                ItemView { item_type: ItemType::Annotation, mcid: None, ..items.last() },
            )
        }
    }
}

/// The items of an annotation: one for its contents, to which the appearance adds nothing; else
/// those that its appearance shows.
pub open spec fn annot_items(
    source: AnnotTextView,
    rect: (u32, u32, u32, u32),
    shown: Seq<ItemView>,
    page: u32,
) -> Seq<ItemView> {
    match source {
        AnnotTextView::Contents(text) => seq![contents_view(text, rect, page)],
        AnnotTextView::Appearance(_) => appearance_views(shown),
        AnnotTextView::Nowhere => Seq::empty(),
    }
}

fn number_with_default(object: &Object, default: i64) -> (number: Number)
    ensures
        number == number_or(*object, default),
{
    match get_number(object) {
        Some(number) => number,
        None => Number::Integer(default),
    }
}

fn hidden(dict: &Dictionary) -> (r: bool)
    ensures
        r == is_hidden(*dict),
{
    let bits: i64 = match dict.get("F") {
        Some(object) => match get_number(object) {
            Some(number) => flags(number),
            None => 0,
        },
        None => 0,
    };
    bits & (ANNOT_FLAG_HIDDEN | ANNOT_FLAG_NOVIEW) != 0
}

fn find_appearance(doc: &Document, dict: &Dictionary) -> (id: Option<ObjectId>)
    ensures
        id == appearance_of(doc@, *dict),
{
    let ap = match dict.get_dict(doc, "AP") {
        Some(ap) => ap,
        None => return None,
    };
    match ap.get_reference("N") {
        Some(id) => match doc.get_object(id) {
            Some(Object::Stream(_)) => Some(id),
            _ => None,
        },
        None => None,
    }
}

/// Reads a free-text annotation.
pub fn read_free_text(doc: &Document, object: &Object) -> (annot: Option<FreeTextAnnot>)
    ensures
        match annot {
            Some(annot) => free_text(doc@, *object) == Some(annot@),
            None => free_text(doc@, *object) is None,
        },
{
    let dict = match resolve_dict(doc, object) {
        Some(dict) => dict,
        None => return None,
    };
    if !dict.names("Subtype", "FreeText") || hidden(dict) {
        return None;
    }
    let rect = match dict.get("Rect") {
        Some(Object::Array(rect)) => rect,
        _ => return None,
    };
    if rect.len() < 4 {
        return None;
    }
    let numbers: [Number; 4] = [
        number_with_default(&rect[0], 0),
        number_with_default(&rect[1], 0),
        number_with_default(&rect[2], 0),
        number_with_default(&rect[3], 0),
    ];
    assert(numbers@ =~= Seq::new(4, |i: int| number_or(rect@[i], 0)));
    let contents = match dict.get("Contents") {
        Some(Object::String(bytes)) => Some(slice_to_vec(bytes.as_slice())),
        _ => None,
    };
    Some(FreeTextAnnot { rect: numbers, contents, ap_form_id: find_appearance(doc, dict) })
}

/// The free-text annotations of a page that are shown.
pub fn collect_page_freetext_annots(doc: &Document, page_id: ObjectId) -> (out: Vec<FreeTextAnnot>)
    ensures
        annot_views(out@) == free_texts(doc@, page_annots(doc@, page_id)),
{
    let mut out: Vec<FreeTextAnnot> = Vec::new();
    assert(annot_views(out@) =~= free_texts(doc@, Seq::<Object>::empty()));
    let page = match doc.get_dictionary(page_id) {
        Some(page) => page,
        None => return out,
    };
    let annots = match page.get_array(doc, "Annots") {
        Some(annots) => annots,
        None => return out,
    };
    assert(annots@.take(0) =~= Seq::<Object>::empty());
    for i in 0..annots.len()
        invariant
            annot_views(out@) == free_texts(doc@, annots@.take(i as int)),
    {
        let ghost before = annot_views(out@);
        assert(annots@.take(i + 1).drop_last() =~= annots@.take(i as int));
        match read_free_text(doc, &annots[i]) {
            Some(annot) => {
                let ghost view = annot@;
                out.push(annot);
                assert(annot_views(out@) =~= before.push(view));
            },
            None => {},
        }
    }
    assert(annots@.take(annots@.len() as int) =~= annots@);
    out
}

/// What an appearance stream is placed by; none where it has no bounding box.
pub fn appearance_box(doc: &Document, ap_form_id: ObjectId) -> (r: Option<AppearanceBox>)
    ensures
        match object_at(doc@, ap_form_id) {
            Some(Object::Stream(stream)) => match appearance_bbox_of(stream.dict) {
                Some(bbox) => r matches Some(placed) && placed.bbox@ == bbox && placed.matrix@
                    == appearance_matrix_of(stream.dict),
                None => r is None,
            },
            _ => r is None,
        },
{
    let stream = match doc.get_object(ap_form_id) {
        Some(Object::Stream(stream)) => stream,
        _ => return None,
    };
    let items = match stream.dict.get("BBox") {
        Some(Object::Array(items)) => items,
        _ => return None,
    };
    if items.len() < 4 {
        return None;
    }
    let bbox: [Number; 4] = match (
        get_number(&items[0]),
        get_number(&items[1]),
        get_number(&items[2]),
        get_number(&items[3]),
    ) {
        (Some(a), Some(b), Some(c), Some(d)) => [a, b, c, d],
        _ => {
            assert(!(number_of(items@[0]) is Some && number_of(items@[1]) is Some && number_of(
                items@[2],
            ) is Some && number_of(items@[3]) is Some));
            return None;
        },
    };
    assert forall|i: int| 0 <= i < 4 implies number_of(#[trigger] items@[i]) is Some by {
        assert(i == 0 || i == 1 || i == 2 || i == 3);
    }
    assert(bbox@ =~= Seq::new(4, |i: int| number_of(items@[i])->0));
    let matrix = read_matrix(&stream.dict);
    Some(AppearanceBox { bbox, matrix })
}

fn read_matrix(dict: &Dictionary) -> (matrix: [Number; 6])
    ensures
        matrix@ == appearance_matrix_of(*dict),
{
    match dict.get("Matrix") {
        Some(Object::Array(items)) => {
            if items.len() >= 6 {
                let matrix: [Number; 6] = [
                    number_with_default(&items[0], 1),
                    number_with_default(&items[1], 0),
                    number_with_default(&items[2], 0),
                    number_with_default(&items[3], 1),
                    number_with_default(&items[4], 0),
                    number_with_default(&items[5], 0),
                ];
                assert(matrix@ =~= appearance_matrix_of(*dict));
                return matrix;
            }
        },
        _ => {},
    }
    let matrix: [Number; 6] = [
        Number::Integer(1),
        Number::Integer(0),
        Number::Integer(0),
        Number::Integer(1),
        Number::Integer(0),
        Number::Integer(0),
    ];
    assert(matrix@ =~= appearance_matrix_of(*dict));
    matrix
}

/// Where an annotation's text comes from, given its contents as text.
pub fn annotation_text(annot: &FreeTextAnnot, contents: Option<String>) -> (source: AnnotText)
    ensures
        source@ == text_source(annot@, opt_text(contents)),
{
    match contents {
        Some(text) => {
            let text = trim(text.as_str());
            if !text.as_str().is_empty() {
                return AnnotText::Contents(text);
            }
        },
        None => {},
    }
    match annot.ap_form_id {
        Some(id) => AnnotText::Appearance(id),
        None => AnnotText::Nowhere,
    }
}

/// The item of an annotation's contents, at the annotation's rectangle.
pub fn contents_item(text: String, rect: (u32, u32, u32, u32), page: u32) -> (item: TextItem)
    ensures
        item@ == contents_view(text@, rect, page),
{
    let font = String::new();
    assert(font@ =~= Seq::<char>::empty());
    TextItem {
        text,
        x: rect.0,
        y: rect.1,
        width: rect.2,
        height: rect.3,
        font,
        font_size: 0,
        page,
        is_bold: false,
        is_italic: false,
        is_underline: false,
        is_strikeout: false,
        item_type: ItemType::Annotation,
        mcid: None,
    }
}

/// The items of an appearance stream as those of the annotation.
pub fn appearance_items(items: &[TextItem]) -> (out: Vec<TextItem>)
    ensures
        item_views(out@) == appearance_views(item_views(items@)),
{
    let mut out: Vec<TextItem> = Vec::new();
    let ghost views = item_views(items@);
    assert(item_views(out@) =~= appearance_views(views.take(0)));
    for i in 0..items.len()
        invariant
            views == item_views(items@),
            item_views(out@) == appearance_views(views.take(i as int)),
    {
        let ghost before = item_views(out@);
        assert(views.take(i + 1).drop_last() =~= views.take(i as int));
        let item = &items[i];
        if !trim(item.text.as_str()).as_str().is_empty() {
            let kept = TextItem {
                text: item.text.clone(),
                x: item.x,
                y: item.y,
                width: item.width,
                height: item.height,
                font: item.font.clone(),
                font_size: item.font_size,
                page: item.page,
                is_bold: item.is_bold,
                is_italic: item.is_italic,
                is_underline: item.is_underline,
                is_strikeout: item.is_strikeout,
                item_type: ItemType::Annotation,
                mcid: None,
            };
            let ghost view = kept@;
            out.push(kept);
            assert(item_views(out@) =~= before.push(view));
        }
    }
    assert(views.take(views.len() as int) =~= views);
    out
}

/// The items of an annotation, given its contents as text, its rectangle, and the items that its
/// appearance shows.
pub fn annotation_items(
    annot: &FreeTextAnnot,
    contents: Option<String>,
    rect: (u32, u32, u32, u32),
    shown: &[TextItem],
    page: u32,
) -> (items: Vec<TextItem>)
    ensures
        item_views(items@) == annot_items(
            text_source(annot@, opt_text(contents)),
            rect,
            item_views(shown@),
            page,
        ),
{
    match annotation_text(annot, contents) {
        AnnotText::Contents(text) => {
            let item = contents_item(text, rect, page);
            let ghost view = item@;
            let mut items: Vec<TextItem> = Vec::new();
            items.push(item);
            assert(item_views(items@) =~= seq![view]);
            items
        },
        AnnotText::Appearance(_) => appearance_items(shown),
        AnnotText::Nowhere => {
            let items: Vec<TextItem> = Vec::new();
            assert(item_views(items@) =~= Seq::<ItemView>::empty());
            items
        },
    }
}

/// An annotation whose contents are not blank gives one item, whatever its appearance shows. Every
/// item of an annotation is marked as the annotation's, and those of an appearance are not blank.
pub proof fn law_annotation_items(
    annot: AnnotView,
    contents: Option<Seq<char>>,
    rect: (u32, u32, u32, u32),
    shown: Seq<ItemView>,
    page: u32,
)
    ensures
        contents matches Some(text) && trimmed(text).len() > 0 ==> annot_items(
            text_source(annot, contents),
            rect,
            shown,
            page,
        ) == seq![contents_view(trimmed(contents->0), rect, page)],
        forall|i: int|
            0 <= i < annot_items(text_source(annot, contents), rect, shown, page).len() ==> {
                let item = #[trigger] annot_items(
                    text_source(annot, contents),
                    rect,
                    shown,
                    page,
                )[i];
                item.item_type == ItemType::Annotation && item.mcid is None && (contents is None
                    || trimmed(contents->0).len() == 0 ==> trimmed(item.text).len() > 0)
            },
{
    assert forall|i: int|
        0 <= i < appearance_views(shown).len() implies (#[trigger] appearance_views(
        shown,
    )[i]).item_type == ItemType::Annotation && appearance_views(shown)[i].mcid is None && trimmed(
        appearance_views(shown)[i].text,
    ).len() > 0 by {
        law_appearance_items_are_annotations(shown, i);
    }
}

/// Every item of an annotation's appearance is marked as the annotation's, and none is blank.
pub proof fn law_appearance_items_are_annotations(items: Seq<ItemView>, i: int)
    requires
        0 <= i < appearance_views(items).len(),
    ensures
        appearance_views(items)[i].item_type == ItemType::Annotation,
        appearance_views(items)[i].mcid is None,
        trimmed(appearance_views(items)[i].text).len() > 0,
    decreases items.len(),
{
    let front = appearance_views(items.drop_last());
    if i < front.len() {
        law_appearance_items_are_annotations(items.drop_last(), i);
    }
}

/// Hidden annotations, and annotations of other kinds, have no part in a page's text.
pub proof fn law_only_shown_free_text_is_read(doc: Map<ObjectId, Object>, object: Object)
    ensures
        free_text(doc, object) is Some ==> (dict_of(doc, object) matches Some(dict) && has_name(
            dict,
            "Subtype"@,
            "FreeText"@,
        ) && !is_hidden(dict)),
{
}

/// Contents that are not blank are preferred to an appearance; blank ones count as absent.
pub proof fn law_contents_come_first(annot: AnnotView, contents: Seq<char>)
    ensures
        trimmed(contents).len() > 0 ==> text_source(annot, Some(contents))
            == AnnotTextView::Contents(trimmed(contents)),
        trimmed(contents).len() == 0 ==> text_source(annot, Some(contents)) == text_source(
            annot,
            None,
        ),
{
}

}
