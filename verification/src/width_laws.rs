//! What reading widths promises.

use crate::cid_widths::{
    applied, assignments, capped, lemma_applied_concat, listed, ranged, width_number,
    MAX_CID_W_EXPANSION,
};
use crate::encoding::encoding_of;
use crate::encoding_laws::resource_name;
use crate::fallback::byte_char;
use crate::number::{as_u16, Number};
use crate::object::{
    array_entry, array_of, base_font, dict_of, entry, has_name, resolved, Dictionary, Object,
    ObjectId,
};
use crate::object_laws::law_names_are_told_apart;
use crate::widths::{
    code_entry, font_widths, numbered, page_widths, raw_widths, reach, resolved_width, SpaceWidth,
    StandardFont, UnitsScale, WidthsView,
};
use vstd::prelude::*;
use vstd::string::*;

verus! {

/// A width is the low 16 bits of an integer, or the whole part of a real; nothing else is one. It
/// may be given by reference.
pub proof fn law_width_numbers(doc: Map<ObjectId, Object>, object: Object, n: i64, bits: u32)
    ensures
        width_number(Object::Integer(n)) == Some(n as u16),
        width_number(Object::Real(bits)) == Some(as_u16(bits)),
        !(object is Integer) && !(object is Real) ==> width_number(object) is None,
        !(object is Reference) ==> resolved_width(doc, object) == width_number(object),
        object matches Object::Reference(id) && doc.contains_key(id) ==> resolved_width(doc, object)
            == width_number(doc[object->Reference_0]),
        object matches Object::Reference(id) && !doc.contains_key(id) ==> resolved_width(
            doc,
            object,
        ) is None,
{
}

/// A character code is the low 16 bits of an integer, which may be given by reference.
pub proof fn law_code_entries(doc: Map<ObjectId, Object>, dict: Dictionary, key: Seq<char>)
    ensures
        entry(dict, key) is None ==> code_entry(doc, dict, key) is None,
        entry(dict, key) matches Some(object) ==> code_entry(doc, dict, key) == (match resolved(
            doc,
            object,
        ) {
            Some(Object::Integer(n)) => Some(n as u16),
            _ => None,
        }),
{
}

proof fn lemma_applied_tail(
    widths: Map<u16, u16>,
    pairs: Seq<(u16, u16)>,
    id: u16,
    given: Option<u16>,
)
    requires
        given is None ==> forall|p: int| 0 <= p < pairs.len() ==> (#[trigger] pairs[p]).0 != id,
        given is Some ==> exists|p: int| 0 <= p < pairs.len() && (#[trigger] pairs[p]).0 == id,
        given is Some ==> forall|p: int|
            0 <= p < pairs.len() && (#[trigger] pairs[p]).0 == id ==> pairs[p].1 == given->0,
    ensures
        given is None ==> applied(widths, pairs).contains_key(id) == widths.contains_key(id)
            && applied(widths, pairs)[id] == widths[id],
        given matches Some(w) ==> applied(widths, pairs).contains_key(id) && applied(
            widths,
            pairs,
        )[id] == w,
    decreases pairs.len(),
{
    if pairs.len() > 0 {
        let front = pairs.drop_last();
        if pairs.last().0 == id {
            assert(pairs[pairs.len() - 1].0 == id);
        } else {
            assert forall|p: int| 0 <= p < front.len() implies front[p] == #[trigger] pairs[p] by {
            }
            if given is Some {
                let p = choose|p: int| 0 <= p < pairs.len() && (#[trigger] pairs[p]).0 == id;
                assert(front[p].0 == id);
                assert forall|p: int|
                    0 <= p < front.len() && (#[trigger] front[p]).0 == id implies front[p].1
                    == given->0 by {
                    assert(pairs[p].0 == id);
                }
            } else {
                assert forall|p: int| 0 <= p < front.len() implies (#[trigger] front[p]).0
                    != id by {
                    assert(pairs[p].0 != id);
                }
            }
            lemma_applied_tail(widths, front, id, given);
        }
    }
}

/// Whether the items from `a` up to `b` of a `/W` array are one group: an id with the widths of it
/// and the ids after it, or a first id, a last id and one width. What cannot be read is passed
/// over as a group that gives nothing: an item that is no id, an id with neither a list nor a last
/// id behind it, and a range without a width; and so is what the end of the array cuts off.
pub open spec fn is_group(doc: Map<ObjectId, Object>, items: Seq<Object>, a: int, b: int) -> bool {
    &&& 0 <= a < b <= items.len()
    &&& {
        ||| b == a + 1 && (width_number(items[a]) is None || b == items.len())
        ||| b == a + 2 && width_number(items[a]) is Some && (match array_of(doc, items[a + 1]) {
            Some(list) => width_number(items[a])->0 + list.len() <= 0x1_0000,
            None => width_number(items[a + 1]) is None || b == items.len(),
        })
        ||| b == a + 3 && width_number(items[a]) is Some && array_of(doc, items[a + 1]) is None
            && width_number(items[a + 1]) is Some
    }
}

/// Whether a group is an id with a list of widths.
pub open spec fn is_list(doc: Map<ObjectId, Object>, items: Seq<Object>, a: int, b: int) -> bool {
    b == a + 2 && array_of(doc, items[a + 1]) is Some
}

/// Whether a group is a range of ids with a width.
pub open spec fn is_range(items: Seq<Object>, a: int, b: int) -> bool {
    b == a + 3 && width_number(items[a + 2]) is Some
}

/// The width that a group gives to an id.
pub open spec fn group_gives(
    doc: Map<ObjectId, Object>,
    items: Seq<Object>,
    a: int,
    b: int,
    id: u16,
) -> Option<u16> {
    let first = width_number(items[a])->0;
    if is_list(doc, items, a, b) {
        let list = array_of(doc, items[a + 1])->0;
        if first <= id && id - first < list.len() {
            width_number(list[id - first])
        } else {
            None
        }
    } else if is_range(items, a, b) && first <= id <= width_number(items[a + 1])->0 {
        width_number(items[a + 2])
    } else {
        None
    }
}

/// How many ids a group speaks of.
pub open spec fn group_size(
    doc: Map<ObjectId, Object>,
    items: Seq<Object>,
    a: int,
    b: int,
) -> int {
    if is_list(doc, items, a, b) {
        array_of(doc, items[a + 1])->0.len() as int
    } else if is_range(items, a, b) && width_number(items[a])->0 <= width_number(items[a + 1])->0 {
        width_number(items[a + 1])->0 - width_number(items[a])->0 + 1
    } else {
        0
    }
}

/// Places that cut a `/W` array into groups.
pub open spec fn are_groups(
    doc: Map<ObjectId, Object>,
    items: Seq<Object>,
    cuts: Seq<int>,
) -> bool {
    &&& cuts.len() > 0
    &&& cuts[0] == 0
    &&& cuts.last() == items.len()
    &&& forall|g: int| 0 <= g < cuts.len() - 1 ==> #[trigger] is_group_at(doc, items, cuts, g)
}

/// Whether one of the groups of a `/W` array is one.
pub open spec fn is_group_at(
    doc: Map<ObjectId, Object>,
    items: Seq<Object>,
    cuts: Seq<int>,
    g: int,
) -> bool {
    is_group(doc, items, cuts[g], cuts[g + 1])
}

/// The width that one of the groups of a `/W` array gives to an id.
pub open spec fn gives_at(
    doc: Map<ObjectId, Object>,
    items: Seq<Object>,
    cuts: Seq<int>,
    g: int,
    id: u16,
) -> Option<u16> {
    group_gives(doc, items, cuts[g], cuts[g + 1], id)
}

/// How many ids the groups of a `/W` array from `g` on speak of, all told.
pub open spec fn size_from(
    doc: Map<ObjectId, Object>,
    items: Seq<Object>,
    cuts: Seq<int>,
    g: int,
) -> int
    decreases cuts.len() - g,
{
    if 0 <= g < cuts.len() - 1 {
        group_size(doc, items, cuts[g], cuts[g + 1]) + size_from(doc, items, cuts, g + 1)
    } else {
        0
    }
}

proof fn lemma_listed(first: u16, list: Seq<Object>, id: u16)
    requires
        first + list.len() <= 0x1_0000,
    ensures
        listed(first, list).len() <= list.len(),
        ({
            let given = if first <= id && id - first < list.len() {
                width_number(list[id - first])
            } else {
                None
            };
            &&& given is None ==> forall|p: int|
                0 <= p < listed(first, list).len() ==> (#[trigger] listed(first, list)[p]).0 != id
            &&& given is Some ==> exists|p: int|
                0 <= p < listed(first, list).len() && (#[trigger] listed(first, list)[p]).0 == id
            &&& given is Some ==> forall|p: int|
                0 <= p < listed(first, list).len() && (#[trigger] listed(first, list)[p]).0 == id
                    ==> listed(first, list)[p].1 == given->0
        }),
    decreases list.len(),
{
    if list.len() > 0 {
        let front = list.drop_last();
        lemma_listed(first, front, id);
        let before = listed(first, front);
        let all = listed(first, list);
        match width_number(list.last()) {
            Some(w) => {
                let code = (first + list.len() - 1) as u16;
                assert(all == before.push((code, w)));
                assert(all[before.len() as int] == (code, w));
                assert forall|p: int| 0 <= p < before.len() implies before[p] == #[trigger] all[p] by {
                }
                if first <= id && id - first < front.len() && width_number(front[id - first])
                    is Some {
                    let p = choose|p: int|
                        0 <= p < before.len() && (#[trigger] before[p]).0 == id;
                    assert(all[p].0 == id);
                }
            },
            None => {},
        }
    }
}

/// What one group assigns.
proof fn lemma_group(doc: Map<ObjectId, Object>, items: Seq<Object>, a: int, b: int, id: u16)
    requires
        is_group(doc, items, a, b),
    ensures
        ({
            let pairs = group_pairs(doc, items, a, b);
            let given = group_gives(doc, items, a, b, id);
            &&& assignments(doc, items.skip(a)) == pairs + assignments(doc, items.skip(b))
            &&& pairs.len() <= group_size(doc, items, a, b)
            &&& given is None ==> forall|p: int|
                0 <= p < pairs.len() ==> (#[trigger] pairs[p]).0 != id
            &&& given is Some ==> exists|p: int|
                0 <= p < pairs.len() && (#[trigger] pairs[p]).0 == id
            &&& given is Some ==> forall|p: int|
                0 <= p < pairs.len() && (#[trigger] pairs[p]).0 == id ==> pairs[p].1 == given->0
        }),
{
    let rest = items.skip(a);
    assert(rest[0] == items[a]);
    let first = width_number(items[a])->0;
    let none = Seq::<(u16, u16)>::empty();
    assert(none + assignments(doc, items.skip(b)) =~= assignments(doc, items.skip(b)));
    if b == items.len() {
        assert(items.skip(b) =~= Seq::<Object>::empty());
    }
    if b == a + 1 {
        assert(rest.skip(1) =~= items.skip(b));
    } else if b == a + 2 {
        assert(rest[1] == items[a + 1]);
        assert(rest.skip(2) =~= items.skip(b));
        if is_list(doc, items, a, b) {
            lemma_listed(first, array_of(doc, items[a + 1])->0, id);
        }
    } else if !is_range(items, a, b) {
        assert(rest[1] == items[a + 1]);
        assert(rest[2] == items[a + 2]);
        assert(rest.skip(3) =~= items.skip(b));
    } else {
        assert(rest[1] == items[a + 1]);
        assert(rest[2] == items[a + 2]);
        assert(rest.skip(3) =~= items.skip(b));
        let last = width_number(items[a + 1])->0;
        let pairs = group_pairs(doc, items, a, b);
        assert(pairs == ranged(first, last, width_number(items[a + 2])->0));
        assert forall|p: int| 0 <= p < pairs.len() implies (#[trigger] pairs[p]).0 == first + p
            && pairs[p].1 == width_number(items[a + 2])->0 by {
        }
        if first <= id <= last {
            assert(pairs[id - first].0 == id);
        }
    }
}

/// The assignments of one group.
pub open spec fn group_pairs(
    doc: Map<ObjectId, Object>,
    items: Seq<Object>,
    a: int,
    b: int,
) -> Seq<(u16, u16)> {
    if is_list(doc, items, a, b) {
        listed(width_number(items[a])->0, array_of(doc, items[a + 1])->0)
    } else if is_range(items, a, b) {
        ranged(
            width_number(items[a])->0,
            width_number(items[a + 1])->0,
            width_number(items[a + 2])->0,
        )
    } else {
        Seq::empty()
    }
}

proof fn lemma_groups_from(
    doc: Map<ObjectId, Object>,
    items: Seq<Object>,
    cuts: Seq<int>,
    g: int,
    widths: Map<u16, u16>,
    id: u16,
)
    requires
        are_groups(doc, items, cuts),
        0 <= g < cuts.len(),
    ensures
        assignments(doc, items.skip(cuts[g])).len() <= size_from(doc, items, cuts, g),
        (forall|h: int| g <= h < cuts.len() - 1 ==> #[trigger] gives_at(doc, items, cuts, h, id) is None)
            ==> applied(widths, assignments(doc, items.skip(cuts[g]))).contains_key(id)
            == widths.contains_key(id) && applied(widths, assignments(doc, items.skip(cuts[g])))[id]
            == widths[id],
        forall|h: int|
            g <= h < cuts.len() - 1 && (#[trigger] gives_at(doc, items, cuts, h, id)) is Some && (
            forall|k: int| h < k < cuts.len() - 1 ==> #[trigger] gives_at(doc, items, cuts, k, id) is None)
                ==> applied(widths, assignments(doc, items.skip(cuts[g]))).contains_key(id) && Some(
                applied(widths, assignments(doc, items.skip(cuts[g])))[id],
            ) == gives_at(doc, items, cuts, h, id),
    decreases cuts.len() - g,
{
    if g < cuts.len() - 1 {
        assert(is_group_at(doc, items, cuts, g));
        lemma_group(doc, items, cuts[g], cuts[g + 1], id);
        let pairs = group_pairs(doc, items, cuts[g], cuts[g + 1]);
        let given = gives_at(doc, items, cuts, g, id);
        let rest = assignments(doc, items.skip(cuts[g + 1]));
        lemma_applied_tail(widths, pairs, id, given);
        lemma_applied_concat(widths, pairs, rest);
        lemma_groups_from(doc, items, cuts, g + 1, applied(widths, pairs), id);
    } else {
        assert(items.skip(cuts[g]) =~= Seq::<Object>::empty());
    }
}

/// A `/W` array that is made of groups gives every id the width that the last group to speak of
/// it gives, and no width to the ids of which none speaks; as long as the groups speak of no more
/// than 65536 ids in all.
pub proof fn law_last_group_counts(
    doc: Map<ObjectId, Object>,
    items: Seq<Object>,
    cuts: Seq<int>,
    id: u16,
)
    requires
        are_groups(doc, items, cuts),
        size_from(doc, items, cuts, 0) <= 65536,
    ensures
        ({
            let widths = applied(
                Map::empty(),
                capped(assignments(doc, items), MAX_CID_W_EXPANSION as int),
            );
            &&& (forall|h: int| 0 <= h < cuts.len() - 1 ==> #[trigger] gives_at(doc, items, cuts, h, id)
                is None) ==> !widths.contains_key(id)
            &&& forall|h: int|
                0 <= h < cuts.len() - 1 && (#[trigger] gives_at(doc, items, cuts, h, id)) is Some && (
                forall|k: int|
                    h < k < cuts.len() - 1 ==> #[trigger] gives_at(doc, items, cuts, k, id) is None)
                    ==> widths.contains_key(id) && Some(widths[id]) == gives_at(
                    doc,
                    items,
                    cuts,
                    h,
                    id,
                )
        }),
{
    lemma_groups_from(doc, items, cuts, 0, Map::empty(), id);
    assert(items.skip(0) =~= items);
}

/// Of more than 65536 assignments the first 65536 are made.
pub proof fn law_first_assignments_are_made(pairs: Seq<(u16, u16)>)
    ensures
        pairs.len() <= 65536 ==> capped(pairs, MAX_CID_W_EXPANSION as int) == pairs,
        pairs.len() > 65536 ==> capped(pairs, MAX_CID_W_EXPANSION as int) == pairs.take(65536),
{
}

proof fn lemma_subtypes()
    ensures
        "Type0"@ != "Type1"@,
        "Type0"@ != "TrueType"@,
        "Type0"@ != "MMType1"@,
        "Type0"@ != "Type3"@,
        "Type3"@ != "Type1"@,
        "Type3"@ != "TrueType"@,
        "Type3"@ != "MMType1"@,
{
    reveal_strlit("Type0");
    reveal_strlit("Type1");
    reveal_strlit("TrueType");
    reveal_strlit("MMType1");
    reveal_strlit("Type3");
    assert("Type0"@[4] != "Type1"@[4]);
    assert("Type0"@[4] != "Type3"@[4]);
    assert("Type3"@[4] != "Type1"@[4]);
}

/// A composite font has the widths of its first descendant: it is known as composite, its default
/// width is `/DW` or 1000, and its `/W` array gives each id its width. Its space is as wide as id
/// 32, else as id 3, else a quarter of the default width, or 250.
pub proof fn law_composite_fonts_have_the_widths_of_their_descendant(
    doc: Map<ObjectId, Object>,
    font_dict: Dictionary,
    glyph_names: Map<Seq<char>, char>,
    standard: Map<Seq<char>, StandardFont>,
    fonts: Seq<Object>,
    cid_font: Dictionary,
    cuts: Seq<int>,
    id: u16,
)
    requires
        has_name(font_dict, "Subtype"@, "Type0"@),
        array_entry(doc, font_dict, "DescendantFonts"@) == Some(fonts),
        fonts.len() > 0,
        dict_of(doc, fonts[0]) == Some(cid_font),
    ensures
        font_widths(doc, font_dict, glyph_names, standard) matches Some(info) && {
            &&& info.is_cid
            &&& info.units_scale == UnitsScale::Thousandth
            &&& info.default_width == match entry(cid_font, "DW"@) {
                Some(Object::Integer(n)) => n as u16,
                Some(Object::Real(bits)) => as_u16(bits),
                _ => 1000,
            }
            &&& info.wmode == match entry(font_dict, "WMode"@) {
                Some(Object::Integer(n)) => n as u8,
                _ => 0u8,
            }
            &&& array_entry(doc, cid_font, "W"@) is None ==> info.widths == Map::<u16, u16>::empty()
            &&& array_entry(doc, cid_font, "W"@) matches Some(items) ==> info.widths == applied(
                Map::empty(),
                capped(assignments(doc, items), 65536),
            )
            &&& array_entry(doc, cid_font, "W"@) matches Some(items) ==> are_groups(
                doc,
                items,
                cuts,
            ) && size_from(doc, items, cuts, 0) <= 65536 ==> {
                &&& (forall|h: int|
                    0 <= h < cuts.len() - 1 ==> #[trigger] gives_at(doc, items, cuts, h, id) is None)
                    ==> !info.widths.contains_key(id)
                &&& forall|h: int|
                    0 <= h < cuts.len() - 1 && (#[trigger] gives_at(doc, items, cuts, h, id)) is Some
                        && (forall|k: int|
                        h < k < cuts.len() - 1 ==> #[trigger] gives_at(doc, items, cuts, k, id) is None)
                        ==> info.widths.contains_key(id) && Some(info.widths[id]) == gives_at(
                        doc,
                        items,
                        cuts,
                        h,
                        id,
                    )
            }
            &&& info.widths.contains_key(32) ==> info.space_width == SpaceWidth::Units(
                info.widths[32],
            )
            &&& !info.widths.contains_key(32) && info.widths.contains_key(3) ==> info.space_width
                == SpaceWidth::Units(info.widths[3])
            &&& !info.widths.contains_key(32) && !info.widths.contains_key(3) ==> info.space_width
                == SpaceWidth::Units(
                if info.default_width == 0 {
                    250
                } else {
                    info.default_width / 4
                },
            )
        },
{
    match array_entry(doc, cid_font, "W"@) {
        Some(items) => {
            if are_groups(doc, items, cuts) && size_from(doc, items, cuts, 0) <= 65536 {
                law_last_group_counts(doc, items, cuts, id);
            }
        },
        None => {},
    }
}

/// A composite font without a descendant has no widths, and neither has a font of no known
/// subtype.
pub proof fn law_fonts_without_widths(
    doc: Map<ObjectId, Object>,
    font_dict: Dictionary,
    glyph_names: Map<Seq<char>, char>,
    standard: Map<Seq<char>, StandardFont>,
)
    ensures
        has_name(font_dict, "Subtype"@, "Type0"@) && !(array_entry(
            doc,
            font_dict,
            "DescendantFonts"@,
        ) matches Some(fonts) && fonts.len() > 0 && dict_of(doc, fonts[0]) is Some) ==> font_widths(
            doc,
            font_dict,
            glyph_names,
            standard,
        ) is None,
        !has_name(font_dict, "Subtype"@, "Type0"@) && !has_name(font_dict, "Subtype"@, "Type1"@)
            && !has_name(font_dict, "Subtype"@, "TrueType"@) && !has_name(
            font_dict,
            "Subtype"@,
            "MMType1"@,
        ) && !has_name(font_dict, "Subtype"@, "Type3"@) ==> font_widths(
            doc,
            font_dict,
            glyph_names,
            standard,
        ) is None,
{
}

/// Whether a font is one of the simple ones that may go without widths of their own.
pub open spec fn is_text_font(font_dict: Dictionary) -> bool {
    ||| has_name(font_dict, "Subtype"@, "Type1"@)
    ||| has_name(font_dict, "Subtype"@, "TrueType"@)
    ||| has_name(font_dict, "Subtype"@, "MMType1"@)
}

/// The width that a `/Widths` array, which starts at code `first`, gives to a code.
pub open spec fn listed_width(
    doc: Map<ObjectId, Object>,
    items: Seq<Object>,
    first: u16,
    last: u16,
    code: u16,
) -> Option<u16> {
    if first <= code <= last && code - first < items.len() {
        resolved_width(doc, items[code - first])
    } else {
        None
    }
}

proof fn lemma_reach(first: u16, last: u16, n: nat)
    requires
        first + n <= 0x1_0000 || last < 0xFFFF,
    ensures
        reach(first, last, n) == if first > last {
            0
        } else if n <= last - first + 1 {
            n as int
        } else {
            last - first + 1
        },
    decreases n,
{
    if n > 0 {
        lemma_reach(first, last, (n - 1) as nat);
    }
}

proof fn lemma_numbered(
    doc: Map<ObjectId, Object>,
    first: u16,
    items: Seq<Object>,
    code: u16,
)
    requires
        first + items.len() <= 0x1_0000,
    ensures
        ({
            let pairs = numbered(doc, first, items);
            let given = if first <= code && code - first < items.len() {
                resolved_width(doc, items[code - first])
            } else {
                None
            };
            &&& given is None ==> forall|p: int|
                0 <= p < pairs.len() ==> (#[trigger] pairs[p]).0 != code
            &&& given is Some ==> exists|p: int|
                0 <= p < pairs.len() && (#[trigger] pairs[p]).0 == code
            &&& given is Some ==> forall|p: int|
                0 <= p < pairs.len() && (#[trigger] pairs[p]).0 == code ==> pairs[p].1 == given->0
        }),
    decreases items.len(),
{
    if items.len() > 0 {
        let front = items.drop_last();
        lemma_numbered(doc, first, front, code);
        let before = numbered(doc, first, front);
        let all = numbered(doc, first, items);
        match resolved_width(doc, items.last()) {
            Some(w) => {
                let here = (first + items.len() - 1) as u16;
                assert(all == before.push((here, w)));
                assert(all[before.len() as int] == (here, w));
                assert forall|p: int| 0 <= p < before.len() implies before[p] == #[trigger] all[p] by {
                }
                if first <= code && code - first < front.len() && resolved_width(
                    doc,
                    front[code - first],
                ) is Some {
                    let p = choose|p: int|
                        0 <= p < before.len() && (#[trigger] before[p]).0 == code;
                    assert(all[p].0 == code);
                }
            },
            None => {},
        }
    }
}

/// A simple font that has `/FirstChar`, `/LastChar` and `/Widths` has the widths of the array for
/// the codes from the first to the last, and for no other. Its space is as wide as code 32, and
/// 250 units where that has no width or 0, but for a Type3 font of an unusual scale.
pub proof fn law_simple_fonts_have_their_own_widths(
    doc: Map<ObjectId, Object>,
    font_dict: Dictionary,
    glyph_names: Map<Seq<char>, char>,
    standard: Map<Seq<char>, StandardFont>,
    first: u16,
    last: u16,
    items: Seq<Object>,
    code: u16,
)
    requires
        is_text_font(font_dict) || has_name(font_dict, "Subtype"@, "Type3"@),
        code_entry(doc, font_dict, "FirstChar"@) == Some(first),
        code_entry(doc, font_dict, "LastChar"@) == Some(last),
        array_entry(doc, font_dict, "Widths"@) == Some(items),
        first + items.len() <= 0x1_0000 || last < 0xFFFF,
    ensures
        font_widths(doc, font_dict, glyph_names, standard) matches Some(info) && {
            &&& !info.is_cid
            &&& info.default_width == 0
            &&& info.wmode == 0
            &&& listed_width(doc, items, first, last, code) is None ==> !info.widths.contains_key(
                code,
            )
            &&& listed_width(doc, items, first, last, code) matches Some(w)
                ==> info.widths.contains_key(code) && info.widths[code] == w
            &&& info.widths.contains_key(32) && info.widths[32] != 0 ==> info.space_width
                == SpaceWidth::Units(info.widths[32])
            &&& is_text_font(font_dict) ==> info.units_scale == UnitsScale::Thousandth
            &&& is_text_font(font_dict) && !(info.widths.contains_key(32) && info.widths[32] != 0)
                ==> info.space_width == SpaceWidth::Units(250)
        },
{
    lemma_told_apart(font_dict);
    lemma_reach(first, last, items.len());
    let n = reach(first, last, items.len()) as int;
    let taken = items.take(n);
    lemma_numbered(doc, first, taken, code);
    let given = if first <= code && code - first < taken.len() {
        resolved_width(doc, taken[code - first])
    } else {
        None
    };
    lemma_applied_tail(Map::empty(), numbered(doc, first, taken), code, given);
}

proof fn lemma_told_apart(font_dict: Dictionary)
    ensures
        has_name(font_dict, "Subtype"@, "Type0"@) ==> !is_text_font(font_dict) && !has_name(
            font_dict,
            "Subtype"@,
            "Type3"@,
        ),
        has_name(font_dict, "Subtype"@, "Type3"@) ==> !is_text_font(font_dict),
{
    lemma_subtypes();
    let key = "Subtype"@;
    if has_name(font_dict, key, "Type0"@) {
        if has_name(font_dict, key, "Type1"@) {
            law_names_are_told_apart(font_dict, key, "Type0"@, "Type1"@);
        }
        if has_name(font_dict, key, "TrueType"@) {
            law_names_are_told_apart(font_dict, key, "Type0"@, "TrueType"@);
        }
        if has_name(font_dict, key, "MMType1"@) {
            law_names_are_told_apart(font_dict, key, "Type0"@, "MMType1"@);
        }
        if has_name(font_dict, key, "Type3"@) {
            law_names_are_told_apart(font_dict, key, "Type0"@, "Type3"@);
        }
    }
    if has_name(font_dict, key, "Type3"@) {
        if has_name(font_dict, key, "Type1"@) {
            law_names_are_told_apart(font_dict, key, "Type3"@, "Type1"@);
        }
        if has_name(font_dict, key, "TrueType"@) {
            law_names_are_told_apart(font_dict, key, "Type3"@, "TrueType"@);
        }
        if has_name(font_dict, key, "MMType1"@) {
            law_names_are_told_apart(font_dict, key, "Type3"@, "MMType1"@);
        }
    }
}

/// A Type3 font is scaled by the first number of its `/FontMatrix`, and by a thousandth without
/// one; without widths of its own it has none.
pub proof fn law_type3_fonts_are_scaled_by_their_matrix(
    doc: Map<ObjectId, Object>,
    font_dict: Dictionary,
    glyph_names: Map<Seq<char>, char>,
    standard: Map<Seq<char>, StandardFont>,
)
    requires
        has_name(font_dict, "Subtype"@, "Type3"@),
    ensures
        font_widths(doc, font_dict, glyph_names, standard) is Some <==> code_entry(
            doc,
            font_dict,
            "FirstChar"@,
        ) is Some && code_entry(doc, font_dict, "LastChar"@) is Some && array_entry(
            doc,
            font_dict,
            "Widths"@,
        ) is Some,
        font_widths(doc, font_dict, glyph_names, standard) matches Some(info) ==> {
            &&& array_entry(doc, font_dict, "FontMatrix"@) is None ==> info.units_scale
                == UnitsScale::Thousandth
            &&& array_entry(doc, font_dict, "FontMatrix"@) matches Some(matrix) ==> {
                &&& matrix.len() > 0 && matrix[0] is Integer ==> info.units_scale
                    == UnitsScale::Magnitude(Number::Integer(matrix[0]->Integer_0))
                &&& matrix.len() > 0 && matrix[0] is Real ==> info.units_scale
                    == UnitsScale::Magnitude(Number::Real(matrix[0]->Real_0))
                &&& matrix.len() == 0 || !(matrix[0] is Integer || matrix[0] is Real)
                    ==> info.units_scale == UnitsScale::Thousandth
            }
            &&& !(info.widths.contains_key(32) && info.widths[32] != 0) && (info.units_scale
                == UnitsScale::Thousandth || info.widths.len() == 0) ==> info.space_width
                == SpaceWidth::Units(250)
            &&& !(info.widths.contains_key(32) && info.widths[32] != 0) && info.widths.len() > 0 && (
            info.units_scale matches UnitsScale::Magnitude(Number::Integer(_))) ==> (
            info.space_width is ShareOfMean)
            &&& info.space_width matches SpaceWidth::ShareOfMean { total, count } ==> count
                == info.widths.len() as u64 && total == crate::widths::width_total(
                info.widths,
                0x1_0000,
            ) as u64
            &&& !(info.widths.contains_key(32) && info.widths[32] != 0) && info.widths.len() > 0 && (
            info.units_scale matches UnitsScale::Magnitude(Number::Real(bits)) && (bits
                % 0x8000_0000 < 0x3A03_126F || 0x3AC4_9BA6 < bits % 0x8000_0000 <= 0x7F80_0000))
                ==> info.space_width is ShareOfMean
            &&& !(info.widths.contains_key(32) && info.widths[32] != 0) && (
            info.units_scale matches UnitsScale::Magnitude(Number::Real(bits)) && (0x3A03_126F
                <= bits % 0x8000_0000 <= 0x3AC4_9BA6 || 0x7F80_0000 < bits % 0x8000_0000))
                ==> info.space_width == SpaceWidth::Units(250)
        },
{
    lemma_told_apart(font_dict);
}

/// Where the space of a font is a share of its mean width, the widths of all codes are added up.
pub proof fn law_mean_is_of_all_widths(widths: Map<u16, u16>, code: u16)
    requires
        !widths.contains_key(code),
    ensures
        forall|w: u16|
            #[trigger] crate::widths::width_total(widths.insert(code, w), 0x1_0000)
                == crate::widths::width_total(widths, 0x1_0000) + w,
        crate::widths::width_total(Map::<u16, u16>::empty(), 0x1_0000) == 0,
{
    assert forall|w: u16|
        #[trigger] crate::widths::width_total(widths.insert(code, w), 0x1_0000)
            == crate::widths::width_total(widths, 0x1_0000) + w by {
        lemma_total_insert(widths, code, w, 0x1_0000);
    }
    lemma_total_empty(0x1_0000);
}

proof fn lemma_total_insert(widths: Map<u16, u16>, code: u16, w: u16, n: nat)
    requires
        !widths.contains_key(code),
        n <= 0x1_0000,
    ensures
        crate::widths::width_total(widths.insert(code, w), n) == crate::widths::width_total(
            widths,
            n,
        ) + if code < n {
            w as int
        } else {
            0
        },
    decreases n,
{
    if n > 0 {
        lemma_total_insert(widths, code, w, (n - 1) as nat);
    }
}

proof fn lemma_total_empty(n: nat)
    ensures
        crate::widths::width_total(Map::<u16, u16>::empty(), n) == 0,
    decreases n,
{
    if n > 0 {
        lemma_total_empty((n - 1) as nat);
    }
}

/// A simple font without widths of its own that is one of the standard fonts has, for each code
/// from 0 to 255, the width of the character that it shows there: that of its `/Differences`, else
/// of its own encoding, else of the byte in Windows-1252. Characters without a width leave the
/// code without one.
pub proof fn law_standard_fonts_have_the_widths_of_their_characters(
    doc: Map<ObjectId, Object>,
    font_dict: Dictionary,
    glyph_names: Map<Seq<char>, char>,
    standard: Map<Seq<char>, StandardFont>,
    name: Seq<char>,
    code: u16,
    c: char,
)
    requires
        is_text_font(font_dict),
        code_entry(doc, font_dict, "FirstChar"@) is None || code_entry(doc, font_dict, "LastChar"@)
            is None || array_entry(doc, font_dict, "Widths"@) is None,
        base_font(font_dict) == Some(name),
        standard.contains_key(name),
        ({
            let own = standard[name].builtin@;
            let given = encoding_of(doc, font_dict, glyph_names);
            if given matches Some(result) && result.map.contains_key(code as u8) {
                c == given->0.map[code as u8]
            } else if own.contains_key(code as u8) {
                c == own[code as u8]
            } else {
                c == byte_char(code as u8, true)
            }
        }),
    ensures
        font_widths(doc, font_dict, glyph_names, standard) matches Some(info) && {
            let table = standard[name].char_widths@;
            &&& !info.is_cid
            &&& info.default_width == 500
            &&& info.wmode == 0
            &&& info.units_scale == UnitsScale::Thousandth
            &&& code < 256 && table.contains_key(c as u32) ==> info.widths.contains_key(code)
                && info.widths[code] == table[c as u32]
            &&& code >= 256 || !table.contains_key(c as u32) ==> !info.widths.contains_key(code)
            &&& info.space_width == SpaceWidth::Units(
                if info.widths.contains_key(32) {
                    info.widths[32]
                } else {
                    250
                },
            )
        },
{
    lemma_told_apart(font_dict);
}

/// A simple font without widths of its own that is none of the standard fonts has none.
pub proof fn law_unknown_fonts_have_no_widths(
    doc: Map<ObjectId, Object>,
    font_dict: Dictionary,
    glyph_names: Map<Seq<char>, char>,
    standard: Map<Seq<char>, StandardFont>,
)
    requires
        is_text_font(font_dict),
        code_entry(doc, font_dict, "FirstChar"@) is None || code_entry(doc, font_dict, "LastChar"@)
            is None || array_entry(doc, font_dict, "Widths"@) is None,
        !(base_font(font_dict) matches Some(name) && standard.contains_key(name)),
    ensures
        font_widths(doc, font_dict, glyph_names, standard) is None,
{
    lemma_told_apart(font_dict);
}

/// Every font of a page that has widths has them under its own name, unless a later such font
/// has the same name.
pub proof fn law_every_font_has_its_widths(
    doc: Map<ObjectId, Object>,
    fonts: Seq<(Vec<u8>, &Dictionary)>,
    glyph_names: Map<Seq<char>, char>,
    standard: Map<Seq<char>, StandardFont>,
    i: int,
)
    requires
        0 <= i < fonts.len(),
        font_widths(doc, *fonts[i].1, glyph_names, standard) is Some,
        forall|j: int|
            i < j < fonts.len() && font_widths(
                doc,
                *(#[trigger] fonts[j]).1,
                glyph_names,
                standard,
            ) is Some ==> resource_name(fonts, j) != resource_name(fonts, i),
    ensures
        page_widths(doc, fonts, glyph_names, standard).contains_key(resource_name(fonts, i)),
        Some(page_widths(doc, fonts, glyph_names, standard)[resource_name(fonts, i)])
            == font_widths(doc, *fonts[i].1, glyph_names, standard),
{
    lemma_page_has(doc, fonts, glyph_names, standard, i, fonts.len() as int);
    assert(fonts.take(fonts.len() as int) =~= fonts);
}

proof fn lemma_page_has(
    doc: Map<ObjectId, Object>,
    fonts: Seq<(Vec<u8>, &Dictionary)>,
    glyph_names: Map<Seq<char>, char>,
    standard: Map<Seq<char>, StandardFont>,
    i: int,
    n: int,
)
    requires
        0 <= i < n <= fonts.len(),
        font_widths(doc, *fonts[i].1, glyph_names, standard) is Some,
        forall|j: int|
            i < j < fonts.len() && font_widths(
                doc,
                *(#[trigger] fonts[j]).1,
                glyph_names,
                standard,
            ) is Some ==> resource_name(fonts, j) != resource_name(fonts, i),
    ensures
        page_widths(doc, fonts.take(n), glyph_names, standard).contains_key(
            resource_name(fonts, i),
        ),
        Some(page_widths(doc, fonts.take(n), glyph_names, standard)[resource_name(fonts, i)])
            == font_widths(doc, *fonts[i].1, glyph_names, standard),
    decreases n,
{
    assert(fonts.take(n).drop_last() =~= fonts.take(n - 1));
    assert(fonts.take(n).last() == fonts[n - 1]);
    if n - 1 > i {
        lemma_page_has(doc, fonts, glyph_names, standard, i, n - 1);
        assert(font_widths(doc, *fonts[n - 1].1, glyph_names, standard) is Some ==> resource_name(
            fonts,
            n - 1,
        ) != resource_name(fonts, i));
    }
}

/// A page holds no widths under a name that no font with widths has.
pub proof fn law_no_other_widths(
    doc: Map<ObjectId, Object>,
    fonts: Seq<(Vec<u8>, &Dictionary)>,
    glyph_names: Map<Seq<char>, char>,
    standard: Map<Seq<char>, StandardFont>,
    name: Seq<char>,
)
    requires
        forall|i: int|
            0 <= i < fonts.len() && font_widths(
                doc,
                *(#[trigger] fonts[i]).1,
                glyph_names,
                standard,
            ) is Some ==> resource_name(fonts, i) != name,
    ensures
        !page_widths(doc, fonts, glyph_names, standard).contains_key(name),
    decreases fonts.len(),
{
    if fonts.len() > 0 {
        let front = fonts.drop_last();
        assert forall|i: int|
            0 <= i < front.len() && font_widths(
                doc,
                *(#[trigger] front[i]).1,
                glyph_names,
                standard,
            ) is Some implies resource_name(front, i) != name by {
            assert(fonts[i] == front[i]);
        }
        law_no_other_widths(doc, front, glyph_names, standard, name);
        assert(fonts[fonts.len() - 1] == fonts.last());
    }
}

/// The codes of an operand are its pairs of bytes in a composite font, and its bytes in any other;
/// each has the width of its code, or the default width, and is a space where it is 32.
pub proof fn law_codes_have_their_widths(bytes: Seq<u8>, info: WidthsView, i: int)
    requires
        0 <= i < raw_widths(bytes, info).len(),
    ensures
        ({
            let w = raw_widths(bytes, info)[i];
            &&& info.is_cid ==> raw_widths(bytes, info).len() == bytes.len() / 2 && w.code == 256
                * bytes[2 * i] + bytes[2 * i + 1]
            &&& !info.is_cid ==> raw_widths(bytes, info).len() == bytes.len() && w.code == bytes[i]
            &&& w.raw_width == if info.widths.contains_key(w.code) {
                info.widths[w.code]
            } else {
                info.default_width
            }
            &&& w.is_space <==> w.code == 32
        }),
{
}

/// A list of widths goes on id by id, past 65535 from 0 on; what is no number takes an id and
/// gives it nothing.
pub proof fn law_lists_go_on(first: u16, list: Seq<Object>, object: Object)
    ensures
        listed(first, Seq::empty()).len() == 0,
        width_number(object) is None ==> listed(first, list.push(object)) == listed(first, list),
        width_number(object) matches Some(w) ==> listed(first, list.push(object)) == listed(
            first,
            list,
        ).push((((first + list.len()) % 0x1_0000) as u16, w)),
{
    assert(list.push(object).drop_last() =~= list);
}

}
