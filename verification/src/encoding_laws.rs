//! What reading encodings promises.

use crate::cmap::ToUnicodeCMap;
use crate::encoding::{
    differences_gids, differences_map, encoding_of, glyph_char, has_lost_gids, is_gid_name,
    is_ligature, next_code, page_encodings, private_glyph, tounicode_covers,
};
use crate::object::{
    array_entry, base_font, dict_entry, reference_entry, Dictionary, Object, ObjectId,
};
use crate::text::{after_first, lower};
use crate::unicode::utf8_lossy;
use vstd::prelude::*;
use vstd::string::*;

verus! {

/// The codes at which the items of a `/Differences` array stand: from 0 on, an integer sets the
/// code of what follows, and a name takes one code.
pub open spec fn is_numbering(items: Seq<Object>, codes: Seq<int>) -> bool {
    &&& codes.len() == items.len() + 1
    &&& codes[0] == 0
    &&& forall|q: int|
        0 <= q < items.len() ==> #[trigger] codes[q + 1] == match items[q] {
            Object::Integer(n) => n as u8 as int,
            Object::Name(_) => if codes[q] == 255 {
                0
            } else {
                codes[q] + 1
            },
            _ => codes[q],
        }
}

/// The glyph name that stands at a place of a `/Differences` array.
pub open spec fn glyph_at(items: Seq<Object>, q: int) -> Option<Seq<char>> {
    match items[q] {
        Object::Name(name) => Some(utf8_lossy(name@)),
        _ => None,
    }
}

/// Whether a known glyph name stands at a place of a `/Differences` array.
pub open spec fn is_known_at(
    items: Seq<Object>,
    glyph_names: Map<Seq<char>, char>,
    base: Option<Seq<char>>,
    q: int,
) -> bool {
    glyph_at(items, q) matches Some(glyph) && glyph_char(glyph, glyph_names, base) is Some
}

proof fn lemma_codes(items: Seq<Object>, codes: Seq<int>, q: int)
    requires
        is_numbering(items, codes),
        0 <= q <= items.len(),
    ensures
        codes[q] == next_code(items.take(q)),
    decreases q,
{
    if q > 0 {
        lemma_codes(items, codes, q - 1);
        assert(items.take(q).drop_last() =~= items.take(q - 1));
        assert(codes[(q - 1) + 1] == match items[q - 1] {
            Object::Integer(n) => n as u8 as int,
            Object::Name(_) => if codes[q - 1] == 255 {
                0
            } else {
                codes[q - 1] + 1
            },
            _ => codes[q - 1],
        });
    }
}

/// A code that a `/Differences` array gives a known glyph name stands for the character of the
/// last such name.
pub proof fn law_differences_give_characters(
    items: Seq<Object>,
    glyph_names: Map<Seq<char>, char>,
    base: Option<Seq<char>>,
    codes: Seq<int>,
    q: int,
)
    requires
        is_numbering(items, codes),
        0 <= q < items.len(),
        is_known_at(items, glyph_names, base, q),
        forall|r: int|
            q < r < items.len() && #[trigger] is_known_at(items, glyph_names, base, r) ==> codes[r]
                != codes[q],
    ensures
        0 <= codes[q] < 256,
        differences_map(items, glyph_names, base).contains_key(codes[q] as u8),
        Some(differences_map(items, glyph_names, base)[codes[q] as u8]) == glyph_char(
            glyph_at(items, q)->0,
            glyph_names,
            base,
        ),
{
    lemma_map_at(items, glyph_names, base, codes, q, items.len() as int);
    assert(items.take(items.len() as int) =~= items);
}

proof fn lemma_map_at(
    items: Seq<Object>,
    glyph_names: Map<Seq<char>, char>,
    base: Option<Seq<char>>,
    codes: Seq<int>,
    q: int,
    n: int,
)
    requires
        is_numbering(items, codes),
        0 <= q < n <= items.len(),
        is_known_at(items, glyph_names, base, q),
        forall|r: int|
            q < r < items.len() && #[trigger] is_known_at(items, glyph_names, base, r) ==> codes[r]
                != codes[q],
    ensures
        0 <= codes[q] < 256,
        differences_map(items.take(n), glyph_names, base).contains_key(codes[q] as u8),
        Some(differences_map(items.take(n), glyph_names, base)[codes[q] as u8]) == glyph_char(
            glyph_at(items, q)->0,
            glyph_names,
            base,
        ),
    decreases n,
{
    lemma_codes(items, codes, q);
    lemma_codes(items, codes, n - 1);
    assert(items.take(n).drop_last() =~= items.take(n - 1));
    if n - 1 > q {
        lemma_map_at(items, glyph_names, base, codes, q, n - 1);
        assert(is_known_at(items, glyph_names, base, n - 1) ==> codes[n - 1] != codes[q]);
    }
}

/// A `/Differences` array gives a character to no other codes.
pub proof fn law_differences_give_nothing_else(
    items: Seq<Object>,
    glyph_names: Map<Seq<char>, char>,
    base: Option<Seq<char>>,
    codes: Seq<int>,
    code: u8,
)
    requires
        is_numbering(items, codes),
        forall|r: int|
            0 <= r < items.len() && #[trigger] is_known_at(items, glyph_names, base, r) ==> codes[r]
                != code,
    ensures
        !differences_map(items, glyph_names, base).contains_key(code),
{
    lemma_map_lacks(items, glyph_names, base, codes, code, items.len() as int);
    assert(items.take(items.len() as int) =~= items);
}

proof fn lemma_map_lacks(
    items: Seq<Object>,
    glyph_names: Map<Seq<char>, char>,
    base: Option<Seq<char>>,
    codes: Seq<int>,
    code: u8,
    n: int,
)
    requires
        is_numbering(items, codes),
        0 <= n <= items.len(),
        forall|r: int|
            0 <= r < items.len() && #[trigger] is_known_at(items, glyph_names, base, r) ==> codes[r]
                != code,
    ensures
        !differences_map(items.take(n), glyph_names, base).contains_key(code),
    decreases n,
{
    if n > 0 {
        lemma_map_lacks(items, glyph_names, base, codes, code, n - 1);
        lemma_codes(items, codes, n - 1);
        assert(items.take(n).drop_last() =~= items.take(n - 1));
        assert(is_known_at(items, glyph_names, base, n - 1) ==> codes[n - 1] != code);
    }
}

/// The codes that are named by glyph id are those of the names `gid` and a number.
pub proof fn law_glyph_ids_are_noted(items: Seq<Object>, codes: Seq<int>, code: u8)
    requires
        is_numbering(items, codes),
    ensures
        differences_gids(items).contains(code) <==> exists|q: int|
            0 <= q < items.len() && (#[trigger] glyph_at(items, q) matches Some(glyph)
                && is_gid_name(glyph)) && codes[q] == code,
{
    lemma_gids(items, codes, code, items.len() as int);
    assert(items.take(items.len() as int) =~= items);
}

proof fn lemma_gids(items: Seq<Object>, codes: Seq<int>, code: u8, n: int)
    requires
        is_numbering(items, codes),
        0 <= n <= items.len(),
    ensures
        differences_gids(items.take(n)).contains(code) <==> exists|q: int|
            0 <= q < n && (#[trigger] glyph_at(items, q) matches Some(glyph) && is_gid_name(glyph))
                && codes[q] == code,
    decreases n,
{
    if n > 0 {
        lemma_gids(items, codes, code, n - 1);
        lemma_codes(items, codes, n - 1);
        assert(items.take(n).drop_last() =~= items.take(n - 1));
        let front = differences_gids(items.take(n - 1));
        let all = differences_gids(items.take(n));
        let here = glyph_at(items, n - 1) matches Some(glyph) && is_gid_name(glyph);
        if here {
            assert(all == front.push(codes[n - 1] as u8));
            assert(all[front.len() as int] == codes[n - 1] as u8);
            if front.contains(code) {
                let i = choose|i: int| 0 <= i < front.len() && front[i] == code;
                assert(all[i] == code);
            }
            if all.contains(code) && codes[n - 1] != code {
                let i = choose|i: int| 0 <= i < all.len() && all[i] == code;
                assert(front[i] == code);
            }
        } else {
            assert(all == front);
        }
    } else {
        assert(differences_gids(items.take(0)) =~= Seq::<u8>::empty());
    }
}

/// The glyph names of raw glyph ids are `gid` and digits, one at least.
pub proof fn law_glyph_id_names(digits: Seq<char>, glyph: Seq<char>)
    ensures
        digits.len() > 0 && (forall|i: int|
            0 <= i < digits.len() ==> '0' <= #[trigger] digits[i] <= '9') ==> is_gid_name(
            seq!['g', 'i', 'd'] + digits,
        ),
        is_gid_name(glyph) ==> glyph.len() > 3 && glyph.take(3) == seq!['g', 'i', 'd'] && forall|
            i: int,
        |
            3 <= i < glyph.len() ==> '0' <= #[trigger] glyph[i] <= '9',
{
    reveal_strlit("gid");
    let prefix = seq!['g', 'i', 'd'];
    assert("gid"@ =~= prefix);
    let name = prefix + digits;
    assert(name.subrange(0, 3) =~= prefix);
    assert forall|i: int|
        digits.len() > 0 && (forall|j: int|
            0 <= j < digits.len() ==> '0' <= #[trigger] digits[j] <= '9') && 3 <= i
            < name.len() implies '0' <= #[trigger] name[i] <= '9' by {
        assert(name[i] == digits[i - 3]);
    }
    if is_gid_name(glyph) {
        assert(glyph.take(3) =~= prefix);
    }
}

/// A glyph name stands for the character that it is known for. One family's own name for its ff
/// ligature counts in that family alone, with or without a subset tag and in whatever case, and
/// only where the name is not known otherwise.
pub proof fn law_glyph_names(
    glyph: Seq<char>,
    glyph_names: Map<Seq<char>, char>,
    family: Seq<char>,
    base: Option<Seq<char>>,
)
    ensures
        glyph_names.contains_key(glyph) ==> glyph_char(glyph, glyph_names, base) == Some(
            glyph_names[glyph],
        ),
        !glyph_names.contains_key(glyph) ==> glyph_char(glyph, glyph_names, base) == private_glyph(
            glyph,
            base,
        ),
        glyph != "g431"@ ==> private_glyph(glyph, base) is None,
        base is None ==> private_glyph(glyph, base) is None,
        lower(after_first(family, '+')) == lower("Aptos"@) ==> private_glyph(
            "g431"@,
            Some(family),
        ) == Some('\u{FB00}'),
        lower(after_first(family, '+')) != lower("Aptos"@) ==> private_glyph(glyph, Some(family))
            is None,
{
}

/// The ligatures are the five characters from U+FB00 on.
pub proof fn law_ligatures(c: char)
    ensures
        is_ligature(c) <==> seq![
            '\u{FB00}',
            '\u{FB01}',
            '\u{FB02}',
            '\u{FB03}',
            '\u{FB04}',
        ].contains(c),
{
    let all = seq!['\u{FB00}', '\u{FB01}', '\u{FB02}', '\u{FB03}', '\u{FB04}'];
    assert(all[0] == '\u{FB00}' && all[1] == '\u{FB01}' && all[2] == '\u{FB02}' && all[3]
        == '\u{FB03}' && all[4] == '\u{FB04}');
}

/// A font's encoding is what the `/Differences` of its `/Encoding` dictionary say; without the
/// dictionary or the array there is none.
pub proof fn law_encoding_is_in_the_differences(
    doc: Map<ObjectId, Object>,
    font_dict: Dictionary,
    glyph_names: Map<Seq<char>, char>,
)
    ensures
        dict_entry(doc, font_dict, "Encoding"@) is None ==> encoding_of(doc, font_dict, glyph_names)
            is None,
        dict_entry(doc, font_dict, "Encoding"@) matches Some(enc) ==> (match array_entry(
            doc,
            enc,
            "Differences"@,
        ) {
            Some(items) => encoding_of(doc, font_dict, glyph_names) matches Some(result)
                && result.map == differences_map(items, glyph_names, base_font(font_dict))
                && result.gid_codes == differences_gids(items),
            None => encoding_of(doc, font_dict, glyph_names) is None,
        }),
{
}

/// Whether a font of a page has an encoding that maps a code.
pub open spec fn maps_a_code(
    doc: Map<ObjectId, Object>,
    fonts: Seq<(Vec<u8>, &Dictionary)>,
    glyph_names: Map<Seq<char>, char>,
    i: int,
) -> bool {
    encoding_of(doc, *fonts[i].1, glyph_names) matches Some(result) && exists|code: u8|
        result.map.contains_key(code)
}

/// The resource name of a font of a page.
pub open spec fn resource_name(fonts: Seq<(Vec<u8>, &Dictionary)>, i: int) -> Seq<char> {
    utf8_lossy(fonts[i].0@)
}

proof fn lemma_differences_finite(
    items: Seq<Object>,
    glyph_names: Map<Seq<char>, char>,
    base: Option<Seq<char>>,
)
    ensures
        differences_map(items, glyph_names, base).dom().finite(),
    decreases items.len(),
{
    if items.len() > 0 {
        lemma_differences_finite(items.drop_last(), glyph_names, base);
    }
}

proof fn lemma_maps_a_code(
    doc: Map<ObjectId, Object>,
    fonts: Seq<(Vec<u8>, &Dictionary)>,
    glyph_names: Map<Seq<char>, char>,
    i: int,
)
    ensures
        maps_a_code(doc, fonts, glyph_names, i) <==> (encoding_of(doc, *fonts[i].1, glyph_names)
            matches Some(result) && result.map.len() > 0),
{
    match encoding_of(doc, *fonts[i].1, glyph_names) {
        Some(result) => {
            let enc = dict_entry(doc, *fonts[i].1, "Encoding"@)->0;
            let items = array_entry(doc, enc, "Differences"@)->0;
            lemma_differences_finite(items, glyph_names, base_font(*fonts[i].1));
            let dom = result.map.dom();
            if dom.len() == 0 {
                dom.lemma_len0_is_empty();
            } else {
                assert(dom.contains(dom.choose()));
                assert(result.map.contains_key(dom.choose()));
            }
        },
        None => {},
    }
}

/// Every font of a page whose encoding maps a code has its encoding under its own name, unless a
/// later such font has the same name.
pub proof fn law_every_font_has_its_encoding(
    doc: Map<ObjectId, Object>,
    fonts: Seq<(Vec<u8>, &Dictionary)>,
    glyph_names: Map<Seq<char>, char>,
    i: int,
)
    requires
        0 <= i < fonts.len(),
        maps_a_code(doc, fonts, glyph_names, i),
        forall|j: int|
            i < j < fonts.len() && #[trigger] maps_a_code(doc, fonts, glyph_names, j)
                ==> resource_name(fonts, j) != resource_name(fonts, i),
    ensures
        page_encodings(doc, fonts, glyph_names).contains_key(resource_name(fonts, i)),
        page_encodings(doc, fonts, glyph_names)[resource_name(fonts, i)] == encoding_of(
            doc,
            *fonts[i].1,
            glyph_names,
        )->0.map,
{
    lemma_page_has(doc, fonts, glyph_names, i, fonts.len() as int);
    assert(fonts.take(fonts.len() as int) =~= fonts);
}

proof fn lemma_page_has(
    doc: Map<ObjectId, Object>,
    fonts: Seq<(Vec<u8>, &Dictionary)>,
    glyph_names: Map<Seq<char>, char>,
    i: int,
    n: int,
)
    requires
        0 <= i < n <= fonts.len(),
        maps_a_code(doc, fonts, glyph_names, i),
        forall|j: int|
            i < j < fonts.len() && #[trigger] maps_a_code(doc, fonts, glyph_names, j)
                ==> resource_name(fonts, j) != resource_name(fonts, i),
    ensures
        page_encodings(doc, fonts.take(n), glyph_names).contains_key(resource_name(fonts, i)),
        page_encodings(doc, fonts.take(n), glyph_names)[resource_name(fonts, i)] == encoding_of(
            doc,
            *fonts[i].1,
            glyph_names,
        )->0.map,
    decreases n,
{
    assert(fonts.take(n).drop_last() =~= fonts.take(n - 1));
    assert(fonts.take(n).last() == fonts[n - 1]);
    lemma_maps_a_code(doc, fonts, glyph_names, n - 1);
    if n - 1 > i {
        lemma_page_has(doc, fonts, glyph_names, i, n - 1);
        assert(maps_a_code(doc, fonts, glyph_names, n - 1) ==> resource_name(fonts, n - 1)
            != resource_name(fonts, i));
    }
}

/// A page holds no encoding under a name that no font with an encoding has.
pub proof fn law_no_other_encodings(
    doc: Map<ObjectId, Object>,
    fonts: Seq<(Vec<u8>, &Dictionary)>,
    glyph_names: Map<Seq<char>, char>,
    name: Seq<char>,
)
    requires
        forall|i: int|
            0 <= i < fonts.len() && #[trigger] maps_a_code(doc, fonts, glyph_names, i)
                ==> resource_name(fonts, i) != name,
    ensures
        !page_encodings(doc, fonts, glyph_names).contains_key(name),
{
    lemma_page_lacks(doc, fonts, glyph_names, name, fonts.len() as int);
    assert(fonts.take(fonts.len() as int) =~= fonts);
}

proof fn lemma_page_lacks(
    doc: Map<ObjectId, Object>,
    fonts: Seq<(Vec<u8>, &Dictionary)>,
    glyph_names: Map<Seq<char>, char>,
    name: Seq<char>,
    n: int,
)
    requires
        0 <= n <= fonts.len(),
        forall|i: int|
            0 <= i < fonts.len() && #[trigger] maps_a_code(doc, fonts, glyph_names, i)
                ==> resource_name(fonts, i) != name,
    ensures
        !page_encodings(doc, fonts.take(n), glyph_names).contains_key(name),
    decreases n,
{
    if n > 0 {
        lemma_page_lacks(doc, fonts, glyph_names, name, n - 1);
        assert(fonts.take(n).drop_last() =~= fonts.take(n - 1));
        assert(fonts.take(n).last() == fonts[n - 1]);
        lemma_maps_a_code(doc, fonts, glyph_names, n - 1);
        assert(maps_a_code(doc, fonts, glyph_names, n - 1) ==> resource_name(fonts, n - 1) != name);
    }
}

/// A text of a CMap that decodes a code: not empty, and without U+FFFD.
pub open spec fn decodes(cmap: ToUnicodeCMap, code: u8) -> bool {
    &&& cmap.texts@.contains_key(code as u16)
    &&& cmap.texts@[code as u16]@.len() > 0
    &&& !cmap.texts@[code as u16]@.contains('\u{FFFD}')
}

/// A ToUnicode CMap covers some codes exactly where it decodes one of them; a font without a
/// reference to one, and a reference that leads to none, cover nothing.
pub proof fn law_one_decoded_code_covers(
    font_dict: Dictionary,
    cmaps: Map<u32, ToUnicodeCMap>,
    codes: Seq<u8>,
)
    ensures
        reference_entry(font_dict, "ToUnicode"@) is None ==> !tounicode_covers(
            font_dict,
            cmaps,
            codes,
        ),
        reference_entry(font_dict, "ToUnicode"@) matches Some(id) ==> (tounicode_covers(
            font_dict,
            cmaps,
            codes,
        ) <==> cmaps.contains_key(id.0) && exists|i: int|
            0 <= i < codes.len() && decodes(cmaps[id.0], #[trigger] codes[i])),
{
    match reference_entry(font_dict, "ToUnicode"@) {
        Some(id) => {
            if cmaps.contains_key(id.0) && exists|i: int|
                0 <= i < codes.len() && decodes(cmaps[id.0], #[trigger] codes[i]) {
                let i = choose|i: int|
                    0 <= i < codes.len() && decodes(cmaps[id.0], #[trigger] codes[i]);
                assert(crate::cmap::cmap_text(cmaps[id.0], codes[i] as u16) is Some);
            }
            if tounicode_covers(font_dict, cmaps, codes) {
                let i = choose|i: int|
                    0 <= i < codes.len() && (#[trigger] crate::cmap::cmap_text(
                        cmaps[id.0],
                        codes[i] as u16,
                    ) matches Some(text) && crate::encoding::is_usable(text));
                assert(decodes(cmaps[id.0], codes[i]));
            }
        },
        None => {},
    }
}

/// A font is flagged exactly where it names codes by glyph id and its ToUnicode CMap decodes none
/// of them.
pub proof fn law_lost_glyph_ids_are_flagged(
    doc: Map<ObjectId, Object>,
    font_dict: Dictionary,
    cmaps: Map<u32, ToUnicodeCMap>,
    glyph_names: Map<Seq<char>, char>,
    enc: Dictionary,
    items: Seq<Object>,
    codes: Seq<int>,
)
    requires
        dict_entry(doc, font_dict, "Encoding"@) == Some(enc),
        array_entry(doc, enc, "Differences"@) == Some(items),
        is_numbering(items, codes),
    ensures
        has_lost_gids(doc, font_dict, cmaps, glyph_names) <==> (exists|q: int|
            0 <= q < items.len() && (#[trigger] glyph_at(items, q) matches Some(glyph)
                && is_gid_name(glyph))) && !(reference_entry(font_dict, "ToUnicode"@) matches Some(
            id,
        ) && cmaps.contains_key(id.0) && exists|q: int|
            0 <= q < items.len() && (#[trigger] glyph_at(items, q) matches Some(glyph)
                && is_gid_name(glyph)) && decodes(cmaps[id.0], codes[q] as u8)),
{
    let gids = differences_gids(items);
    law_one_decoded_code_covers(font_dict, cmaps, gids);
    assert forall|q: int|
        0 <= q < items.len() && (#[trigger] glyph_at(items, q) matches Some(glyph) && is_gid_name(
            glyph,
        )) implies gids.contains(codes[q] as u8) by {
        lemma_codes(items, codes, q);
        law_glyph_ids_are_noted(items, codes, codes[q] as u8);
    }
    if gids.len() > 0 {
        assert(gids.contains(gids[0]));
        law_glyph_ids_are_noted(items, codes, gids[0]);
    }
    match reference_entry(font_dict, "ToUnicode"@) {
        Some(id) => {
            if cmaps.contains_key(id.0) {
                if exists|i: int| 0 <= i < gids.len() && decodes(cmaps[id.0], #[trigger] gids[i]) {
                    let i = choose|i: int|
                        0 <= i < gids.len() && decodes(cmaps[id.0], #[trigger] gids[i]);
                    assert(gids.contains(gids[i]));
                    law_glyph_ids_are_noted(items, codes, gids[i]);
                }
                if exists|q: int|
                    0 <= q < items.len() && (#[trigger] glyph_at(items, q) matches Some(glyph)
                        && is_gid_name(glyph)) && decodes(cmaps[id.0], codes[q] as u8) {
                    let q = choose|q: int|
                        0 <= q < items.len() && (#[trigger] glyph_at(items, q) matches Some(glyph)
                            && is_gid_name(glyph)) && decodes(cmaps[id.0], codes[q] as u8);
                    assert(gids.contains(codes[q] as u8));
                    let i = choose|i: int| 0 <= i < gids.len() && gids[i] == codes[q] as u8;
                    assert(decodes(cmaps[id.0], gids[i]));
                }
            }
        },
        None => {},
    }
}

}
