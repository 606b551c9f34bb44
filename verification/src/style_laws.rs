//! What finding the style of a font promises.

use crate::object::{
    array_entry, dict_entry, dict_of, entry, has_name, Dictionary, Object, ObjectId, Stream,
};
use crate::outside::{face_style, stream_outcomes};
use crate::style::{
    answered, be_value, cff_name, cmap_object, declared_style, descriptor_of, descriptor_style,
    font_file, is_decoded, is_program, is_slanted, open_question, or_raw, parm_entries,
    program_style, remembered, settled, settled_styles, stream_filters, stream_parms, ProgramStyle,
    StyleView,
};
use crate::unicode::utf8_lossy;
use crate::widths::descendant;
use vstd::prelude::*;
use vstd::string::*;

verus! {

/// A descriptor's font program is its `/FontFile2`, and without one its `/FontFile3`, given by
/// reference.
pub proof fn law_font_files(descriptor: Dictionary, id: ObjectId)
    ensures
        entry(descriptor, "FontFile2"@) == Some(Object::Reference(id)) ==> font_file(descriptor)
            == Some(id),
        !(entry(descriptor, "FontFile2"@) matches Some(Object::Reference(_))) && entry(
            descriptor,
            "FontFile3"@,
        ) == Some(Object::Reference(id)) ==> font_file(descriptor) == Some(id),
        !(entry(descriptor, "FontFile2"@) matches Some(Object::Reference(_))) && !(entry(
            descriptor,
            "FontFile3"@,
        ) matches Some(Object::Reference(_))) ==> font_file(descriptor) is None,
{
}

/// The first descendant of a composite font is the first item of its `/DescendantFonts`, where
/// that is a dictionary.
pub proof fn law_descendants(doc: Map<ObjectId, Object>, font_dict: Dictionary, fonts: Seq<Object>)
    ensures
        array_entry(doc, font_dict, "DescendantFonts"@) is None ==> descendant(doc, font_dict)
            is None,
        array_entry(doc, font_dict, "DescendantFonts"@) == Some(fonts) ==> descendant(
            doc,
            font_dict,
        ) == if fonts.len() > 0 {
            dict_of(doc, fonts[0])
        } else {
            None
        },
{
}

/// The CMap of a simple font without ToUnicode is kept under the number of its font program.
pub proof fn law_cmaps_of_simple_fonts(
    doc: Map<ObjectId, Object>,
    font_dict: Dictionary,
    descriptor: Dictionary,
)
    requires
        !has_name(font_dict, "Subtype"@, "Type0"@),
    ensures
        dict_entry(doc, font_dict, "FontDescriptor"@) is None ==> cmap_object(doc, font_dict)
            is None,
        dict_entry(doc, font_dict, "FontDescriptor"@) == Some(descriptor) ==> (match font_file(
            descriptor,
        ) {
            Some(id) => cmap_object(doc, font_dict) == Some(id.0),
            None => cmap_object(doc, font_dict) is None,
        }),
{
}

/// The CMap of a composite font without ToUnicode is kept under the number of its descendant's
/// font program; without one, under the number of the descendant itself, where that is given by
/// reference. It takes an Identity encoding, a descendant, and the descendant's descriptor.
pub proof fn law_cmaps_of_composite_fonts(
    doc: Map<ObjectId, Object>,
    font_dict: Dictionary,
    fonts: Seq<Object>,
    cid_font: Dictionary,
    descriptor: Dictionary,
    id: ObjectId,
)
    requires
        has_name(font_dict, "Subtype"@, "Type0"@),
    ensures
        !has_name(font_dict, "Encoding"@, "Identity-H"@) && !has_name(
            font_dict,
            "Encoding"@,
            "Identity-V"@,
        ) ==> cmap_object(doc, font_dict) is None,
        (has_name(font_dict, "Encoding"@, "Identity-H"@) || has_name(
            font_dict,
            "Encoding"@,
            "Identity-V"@,
        )) && array_entry(doc, font_dict, "DescendantFonts"@) == Some(fonts) && fonts.len() > 0
            && dict_of(doc, fonts[0]) == Some(cid_font) ==> {
            &&& dict_entry(doc, cid_font, "FontDescriptor"@) is None ==> cmap_object(doc, font_dict)
                is None
            &&& dict_entry(doc, cid_font, "FontDescriptor"@) == Some(descriptor) && font_file(
                descriptor,
            ) == Some(id) ==> cmap_object(doc, font_dict) == Some(id.0)
            &&& dict_entry(doc, cid_font, "FontDescriptor"@) == Some(descriptor) && font_file(
                descriptor,
            ) is None && fonts[0] == Object::Reference(id) ==> cmap_object(doc, font_dict) == Some(
                id.0,
            )
            &&& dict_entry(doc, cid_font, "FontDescriptor"@) == Some(descriptor) && font_file(
                descriptor,
            ) is None && !(fonts[0] is Reference) ==> cmap_object(doc, font_dict) is None
        },
        descendant(doc, font_dict) is None ==> cmap_object(doc, font_dict) is None,
{
}

/// A font's descriptor is its own; without one, that of its first descendant.
pub proof fn law_descriptors(doc: Map<ObjectId, Object>, font_dict: Dictionary)
    ensures
        dict_entry(doc, font_dict, "FontDescriptor"@) is Some ==> descriptor_of(doc, font_dict)
            == dict_entry(doc, font_dict, "FontDescriptor"@),
        dict_entry(doc, font_dict, "FontDescriptor"@) is None ==> (match descendant(
            doc,
            font_dict,
        ) {
            Some(cid_font) => descriptor_of(doc, font_dict) == dict_entry(
                doc,
                cid_font,
                "FontDescriptor"@,
            ),
            None => descriptor_of(doc, font_dict) is None,
        }),
{
}

/// An angle is that of an italic font from four degrees on, to either side; the bits of numbers
/// above 0 are in the order of the numbers.
pub proof fn law_slant(bits: u32)
    ensures
        is_slanted(bits) <==> 0x4080_0000 <= bits <= 0x7F80_0000 || 0xC080_0000 <= bits
            <= 0xFF80_0000,
{
}

/// A descriptor makes a font italic by its angle or by the seventh of its flags, and bold by the
/// nineteenth; flags that are no integer are none.
pub proof fn law_descriptors_tell_the_style(descriptor: Dictionary, n: i64, bits: u32, flags: i64)
    ensures
        entry(descriptor, "ItalicAngle"@) == Some(Object::Integer(n)) && !(-4 < n < 4)
            ==> descriptor_style(descriptor).0,
        entry(descriptor, "ItalicAngle"@) == Some(Object::Real(bits)) && is_slanted(bits)
            ==> descriptor_style(descriptor).0,
        entry(descriptor, "Flags"@) == Some(Object::Integer(flags)) ==> {
            &&& flags & 0x40 != 0 ==> descriptor_style(descriptor).0
            &&& descriptor_style(descriptor).1 <==> flags & 0x4_0000 != 0
        },
        !(entry(descriptor, "Flags"@) matches Some(Object::Integer(_))) ==> !descriptor_style(
            descriptor,
        ).1,
        ({
            &&& !(entry(descriptor, "Flags"@) matches Some(Object::Integer(f)) && f & 0x40 != 0)
            &&& !(entry(descriptor, "ItalicAngle"@) matches Some(Object::Integer(a)) && !(-4 < a
                < 4))
            &&& !(entry(descriptor, "ItalicAngle"@) matches Some(Object::Real(b)) && is_slanted(b))
        }) ==> !descriptor_style(descriptor).0,
{
    assert(0i64 & 0x40 == 0) by (bit_vector);
    assert(0i64 & 0x4_0000 == 0) by (bit_vector);
}

/// The filters of a stream are one name, or the names of an array that holds nothing else.
pub proof fn law_filters(dict: Dictionary, name: Vec<u8>, items: Vec<Object>, k: int)
    ensures
        entry(dict, "Filter"@) is None ==> stream_filters(dict) is None,
        entry(dict, "Filter"@) == Some(Object::Name(name)) ==> stream_filters(dict) == Some(
            seq![name@],
        ),
        entry(dict, "Filter"@) == Some(Object::Array(items)) ==> {
            &&& 0 <= k < items@.len() && !(items@[k] is Name) ==> stream_filters(dict) is None
            &&& (forall|i: int| 0 <= i < items@.len() ==> (#[trigger] items@[i]) is Name) ==> (
            stream_filters(dict) matches Some(filters) && filters.len() == items@.len() && (0 <= k
                < items@.len() ==> filters[k] == items@[k]->Name_0@))
        },
        entry(dict, "Filter"@) matches Some(object) && !(object is Name) && !(object is Array)
            ==> stream_filters(dict) is None,
{
}

/// Each filter has the parameters at its own place of the array, or those of the one dictionary
/// that stands for all; all their entries are handed on.
pub proof fn law_filter_parameters(
    dict: Dictionary,
    items: Vec<Object>,
    parms: Dictionary,
    n: nat,
    i: int,
)
    requires
        0 <= i < n,
    ensures
        stream_parms(dict, n).len() == n,
        entry(dict, "DecodeParms"@) is None ==> stream_parms(dict, n)[i] is None,
        entry(dict, "DecodeParms"@) == Some(Object::Dictionary(parms)) ==> stream_parms(dict, n)[i]
            == Some(parm_entries(parms)),
        entry(dict, "DecodeParms"@) == Some(Object::Array(items)) ==> {
            &&& i >= items@.len() ==> stream_parms(dict, n)[i] is None
            &&& i < items@.len() && items@[i] == Object::Dictionary(parms) ==> stream_parms(
                dict,
                n,
            )[i] == Some(parm_entries(parms))
            &&& i < items@.len() && !(items@[i] is Dictionary) ==> stream_parms(dict, n)[i] is None
        },
        parm_entries(parms).len() == parms.entries@.len(),
        forall|k: int|
            0 <= k < parms.entries@.len() ==> {
                let given = #[trigger] parm_entries(parms)[parms.entries@.len() - 1 - k];
                &&& given.0 == parms.entries@[k].0@
                &&& parms.entries@[k].1 matches Object::Integer(value) ==> given.1 == Some(value)
                &&& !(parms.entries@[k].1 is Integer) ==> given.1 is None
            },
{
}

/// The data of a font program are the bytes of its stream where it has no filters; else what the
/// filters make of the bytes, or the bytes where they fail. What is no stream has no data.
pub proof fn law_font_programs(
    doc: Map<ObjectId, Object>,
    id: ObjectId,
    stream: Stream,
    filters: Seq<Seq<u8>>,
    data: Option<Seq<u8>>,
)
    ensures
        !(doc.contains_key(id) && doc[id] is Stream) ==> (is_program(doc, id, data) <==> data
            is None),
        doc.contains_key(id) && doc[id] == Object::Stream(stream) && stream_filters(stream.dict)
            is None ==> (is_program(doc, id, data) <==> data == Some(stream.content@)),
        doc.contains_key(id) && doc[id] == Object::Stream(stream) && stream_filters(stream.dict)
            == Some(filters) && is_program(doc, id, data) ==> data is Some && exists|
            decoded: Option<Seq<u8>>,
        |
            #[trigger] stream_outcomes(
                filters,
                stream_parms(stream.dict, filters.len()),
                stream.content@,
            ).contains(decoded) && (decoded is None ==> data->0 == stream.content@) && (
            decoded is Some ==> data->0 == decoded->0),
{
    if doc.contains_key(id) && doc[id] == Object::Stream(stream) && stream_filters(stream.dict)
        == Some(filters) && is_program(doc, id, data) {
        assert(is_decoded(stream, filters, data->0));
        let decoded = choose|decoded: Option<Seq<u8>>| #[trigger]
            crate::style::can_give(stream, filters, decoded) && data->0 == or_raw(
                decoded,
                stream.content@,
            );
        assert(stream_outcomes(
            filters,
            stream_parms(stream.dict, filters.len()),
            stream.content@,
        ).contains(decoded));
    }
}

/// The first name of a bare CFF font stands where its first two offsets say, counted from the byte
/// before the names, which follow the offsets. The offsets are of one to four bytes, the most
/// significant first, and there is one more of them than names.
pub proof fn law_cff_names(data: Seq<u8>, index: int, count: int, size: int, from: int, to: int)
    requires
        data.len() >= 4,
        data[0] == 1,
        data[2] == index,
        index + 2 < data.len(),
        256 * data[index] + data[index + 1] == count,
        count > 0,
        data[index + 2] == size,
        1 <= size <= 4,
        index + 3 + 2 * size <= data.len(),
        be_value(data.subrange(index + 3, index + 3 + size)) == from,
        be_value(data.subrange(index + 3 + size, index + 3 + 2 * size)) == to,
    ensures
        from == 0 || to < from ==> cff_name(data) is None,
        0 < from <= to && index + 2 + (count + 1) * size + to > data.len() ==> cff_name(data)
            is None,
        0 < from <= to && index + 2 + (count + 1) * size + to <= data.len() ==> cff_name(data)
            == Some(
            data.subrange(
                index + 2 + (count + 1) * size + from,
                index + 2 + (count + 1) * size + to,
            ),
        ),
{
    assert((count + 1) * size >= 0) by (nonlinear_arith)
        requires
            count > 0,
            size > 0,
    ;
    assert(crate::unicode::be16(data[index], data[index + 1]) == count);
}

/// What is no bare CFF font has no such name: its first byte is not 1, or it is too short, or it
/// has no names, or its offsets are of no known size.
pub proof fn law_no_cff_names(data: Seq<u8>)
    ensures
        data.len() < 4 ==> cff_name(data) is None,
        data.len() >= 4 && data[0] != 1 ==> cff_name(data) is None,
        data.len() >= 4 && data[2] + 2 >= data.len() ==> cff_name(data) is None,
        data.len() >= 4 && data[2] + 2 < data.len() && (data[data[2] as int] == 0 && data[data[2]
            + 1] == 0) ==> cff_name(data) is None,
        data.len() >= 4 && data[2] + 2 < data.len() && !(1 <= data[data[2] + 2] <= 4) ==> cff_name(
            data,
        ) is None,
        data.len() >= 4 && data[2] + 2 < data.len() && data[2] + 3 + 2 * data[data[2] + 2]
            > data.len() ==> cff_name(data) is None,
{
}

/// The style of a font program is that of its tables: italic by its flag or its angle, bold by its
/// flag. A program that cannot be read tells its style by the name of a bare CFF font, and else
/// none; and so does a program that is not there.
pub proof fn law_programs_tell_their_style(data: Seq<u8>)
    ensures
        face_style(data) matches Some(face) ==> program_style(Some(data)) == ProgramStyle::Flags(
            face.is_italic || is_slanted(face.italic_angle),
            face.is_bold,
        ),
        face_style(data) is None && cff_name(data) is Some ==> program_style(Some(data))
            == ProgramStyle::Named(utf8_lossy(cff_name(data)->0)),
        face_style(data) is None && cff_name(data) is None ==> program_style(Some(data))
            == ProgramStyle::Flags(false, false),
        program_style(None) == ProgramStyle::Flags(false, false),
{
}

/// A font's program is asked exactly where its descriptor has one and leaves open whether the font
/// is italic or bold; what the descriptor says goes with the question.
pub proof fn law_programs_are_asked_what_is_open(
    doc: Map<ObjectId, Object>,
    font_dict: Dictionary,
    descriptor: Dictionary,
)
    ensures
        descriptor_of(doc, font_dict) is None ==> open_question(doc, font_dict) is None
            && declared_style(doc, font_dict) == (false, false),
        descriptor_of(doc, font_dict) == Some(descriptor) ==> {
            &&& declared_style(doc, font_dict) == descriptor_style(descriptor)
            &&& font_file(descriptor) is None ==> open_question(doc, font_dict) is None
            &&& descriptor_style(descriptor) == (true, true) ==> open_question(doc, font_dict)
                is None
            &&& font_file(descriptor) is Some && descriptor_style(descriptor) != (true, true)
                ==> open_question(doc, font_dict) == Some(
                (font_file(descriptor)->0, descriptor_style(descriptor)),
            )
        },
{
}

/// A font is italic where its descriptor or its program says so, and bold likewise; where the
/// program has a name only, the name says it. What a program says is kept for it, and nothing is
/// kept for any other.
pub proof fn law_styles_come_together(
    styles: Map<ObjectId, (bool, bool)>,
    file: ObjectId,
    declared: (bool, bool),
    italic: bool,
    bold: bool,
    name: Seq<char>,
    named: (bool, bool),
    other: ObjectId,
)
    ensures
        settled(answered(file, declared, ProgramStyle::Flags(italic, bold)), named) == (
            declared.0 || italic,
            declared.1 || bold,
        ),
        settled(answered(file, declared, ProgramStyle::Named(name)), named) == (
            declared.0 || named.0,
            declared.1 || named.1,
        ),
        answered(file, declared, ProgramStyle::Named(name)) matches StyleView::ByName {
            font_file,
            name: asked,
            italic: _,
            bold: _,
        } && font_file == file && asked == name,
        remembered(styles, file, ProgramStyle::Flags(italic, bold)) == styles.insert(
            file,
            (italic, bold),
        ),
        remembered(styles, file, ProgramStyle::Named(name)) == styles,
        settled_styles(styles, answered(file, declared, ProgramStyle::Named(name)), named)
            == styles.insert(file, named),
        settled_styles(styles, answered(file, declared, ProgramStyle::Flags(italic, bold)), named)
            == styles,
{
}

}
