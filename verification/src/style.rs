//! Bold and italic: what a font's descriptor and its embedded program say.

use crate::number::{is_less, is_nan, less, magnitude, nan, SIGN};
use crate::object::{
    array_entry, dict_entry, entry, has_name, id_key, object_at, reference_entry, resolve_dict,
    value_of, Dictionary, Document, Object, ObjectId, Stream,
};
use crate::outside::{
    are_steady, decompressed, face_style, is_known_filter, names_of, opt_bytes, parm_list,
    parm_lists, read_face, stream_outcomes,
};
use crate::text::opt_text;
use crate::unicode::{be16, lossy_text, utf8_lossy};
use crate::widths::{descendant, descendant_font};
use std::collections::HashMap;
use vstd::prelude::*;
use vstd::slice::{slice_subrange, slice_to_vec};
use vstd::string::*;

verus! {

broadcast use vstd::std_specs::hash::group_hash_axioms;

/// The bits of 4.0: the slant, in degrees, from which on a font counts as italic.
pub const ITALIC_FROM: u32 = 0x4080_0000;

/// The descriptor flag of an italic font.
pub const FLAG_ITALIC: i64 = 0x40;

/// The descriptor flag of a font that is to look bold.
pub const FLAG_FORCE_BOLD: i64 = 0x4_0000;

/// The font program that a descriptor refers to: `/FontFile2`, else `/FontFile3`.
pub open spec fn font_file(descriptor: Dictionary) -> Option<ObjectId> {
    match reference_entry(descriptor, "FontFile2"@) {
        Some(id) => Some(id),
        None => reference_entry(descriptor, "FontFile3"@),
    }
}

/// The object number under which the CMap of a font without ToUnicode is kept: that of its font
/// program; for a composite font with an Identity encoding and no font program, that of its
/// descendant.
pub open spec fn cmap_object(doc: Map<ObjectId, Object>, font_dict: Dictionary) -> Option<u32> {
    if has_name(font_dict, "Subtype"@, "Type0"@) {
        if !has_name(font_dict, "Encoding"@, "Identity-H"@) && !has_name(
            font_dict,
            "Encoding"@,
            "Identity-V"@,
        ) {
            None
        } else {
            match descendant(doc, font_dict) {
                Some(cid_font) => match dict_entry(doc, cid_font, "FontDescriptor"@) {
                    Some(descriptor) => match font_file(descriptor) {
                        Some(id) => Some(id.0),
                        None => match array_entry(doc, font_dict, "DescendantFonts"@)->0[0] {
                            Object::Reference(id) => Some(id.0),
                            _ => None,
                        },
                    },
                    None => None,
                },
                None => None,
            }
        }
    } else {
        match dict_entry(doc, font_dict, "FontDescriptor"@) {
            Some(descriptor) => match font_file(descriptor) {
                Some(id) => Some(id.0),
                None => None,
            },
            None => None,
        }
    }
}

/// A font's descriptor: its own, else that of its first descendant.
pub open spec fn descriptor_of(
    doc: Map<ObjectId, Object>,
    font_dict: Dictionary,
) -> Option<Dictionary> {
    match dict_entry(doc, font_dict, "FontDescriptor"@) {
        Some(descriptor) => Some(descriptor),
        None => match descendant(doc, font_dict) {
            Some(cid_font) => dict_entry(doc, cid_font, "FontDescriptor"@),
            None => None,
        },
    }
}

/// Whether an angle, given by its bits, is that of an italic font.
pub open spec fn is_slanted(angle: u32) -> bool {
    !is_nan(angle) && !is_less(magnitude(angle), ITALIC_FROM)
}

/// Whether a descriptor's angle is that of an italic font.
pub open spec fn has_slant(descriptor: Dictionary) -> bool {
    match entry(descriptor, "ItalicAngle"@) {
        Some(Object::Integer(n)) => n >= 4 || n <= -4,
        Some(Object::Real(bits)) => is_slanted(bits),
        _ => false,
    }
}

/// A descriptor's flags.
pub open spec fn descriptor_bits(descriptor: Dictionary) -> i64 {
    match entry(descriptor, "Flags"@) {
        Some(Object::Integer(n)) => n,
        _ => 0,
    }
}

/// What a descriptor itself says: whether the font is italic, and whether it is bold.
pub open spec fn descriptor_style(descriptor: Dictionary) -> (bool, bool) {
    (
        has_slant(descriptor) || descriptor_bits(descriptor) & FLAG_ITALIC != 0,
        descriptor_bits(descriptor) & FLAG_FORCE_BOLD != 0,
    )
}

/// The filters of a stream: one name, or an array of nothing but names.
pub open spec fn stream_filters(dict: Dictionary) -> Option<Seq<Seq<u8>>> {
    match entry(dict, "Filter"@) {
        Some(Object::Name(name)) => Some(seq![name@]),
        Some(Object::Array(items)) => if forall|i: int|
            0 <= i < items@.len() ==> (#[trigger] items@[i]) is Name {
            Some(items@.map_values(|item: Object| item->Name_0@))
        } else {
            None
        },
        _ => None,
    }
}

/// An object's value, where it is an integer.
pub open spec fn integer_of(object: Object) -> Option<i64> {
    match object {
        Object::Integer(n) => Some(n),
        _ => None,
    }
}

/// A parameter dictionary as a list in which the last entry under a key counts: the dictionary's
/// own entries from the last to the first.
pub open spec fn parm_entries(parms: Dictionary) -> Seq<(Seq<u8>, Option<i64>)> {
    let entries = parms.entries@;
    Seq::new(
        entries.len(),
        |i: int|
            (entries[entries.len() - 1 - i].0@, integer_of(entries[entries.len() - 1 - i].1)),
    )
}

/// The dictionary that holds the parameters of filter `i`: one for all filters, or one for each.
pub open spec fn parms_dict(dict: Dictionary, i: int) -> Option<Dictionary> {
    match entry(dict, "DecodeParms"@) {
        Some(Object::Array(items)) => if i < items@.len() {
            match items@[i] {
                Object::Dictionary(parms) => Some(parms),
                _ => None,
            }
        } else {
            None
        },
        Some(Object::Dictionary(parms)) => Some(parms),
        _ => None,
    }
}

/// The parameters of the first `n` filters of a stream.
pub open spec fn stream_parms(dict: Dictionary, n: nat) -> Seq<
    Option<Seq<(Seq<u8>, Option<i64>)>>,
> {
    Seq::new(
        n,
        |i: int|
            match parms_dict(dict, i) {
                Some(parms) => Some(parm_entries(parms)),
                None => None,
            },
    )
}

/// What decoding gave, or the bytes themselves where it failed.
pub open spec fn or_raw(decoded: Option<Seq<u8>>, content: Seq<u8>) -> Seq<u8> {
    match decoded {
        Some(decoded) => decoded,
        None => content,
    }
}

/// Whether decoding a stream can give some data, `None` for a failure: one of the outcomes that
/// its filters allow, the only one where they are all steady, and a failure where one of them is
/// not known.
pub open spec fn can_give(stream: Stream, filters: Seq<Seq<u8>>, decoded: Option<Seq<u8>>) -> bool {
    let outcomes = stream_outcomes(
        filters,
        stream_parms(stream.dict, filters.len()),
        stream.content@,
    );
    &&& outcomes.contains(decoded)
    &&& are_steady(filters) ==> outcomes == set![decoded]
    &&& (exists|i: int| 0 <= i < filters.len() && !is_known_filter(#[trigger] filters[i]))
        ==> decoded is None
}

/// Whether some data are what decoding a stream can give, or its bytes where it can fail.
pub open spec fn is_decoded(stream: Stream, filters: Seq<Seq<u8>>, data: Seq<u8>) -> bool {
    exists|decoded: Option<Seq<u8>>| #[trigger]
        can_give(stream, filters, decoded) && data == or_raw(decoded, stream.content@)
}

/// Whether some data are those of a font program: the decoded stream, or the bytes of the stream
/// themselves where it has no filters or they fail.
pub open spec fn is_program(
    doc: Map<ObjectId, Object>,
    id: ObjectId,
    data: Option<Seq<u8>>,
) -> bool {
    match object_at(doc, id) {
        Some(Object::Stream(stream)) => match stream_filters(stream.dict) {
            Some(filters) => data is Some && is_decoded(stream, filters, data->0),
            None => data == Some(stream.content@),
        },
        _ => data is None,
    }
}

/// A number by its bytes, the most significant first.
pub open spec fn be_value(bytes: Seq<u8>) -> nat
    decreases bytes.len(),
{
    if bytes.len() == 0 {
        0
    } else {
        be_value(bytes.drop_last()) * 256 + bytes.last() as nat
    }
}

/// The bytes from `start` up to `end`, where there are so many.
pub open spec fn slice_of(data: Seq<u8>, start: int, end: int) -> Option<Seq<u8>> {
    if start <= end <= data.len() {
        Some(data.subrange(start, end))
    } else {
        None
    }
}

/// The first name of a bare CFF font: its Name INDEX follows the header, and starts with the
/// count of names, the size of an offset, and the offsets. Offsets count from the byte before
/// the names.
pub open spec fn cff_name(data: Seq<u8>) -> Option<Seq<u8>> {
    if data.len() < 4 || data[0] != 1 {
        None
    } else {
        let index = data[2] as int;
        if index + 2 >= data.len() || be16(data[index], data[index + 1]) == 0 || !(1 <= data[index
            + 2] <= 4) {
            None
        } else {
            let count = be16(data[index], data[index + 1]) as int;
            let size = data[index + 2] as int;
            let offsets = index + 3;
            let base = offsets + (count + 1) * size - 1;
            match (
                slice_of(data, offsets, offsets + size),
                slice_of(data, offsets + size, offsets + 2 * size),
            ) {
                (Some(first), Some(second)) => if be_value(first) == 0 || be_value(second)
                    < be_value(first) {
                    None
                } else {
                    slice_of(data, base + be_value(first), base + be_value(second))
                },
                _ => None,
            }
        }
    }
}

/// The style of a font program: the flags that it has, or the name that tells it.
pub enum ProgramStyle {
    Flags(bool, bool),
    Named(Seq<char>),
}

/// The style that a font program tells: by its tables, else by the name of a bare CFF font.
pub open spec fn program_style(data: Option<Seq<u8>>) -> ProgramStyle {
    match data {
        Some(data) => match face_style(data) {
            Some(face) => ProgramStyle::Flags(
                face.is_italic || is_slanted(face.italic_angle),
                face.is_bold,
            ),
            None => match cff_name(data) {
                Some(name) => ProgramStyle::Named(utf8_lossy(name)),
                None => ProgramStyle::Flags(false, false),
            },
        },
        None => ProgramStyle::Flags(false, false),
    }
}

/// The style of an embedded font: whether it is italic and bold, or the PostScript name that
/// tells it.
#[derive(Debug)]
pub enum EmbeddedStyle {
    Flags(bool, bool),
    Named(String),
}

impl View for EmbeddedStyle {
    type V = ProgramStyle;

    open spec fn view(&self) -> ProgramStyle {
        match self {
            EmbeddedStyle::Flags(italic, bold) => ProgramStyle::Flags(*italic, *bold),
            EmbeddedStyle::Named(name) => ProgramStyle::Named(name@),
        }
    }
}

/// The styles of a document's embedded fonts, by the object that holds the font program.
#[derive(Debug)]
pub struct FontStyleCache {
    by_font_file: HashMap<u64, (bool, bool)>,
}

impl View for FontStyleCache {
    type V = Map<ObjectId, (bool, bool)>;

    closed spec fn view(&self) -> Map<ObjectId, (bool, bool)> {
        Map::new(
            |id: ObjectId| self.by_font_file@.contains_key(id_key(id)),
            |id: ObjectId| self.by_font_file@[id_key(id)],
        )
    }
}

impl FontStyleCache {
    /// A cache without styles.
    pub fn new() -> (cache: Self)
        ensures
            cache@ == Map::<ObjectId, (bool, bool)>::empty(),
    {
        let cache = FontStyleCache { by_font_file: HashMap::new() };
        assert(cache@ =~= Map::<ObjectId, (bool, bool)>::empty());
        cache
    }

    /// The style of a font program, where it is known.
    pub fn get(&self, id: ObjectId) -> (style: Option<(bool, bool)>)
        ensures
            style == (if self@.contains_key(id) {
                Some(self@[id])
            } else {
                None
            }),
    {
        match self.by_font_file.get(&(id.0 as u64 * 0x1_0000 + id.1 as u64)) {
            Some(style) => Some(*style),
            None => None,
        }
    }

    /// Keeps the style of a font program.
    fn insert(&mut self, id: ObjectId, style: (bool, bool))
        ensures
            final(self)@ == old(self)@.insert(id, style),
    {
        let ghost before = self@;
        self.by_font_file.insert(id.0 as u64 * 0x1_0000 + id.1 as u64, style);
        assert forall|other: ObjectId| id_key(other) == id_key(id) implies other == id by {
            assert(other.0 == id.0);
        }
        assert(self@ =~= before.insert(id, style));
    }
}

/// The font program that a descriptor refers to.
pub fn font_file_ref(descriptor: &Dictionary) -> (id: Option<ObjectId>)
    ensures
        id == font_file(*descriptor),
{
    match descriptor.get_reference("FontFile2") {
        Some(id) => Some(id),
        None => descriptor.get_reference("FontFile3"),
    }
}

/// The object number under which the CMap of a font without ToUnicode is kept.
pub fn get_font_file2_obj_num(doc: &Document, font_dict: &Dictionary) -> (obj_num: Option<u32>)
    ensures
        obj_num == cmap_object(doc@, *font_dict),
{
    if font_dict.names("Subtype", "Type0") {
        if !font_dict.names("Encoding", "Identity-H") && !font_dict.names(
            "Encoding",
            "Identity-V",
        ) {
            return None;
        }
        let fonts = match font_dict.get_array(doc, "DescendantFonts") {
            Some(fonts) => fonts,
            None => return None,
        };
        if fonts.len() == 0 {
            return None;
        }
        let cid_font = match resolve_dict(doc, &fonts[0]) {
            Some(cid_font) => cid_font,
            None => return None,
        };
        let descriptor = match cid_font.get_dict(doc, "FontDescriptor") {
            Some(descriptor) => descriptor,
            None => return None,
        };
        return match font_file_ref(descriptor) {
            Some(id) => Some(id.0),
            None => match &fonts[0] {
                Object::Reference(id) => Some(id.0),
                _ => None,
            },
        };
    }
    match font_dict.get_dict(doc, "FontDescriptor") {
        Some(descriptor) => match font_file_ref(descriptor) {
            Some(id) => Some(id.0),
            None => None,
        },
        None => None,
    }
}

/// A font's descriptor.
fn descriptor_of_font<'a>(doc: &'a Document, font_dict: &'a Dictionary) -> (descriptor: Option<
    &'a Dictionary,
>)
    ensures
        value_of(descriptor) == descriptor_of(doc@, *font_dict),
{
    match font_dict.get_dict(doc, "FontDescriptor") {
        Some(descriptor) => Some(descriptor),
        None => match descendant_font(doc, font_dict) {
            Some(cid_font) => cid_font.get_dict(doc, "FontDescriptor"),
            None => None,
        },
    }
}

fn slanted(angle: u32) -> (r: bool)
    ensures
        r == is_slanted(angle),
{
    !nan(angle) && !less(angle % SIGN, ITALIC_FROM)
}

/// What a descriptor itself says.
fn style_of_descriptor(descriptor: &Dictionary) -> (style: (bool, bool))
    ensures
        style == descriptor_style(*descriptor),
{
    let slant = match descriptor.get("ItalicAngle") {
        Some(Object::Integer(n)) => *n >= 4 || *n <= -4,
        Some(Object::Real(bits)) => slanted(*bits),
        _ => false,
    };
    let flags: i64 = match descriptor.get("Flags") {
        Some(Object::Integer(n)) => *n,
        _ => 0,
    };
    (slant || flags & FLAG_ITALIC != 0, flags & FLAG_FORCE_BOLD != 0)
}

fn read_filters(dict: &Dictionary) -> (filters: Option<Vec<Vec<u8>>>)
    ensures
        match filters {
            Some(filters) => stream_filters(*dict) == Some(names_of(filters@)),
            None => stream_filters(*dict) is None,
        },
{
    match dict.get("Filter") {
        Some(Object::Name(name)) => {
            let mut filters: Vec<Vec<u8>> = Vec::new();
            filters.push(slice_to_vec(name.as_slice()));
            assert(names_of(filters@) =~= seq![name@]);
            Some(filters)
        },
        Some(Object::Array(items)) => {
            let mut filters: Vec<Vec<u8>> = Vec::new();
            let ghost all = items@.map_values(|item: Object| item->Name_0@);
            for i in 0..items.len()
                invariant
                    entry(*dict, "Filter"@) == Some(Object::Array(*items)),
                    all == items@.map_values(|item: Object| item->Name_0@),
                    names_of(filters@) == all.take(i as int),
                    forall|j: int| 0 <= j < i ==> (#[trigger] items@[j]) is Name,
            {
                match &items[i] {
                    Object::Name(name) => {
                        let ghost before = names_of(filters@);
                        filters.push(slice_to_vec(name.as_slice()));
                        assert(names_of(filters@) =~= before.push(name@));
                        assert(all.take(i + 1) =~= all.take(i as int).push(name@));
                    },
                    _ => {
                        assert(!(items@[i as int] is Name));
                        return None;
                    },
                }
            }
            assert(all.take(items@.len() as int) =~= all);
            Some(filters)
        },
        _ => None,
    }
}

/// The entries of a parameter dictionary, from the last to the first.
fn read_parm_entries(dict: &Dictionary) -> (parms: Vec<(Vec<u8>, Option<i64>)>)
    ensures
        parm_list(parms@) == parm_entries(*dict),
{
    let len = dict.entries.len();
    let mut parms: Vec<(Vec<u8>, Option<i64>)> = Vec::new();
    for i in 0..len
        invariant
            len == dict.entries@.len(),
            parm_list(parms@) == parm_entries(*dict).take(i as int),
    {
        let ghost before = parm_list(parms@);
        let from = &dict.entries[len - 1 - i];
        let value = match &from.1 {
            Object::Integer(n) => Some(*n),
            _ => None,
        };
        parms.push((slice_to_vec(from.0.as_slice()), value));
        assert(parm_list(parms@) =~= before.push((from.0@, value)));
        assert(parm_list(parms@) =~= parm_entries(*dict).take(i + 1));
    }
    assert(parm_entries(*dict).take(len as int) =~= parm_entries(*dict));
    parms
}

fn read_parms(dict: &Dictionary, n: usize) -> (parms: Vec<Option<Vec<(Vec<u8>, Option<i64>)>>>)
    ensures
        parm_lists(parms@) == stream_parms(*dict, n as nat),
{
    let mut all: Vec<Option<Vec<(Vec<u8>, Option<i64>)>>> = Vec::new();
    for i in 0..n
        invariant
            parm_lists(all@) == stream_parms(*dict, n as nat).take(i as int),
    {
        let ghost before = parm_lists(all@);
        let own = match dict.get("DecodeParms") {
            Some(Object::Array(items)) => if i < items.len() {
                match &items[i] {
                    Object::Dictionary(parms) => Some(parms),
                    _ => None,
                }
            } else {
                None
            },
            Some(Object::Dictionary(parms)) => Some(parms),
            _ => None,
        };
        assert(value_of(own) == parms_dict(*dict, i as int));
        let parms = match own {
            Some(parms) => Some(read_parm_entries(parms)),
            None => None,
        };
        all.push(parms);
        assert(parm_lists(all@) =~= before.push(stream_parms(*dict, n as nat)[i as int]));
        assert(parm_lists(all@) =~= stream_parms(*dict, n as nat).take(i + 1));
    }
    assert(stream_parms(*dict, n as nat).take(n as int) =~= stream_parms(*dict, n as nat));
    all
}

/// What decoding gave, or the bytes themselves where it failed.
pub fn decoded_or_raw(decoded: Option<Vec<u8>>, content: &[u8]) -> (data: Vec<u8>)
    ensures
        data@ == or_raw(opt_bytes(decoded), content@),
{
    match decoded {
        Some(decoded) => decoded,
        None => slice_to_vec(content),
    }
}

/// The bytes of an embedded font program.
pub fn font_file_data(doc: &Document, ff_ref: ObjectId) -> (data: Option<Vec<u8>>)
    ensures
        is_program(doc@, ff_ref, opt_bytes(data)),
{
    let stream = match doc.get_object(ff_ref) {
        Some(Object::Stream(stream)) => stream,
        _ => return None,
    };
    match read_filters(&stream.dict) {
        Some(filters) => {
            let parms = read_parms(&stream.dict, filters.len());
            let decoded = decompressed(
                filters.as_slice(),
                parms.as_slice(),
                stream.content.as_slice(),
            );
            assert(can_give(*stream, names_of(filters@), opt_bytes(decoded)));
            let data = decoded_or_raw(decoded, stream.content.as_slice());
            assert(is_decoded(*stream, names_of(filters@), data@));
            Some(data)
        },
        None => Some(slice_to_vec(stream.content.as_slice())),
    }
}

/// A big-endian number of at most four bytes.
fn read_offset(data: &[u8], at: usize, size: usize) -> (r: Option<u64>)
    requires
        1 <= size <= 4,
        at <= 1024,
    ensures
        match slice_of(data@, at as int, at + size) {
            Some(bytes) => r == Some(be_value(bytes) as u64) && be_value(bytes) <= 0xFFFF_FFFF,
            None => r is None,
        },
{
    if at + size > data.len() {
        return None;
    }
    let ghost bytes = data@.subrange(at as int, at + size);
    let mut v: u64 = 0;
    let mut limit: u64 = 1;
    for i in 0..size
        invariant
            size <= 4,
            at + size <= data@.len(),
            at <= 1024,
            bytes == data@.subrange(at as int, at + size),
            v == be_value(bytes.take(i as int)),
            v < limit,
            limit == 1 || i > 0,
            i == 0 ==> limit == 1,
            i == 1 ==> limit == 0x100,
            i == 2 ==> limit == 0x1_0000,
            i == 3 ==> limit == 0x100_0000,
            i == 4 ==> limit == 0x1_0000_0000,
    {
        assert(bytes.take(i + 1).drop_last() =~= bytes.take(i as int));
        v = v * 256 + data[at + i] as u64;
        limit = limit * 256;
    }
    assert(bytes.take(size as int) =~= bytes);
    Some(v)
}

/// The first name of a bare CFF font.
pub fn cff_font_name(data: &[u8]) -> (name: Option<String>)
    ensures
        opt_text(name) == match cff_name(data@) {
            Some(name) => Some(utf8_lossy(name)),
            None => None,
        },
{
    if data.len() < 4 || data[0] != 1 {
        return None;
    }
    let index = data[2] as usize;
    if index + 2 >= data.len() {
        return None;
    }
    let count = data[index] as u64 * 256 + data[index + 1] as u64;
    assert(count == be16(data@[index as int], data@[index + 1]));
    if count == 0 {
        return None;
    }
    let size = data[index + 2] as usize;
    if size < 1 || size > 4 {
        return None;
    }
    let offsets = index + 3;
    let start = match read_offset(data, offsets, size) {
        Some(start) => start,
        None => return None,
    };
    let end = match read_offset(data, offsets + size, size) {
        Some(end) => end,
        None => return None,
    };
    if start == 0 || end < start {
        return None;
    }
    assert(1 <= (count + 1) * size <= 0x10_0000) by (nonlinear_arith)
        requires
            0 <= count <= 0xFFFF,
            1 <= size <= 4,
    ;
    let base: u64 = offsets as u64 + (count + 1) * (size as u64) - 1;
    if base + end > data.len() as u64 {
        return None;
    }
    let name = slice_subrange(data, (base + start) as usize, (base + end) as usize);
    Some(lossy_text(name))
}

/// The style that the bytes of a font program tell.
pub fn program_style_flags(data: Option<&[u8]>) -> (style: EmbeddedStyle)
    ensures
        style@ == program_style(
            match data {
                Some(data) => Some(data@),
                None => None,
            },
        ),
{
    let data = match data {
        Some(data) => data,
        None => return EmbeddedStyle::Flags(false, false),
    };
    match read_face(data) {
        Some(face) => EmbeddedStyle::Flags(
            face.is_italic || slanted(face.italic_angle),
            face.is_bold,
        ),
        None => match cff_font_name(data) {
            Some(name) => EmbeddedStyle::Named(name),
            None => EmbeddedStyle::Flags(false, false),
        },
    }
}

/// The style of an embedded font program.
pub fn embedded_style_flags(doc: &Document, ff_ref: ObjectId) -> (style: EmbeddedStyle)
    ensures
        exists|data: Option<Seq<u8>>| #[trigger]
            is_program(doc@, ff_ref, data) && style@ == program_style(data),
{
    let data = font_file_data(doc, ff_ref);
    match &data {
        Some(data) => program_style_flags(Some(data.as_slice())),
        None => program_style_flags(None),
    }
}

/// The style of a font: known, or to be told by the PostScript name of its font program. In that
/// case it is what the descriptor says, or what the name tells.
#[derive(Debug)]
pub enum FontStyle {
    Known(bool, bool),
    ByName { font_file: ObjectId, name: String, italic: bool, bold: bool },
}

/// The style of a font.
pub enum StyleView {
    Known(bool, bool),
    ByName { font_file: ObjectId, name: Seq<char>, italic: bool, bold: bool },
}

impl View for FontStyle {
    type V = StyleView;

    open spec fn view(&self) -> StyleView {
        match self {
            FontStyle::Known(italic, bold) => StyleView::Known(*italic, *bold),
            FontStyle::ByName { font_file, name, italic, bold } => StyleView::ByName {
                font_file: *font_file,
                name: name@,
                italic: *italic,
                bold: *bold,
            },
        }
    }
}

/// Whether a font's own descriptor leaves a question that a font program may answer: the
/// program, and what the descriptor says.
pub open spec fn open_question(
    doc: Map<ObjectId, Object>,
    font_dict: Dictionary,
) -> Option<(ObjectId, (bool, bool))> {
    match descriptor_of(doc, font_dict) {
        Some(descriptor) => {
            let (italic, bold) = descriptor_style(descriptor);
            match font_file(descriptor) {
                Some(id) => if italic && bold {
                    None
                } else {
                    Some((id, (italic, bold)))
                },
                None => None,
            }
        },
        None => None,
    }
}

/// What a font's own descriptor says; nothing where there is none.
pub open spec fn declared_style(doc: Map<ObjectId, Object>, font_dict: Dictionary) -> (bool, bool) {
    match descriptor_of(doc, font_dict) {
        Some(descriptor) => descriptor_style(descriptor),
        None => (false, false),
    }
}

/// The style of a font whose program has a given style.
pub open spec fn answered(
    font_file: ObjectId,
    declared: (bool, bool),
    program: ProgramStyle,
) -> StyleView {
    match program {
        ProgramStyle::Flags(italic, bold) => StyleView::Known(
            declared.0 || italic,
            declared.1 || bold,
        ),
        ProgramStyle::Named(name) => StyleView::ByName {
            font_file,
            name,
            italic: declared.0,
            bold: declared.1,
        },
    }
}

/// The styles that are known once a program has been read: a style told by a name is not yet.
pub open spec fn remembered(
    styles: Map<ObjectId, (bool, bool)>,
    font_file: ObjectId,
    program: ProgramStyle,
) -> Map<ObjectId, (bool, bool)> {
    match program {
        ProgramStyle::Flags(italic, bold) => styles.insert(font_file, (italic, bold)),
        ProgramStyle::Named(_) => styles,
    }
}

/// Whether a font is italic and bold: by its descriptor, and where that leaves one open, by its
/// embedded program, which is read once.
pub fn descriptor_style_flags(
    doc: &Document,
    font_dict: &Dictionary,
    style_cache: &mut FontStyleCache,
) -> (style: FontStyle)
    ensures
        match open_question(doc@, *font_dict) {
            Some((id, declared)) => if old(style_cache)@.contains_key(id) {
                let known = old(style_cache)@[id];
                &&& style@ == answered(id, declared, ProgramStyle::Flags(known.0, known.1))
                &&& final(style_cache)@ == old(style_cache)@
            } else {
                exists|data: Option<Seq<u8>>| #[trigger]
                    is_program(doc@, id, data) && style@ == answered(
                        id,
                        declared,
                        program_style(data),
                    ) && final(style_cache)@ == remembered(
                        old(style_cache)@,
                        id,
                        program_style(data),
                    )
            },
            None => {
                &&& style@ == StyleView::Known(
                    declared_style(doc@, *font_dict).0,
                    declared_style(doc@, *font_dict).1,
                )
                &&& final(style_cache)@ == old(style_cache)@
            },
        },
{
    let descriptor = match descriptor_of_font(doc, font_dict) {
        Some(descriptor) => descriptor,
        None => return FontStyle::Known(false, false),
    };
    let (italic, bold) = style_of_descriptor(descriptor);
    if italic && bold {
        return FontStyle::Known(italic, bold);
    }
    let font_file = match font_file_ref(descriptor) {
        Some(id) => id,
        None => return FontStyle::Known(italic, bold),
    };
    match style_cache.get(font_file) {
        Some(known) => FontStyle::Known(italic || known.0, bold || known.1),
        None => match embedded_style_flags(doc, font_file) {
            EmbeddedStyle::Flags(emb_italic, emb_bold) => {
                style_cache.insert(font_file, (emb_italic, emb_bold));
                FontStyle::Known(italic || emb_italic, bold || emb_bold)
            },
            EmbeddedStyle::Named(name) => FontStyle::ByName { font_file, name, italic, bold },
        },
    }
}

/// Whether a font is italic and bold, where the name of its program tells `named`.
pub open spec fn settled(style: StyleView, named: (bool, bool)) -> (bool, bool) {
    match style {
        StyleView::Known(italic, bold) => (italic, bold),
        StyleView::ByName { font_file: _, name: _, italic, bold } => (
            italic || named.0,
            bold || named.1,
        ),
    }
}

/// The styles that are known once a name has told one.
pub open spec fn settled_styles(
    styles: Map<ObjectId, (bool, bool)>,
    style: StyleView,
    named: (bool, bool),
) -> Map<ObjectId, (bool, bool)> {
    match style {
        StyleView::Known(_, _) => styles,
        StyleView::ByName { font_file, name: _, italic: _, bold: _ } => styles.insert(
            font_file,
            named,
        ),
    }
}

/// Whether a font is italic and bold, where the name of its program tells `named`; that is then
/// remembered for the program.
pub fn named_style_flags(
    style: FontStyle,
    named: (bool, bool),
    style_cache: &mut FontStyleCache,
) -> (flags: (bool, bool))
    ensures
        flags == settled(style@, named),
        final(style_cache)@ == settled_styles(old(style_cache)@, style@, named),
{
    match style {
        FontStyle::Known(italic, bold) => (italic, bold),
        FontStyle::ByName { font_file, name, italic, bold } => {
            style_cache.insert(font_file, named);
            (italic || named.0, bold || named.1)
        },
    }
}

/// A font program that has a filter which is not known is taken as it stands.
pub proof fn law_undecodable_programs_are_raw(
    doc: Map<ObjectId, Object>,
    id: ObjectId,
    stream: Stream,
    filters: Seq<Seq<u8>>,
    i: int,
    data: Option<Seq<u8>>,
)
    requires
        object_at(doc, id) == Some(Object::Stream(stream)),
        stream_filters(stream.dict) == Some(filters),
        0 <= i < filters.len(),
        !is_known_filter(filters[i]),
        is_program(doc, id, data),
    ensures
        data == Some(stream.content@),
{
}

/// A font program whose filters are all steady gives the same data whenever it is read.
pub proof fn law_steady_programs_stay_the_same(
    doc: Map<ObjectId, Object>,
    id: ObjectId,
    stream: Stream,
    filters: Seq<Seq<u8>>,
    once: Option<Seq<u8>>,
    again: Option<Seq<u8>>,
)
    requires
        object_at(doc, id) == Some(Object::Stream(stream)),
        stream_filters(stream.dict) == Some(filters),
        are_steady(filters),
        is_program(doc, id, once),
        is_program(doc, id, again),
    ensures
        once == again,
{
}

/// A font is never less italic or bold than its descriptor says, whatever its program holds.
pub proof fn law_programs_only_add_style(
    font_file: ObjectId,
    declared: (bool, bool),
    program: ProgramStyle,
)
    ensures
        match answered(font_file, declared, program) {
            StyleView::Known(italic, bold) => (declared.0 ==> italic) && (declared.1 ==> bold),
            StyleView::ByName { font_file: _, name: _, italic, bold } => (italic, bold)
                == declared,
        },
{
}

/// Once a font has been answered, by the tables of its program or by its name, the program is
/// not read again: whatever its bytes are by then, later fonts with the same program are answered
/// as the program was read.
pub proof fn law_remembered_style_answers(
    styles: Map<ObjectId, (bool, bool)>,
    font_file: ObjectId,
    declared: (bool, bool),
    later: (bool, bool),
    program: ProgramStyle,
    named: (bool, bool),
)
    ensures
        ({
            let first = answered(font_file, declared, program);
            let after = settled_styles(remembered(styles, font_file, program), first, named);
            let known = after[font_file];
            let again = answered(font_file, later, ProgramStyle::Flags(known.0, known.1));
            &&& after.contains_key(font_file)
            &&& again is Known
            &&& settled(again, named) == settled(answered(font_file, later, program), named)
        }),
{
}

}
