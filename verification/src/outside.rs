//! The calls that the library makes into other crates, each with what is known of its result.

use crate::bidi::BidiClass;
use lopdf::Encoding;
use unicode_bidi::BidiClass::{
    AL, AN, B, BN, CS, EN, ES, ET, FSI, L, LRE, LRI, LRO, NSM, ON, PDF, PDI, R, RLE, RLI, RLO, S,
    WS,
};
use vstd::prelude::*;
use vstd::utf8::*;

verus! {

/// `lopdf::Encoding`: how a font's bytes stand for text.
#[verifier::external_type_specification]
#[verifier::external_body]
pub struct ExEncoding<'a>(Encoding<'a>);

/// The byte strings that an encoding can decode, each with its text.
pub uninterp spec fn encoding_texts(encoding: Encoding<'_>) -> Map<Seq<u8>, Seq<char>>;

/// `lopdf::Document::decode_text` decodes a byte string by an encoding, or fails. Which of the
/// two it does, and to what text, depends on the encoding and the bytes alone.
#[verifier::external_body]
pub(crate) fn decode_text(encoding: &Encoding<'_>, bytes: &[u8]) -> (text: Option<String>)
    ensures
        match text {
            Some(text) => encoding_texts(*encoding).contains_pair(bytes@, text@),
            None => !encoding_texts(*encoding).contains_key(bytes@),
        },
{
    lopdf::Document::decode_text(encoding, bytes).ok()
}

/// The Bidi_Class of a character.
pub uninterp spec fn unicode_class(c: char) -> BidiClass;

/// `unicode_bidi::bidi_class` looks a character's Bidi_Class up in the Unicode tables that the
/// crate holds.
#[verifier::external_body]
pub(crate) fn bidi_class(c: char) -> (class: BidiClass)
    ensures
        class == unicode_class(c),
{
    match unicode_bidi::bidi_class(c) {
        AL => BidiClass::AL, AN => BidiClass::AN, B => BidiClass::B, BN => BidiClass::BN,
        CS => BidiClass::CS, EN => BidiClass::EN, ES => BidiClass::ES, ET => BidiClass::ET,
        FSI => BidiClass::FSI, L => BidiClass::L, LRE => BidiClass::LRE, LRI => BidiClass::LRI,
        LRO => BidiClass::LRO, NSM => BidiClass::NSM, ON => BidiClass::ON, PDF => BidiClass::PDF,
        PDI => BidiClass::PDI, R => BidiClass::R, RLE => BidiClass::RLE, RLI => BidiClass::RLI,
        RLO => BidiClass::RLO, S => BidiClass::S, WS => BidiClass::WS,
    }
}

/// What a font program says of its style. The angle is given by its bits.
#[derive(Debug, Copy, Clone, PartialEq, Eq, Structural)]
pub struct FaceStyle {
    pub is_italic: bool,
    pub italic_angle: u32,
    pub is_bold: bool,
}

/// The style of a font program, where it can be read.
pub uninterp spec fn face_style(data: Seq<u8>) -> Option<FaceStyle>;

/// `ttf_parser::Face::parse` reads the first face of a font program, or fails;
/// `Face::is_italic`, `Face::italic_angle` and `Face::is_bold` give what it read. All of it
/// depends on the bytes alone.
#[verifier::external_body]
pub(crate) fn read_face(data: &[u8]) -> (style: Option<FaceStyle>)
    ensures
        style == face_style(data@),
{
    let face = ttf_parser::Face::parse(data, 0).ok()?;
    Some(FaceStyle {
        is_italic: face.is_italic(),
        italic_angle: face.italic_angle().to_bits(),
        is_bold: face.is_bold(),
    })
}

/// A filter's parameters: keys and integers. A value that is no integer counts as absent.
pub open spec fn parm_list(parms: Seq<(Vec<u8>, Option<i64>)>) -> Seq<(Seq<u8>, Option<i64>)> {
    parms.map_values(|parm: (Vec<u8>, Option<i64>)| (parm.0@, parm.1))
}

/// The parameters of some filters, each of which may have none.
pub open spec fn parm_lists(all: Seq<Option<Vec<(Vec<u8>, Option<i64>)>>>) -> Seq<
    Option<Seq<(Seq<u8>, Option<i64>)>>,
> {
    all.map_values(
        |parms: Option<Vec<(Vec<u8>, Option<i64>)>>|
            match parms {
                Some(parms) => Some(parm_list(parms@)),
                None => None,
            },
    )
}

/// Bytes that may be absent.
pub open spec fn opt_bytes(data: Option<Vec<u8>>) -> Option<Seq<u8>> {
    match data {
        Some(data) => Some(data@),
        None => None,
    }
}

/// The filters that are decoded by the bytes alone, without buffers whose sizes are chosen while
/// decoding, and without parameters.
pub open spec fn is_steady_filter(name: Seq<u8>) -> bool {
    ||| name == encode_utf8("ASCII85Decode"@)
    ||| name == encode_utf8("ASCIIHexDecode"@)
    ||| name == encode_utf8("RunLengthDecode"@)
}

/// Whether all of some filters are steady.
pub open spec fn are_steady(filters: Seq<Seq<u8>>) -> bool {
    forall|i: int| 0 <= i < filters.len() ==> is_steady_filter(#[trigger] filters[i])
}

/// The filters that can be decoded.
pub open spec fn is_known_filter(name: Seq<u8>) -> bool {
    ||| is_steady_filter(name)
    ||| name == encode_utf8("FlateDecode"@)
    ||| name == encode_utf8("BrotliDecode"@)
    ||| name == encode_utf8("LZWDecode"@)
}

/// All that the filters of a stream can make of its bytes, `None` for a failure. There may be
/// more than one such outcome.
pub uninterp spec fn stream_outcomes(
    filters: Seq<Seq<u8>>,
    parms: Seq<Option<Seq<(Seq<u8>, Option<i64>)>>>,
    content: Seq<u8>,
) -> Set<Option<Seq<u8>>>;

/// `lopdf::Stream::decompressed_content` decodes a stream by its filters, or fails. What it gives
/// is one of the outcomes that the filters, their parameters and the bytes allow. It fails where
/// a filter is not known. There is one outcome alone where every filter is steady.
///
/// Left unsaid is how many outcomes there are for other filters. Of damaged Flate data as much
/// is kept as was read before the damage, which depends on how large the reads were; and a
/// predictor fails where its rows find no memory, or their bits do not fit a machine word.
#[verifier::external_body]
pub(crate) fn decompressed(
    filters: &[Vec<u8>],
    parms: &[Option<Vec<(Vec<u8>, Option<i64>)>>],
    content: &[u8],
) -> (data: Option<Vec<u8>>)
    ensures
        stream_outcomes(names_of(filters@), parm_lists(parms@), content@).contains(opt_bytes(data)),
        (exists|i: int|
            0 <= i < filters@.len() && !is_known_filter(#[trigger] names_of(filters@)[i]))
            ==> data is None,
        are_steady(names_of(filters@)) ==> stream_outcomes(
            names_of(filters@),
            parm_lists(parms@),
            content@,
        ) == set![opt_bytes(data)],
{
    let parms = parms.iter().map(|own| match own {
        Some(own) => lopdf::Object::Dictionary(own.iter().map(|(key, n)|
            (key.clone(), n.map_or(lopdf::Object::Null, lopdf::Object::Integer))).collect()),
        None => lopdf::Object::Null,
    });
    let filters = filters.iter().map(|f| lopdf::Object::Name(f.clone()));
    let dict = lopdf::Dictionary::from_iter([
        ("Filter", lopdf::Object::Array(filters.collect())),
        ("DecodeParms", lopdf::Object::Array(parms.collect())),
    ]);
    lopdf::Stream::new(dict, content.to_vec()).decompressed_content().ok()
}

/// The names in a list of names.
pub open spec fn names_of(names: Seq<Vec<u8>>) -> Seq<Seq<u8>> {
    names.map_values(|name: Vec<u8>| name@)
}

}
