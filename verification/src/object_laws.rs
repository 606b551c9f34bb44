//! What reading objects promises.

use crate::cmap::{cmap_text, ToUnicodeCMap};
use crate::names::named;
use crate::number::Number;
use crate::object::{
    array_entry, array_of, base_font, dict_entry, dict_of, entry, first_entry, has_name, id_key,
    name_entry, number_of, object_at, operand_bytes, reference_entry, resolved, Dictionary, Object,
    ObjectId,
};
use crate::unicode::utf8_lossy;
use vstd::prelude::*;
use vstd::utf8::*;

verus! {

/// The value of a dictionary under a key is that of the first entry that has the key.
pub proof fn law_first_entry_counts(dict: Dictionary, key: Seq<char>, i: int)
    requires
        0 <= i < dict.entries@.len(),
        dict.entries@[i].0@ == encode_utf8(key),
        forall|j: int| 0 <= j < i ==> (#[trigger] dict.entries@[j]).0@ != encode_utf8(key),
    ensures
        entry(dict, key) == Some(dict.entries@[i].1),
{
    lemma_first_entry(dict.entries@, encode_utf8(key), i);
}

proof fn lemma_first_entry(entries: Seq<(Vec<u8>, Object)>, key: Seq<u8>, i: int)
    requires
        0 <= i < entries.len(),
        entries[i].0@ == key,
        forall|j: int| 0 <= j < i ==> (#[trigger] entries[j]).0@ != key,
    ensures
        first_entry(entries, key) == Some(entries[i].1),
    decreases i,
{
    if i > 0 {
        assert(entries[0].0@ != key);
        let rest = entries.skip(1);
        assert forall|j: int| 0 <= j < i - 1 implies (#[trigger] rest[j]).0@ != key by {
            assert(entries[j + 1].0@ != key);
        }
        lemma_first_entry(rest, key, i - 1);
    }
}

/// A dictionary none of whose entries has a key holds nothing under it.
pub proof fn law_missing_keys(dict: Dictionary, key: Seq<char>)
    requires
        forall|j: int|
            0 <= j < dict.entries@.len() ==> (#[trigger] dict.entries@[j]).0@ != encode_utf8(key),
    ensures
        entry(dict, key) is None,
{
    lemma_no_entry(dict.entries@, encode_utf8(key));
}

proof fn lemma_no_entry(entries: Seq<(Vec<u8>, Object)>, key: Seq<u8>)
    requires
        forall|j: int| 0 <= j < entries.len() ==> (#[trigger] entries[j]).0@ != key,
    ensures
        first_entry(entries, key) is None,
    decreases entries.len(),
{
    if entries.len() > 0 {
        assert(entries[0].0@ != key);
        let rest = entries.skip(1);
        assert forall|j: int| 0 <= j < rest.len() implies (#[trigger] rest[j]).0@ != key by {
            assert(entries[j + 1].0@ != key);
        }
        lemma_no_entry(rest, key);
    }
}

/// An object id leads to the object that was put under it, and to none before that.
pub proof fn law_objects_are_found(doc: Map<ObjectId, Object>, id: ObjectId, object: Object)
    ensures
        object_at(doc.insert(id, object), id) == Some(object),
        object_at(doc, id) is Some <==> doc.dom().contains(id),
        forall|other: ObjectId|
            #![trigger object_at(doc.insert(id, object), other)]
            other != id ==> object_at(doc.insert(id, object), other) == object_at(doc, other),
{
}

/// Different ids have different numbers.
pub proof fn law_ids_are_told_apart(a: ObjectId, b: ObjectId)
    ensures
        id_key(a) == id_key(b) <==> a == b,
{
}

/// A reference stands for what it leads to, and any other object for itself.
pub proof fn law_references_are_followed(
    doc: Map<ObjectId, Object>,
    id: ObjectId,
    object: Object,
)
    ensures
        doc.contains_key(id) ==> resolved(doc, Object::Reference(id)) == Some(doc[id]),
        !doc.contains_key(id) ==> resolved(doc, Object::Reference(id)) is None,
        !(object is Reference) ==> resolved(doc, object) == Some(object),
{
}

/// An object is an array, or a dictionary, where it is one itself or refers to one.
pub proof fn law_arrays_and_dictionaries(
    doc: Map<ObjectId, Object>,
    object: Object,
    id: ObjectId,
    items: Vec<Object>,
    dict: Dictionary,
)
    ensures
        array_of(doc, Object::Array(items)) == Some(items@),
        dict_of(doc, Object::Dictionary(dict)) == Some(dict),
        doc.contains_key(id) && doc[id] == Object::Array(items) ==> array_of(
            doc,
            Object::Reference(id),
        ) == Some(items@),
        doc.contains_key(id) && doc[id] == Object::Dictionary(dict) ==> dict_of(
            doc,
            Object::Reference(id),
        ) == Some(dict),
        !(object is Array) && !(object is Reference) ==> array_of(doc, object) is None,
        !(object is Dictionary) && !(object is Reference) ==> dict_of(doc, object) is None,
        !doc.contains_key(id) ==> array_of(doc, Object::Reference(id)) is None && dict_of(
            doc,
            Object::Reference(id),
        ) is None,
        doc.contains_key(id) && !(doc[id] is Array) ==> array_of(doc, Object::Reference(id))
            is None,
        doc.contains_key(id) && !(doc[id] is Dictionary) ==> dict_of(doc, Object::Reference(id))
            is None,
{
}

/// What a dictionary holds under a key is read by its type; arrays and dictionaries may be given
/// by reference, names and references may not.
pub proof fn law_entries_are_read_by_type(
    doc: Map<ObjectId, Object>,
    dict: Dictionary,
    key: Seq<char>,
    name: Seq<char>,
)
    ensures
        entry(dict, key) is None ==> array_entry(doc, dict, key) is None && dict_entry(
            doc,
            dict,
            key,
        ) is None && reference_entry(dict, key) is None && name_entry(dict, key) is None,
        entry(dict, key) matches Some(object) ==> array_entry(doc, dict, key) == array_of(
            doc,
            object,
        ) && dict_entry(doc, dict, key) == dict_of(doc, object),
        forall|id: ObjectId|
            entry(dict, key) == Some(Object::Reference(id)) <==> #[trigger] reference_entry(
                dict,
                key,
            ) == Some(id),
        entry(dict, key) matches Some(Object::Name(bytes)) ==> name_entry(dict, key) == Some(bytes@)
            && (has_name(dict, key, name) <==> bytes@ == encode_utf8(name)),
        !(entry(dict, key) matches Some(Object::Name(_))) ==> name_entry(dict, key) is None
            && !has_name(dict, key, name),
{
}

/// A dictionary has one name under a key at the most.
pub proof fn law_names_are_told_apart(dict: Dictionary, key: Seq<char>, a: Seq<char>, b: Seq<char>)
    requires
        has_name(dict, key, a),
        has_name(dict, key, b),
    ensures
        a == b,
{
    encode_utf8_decode_utf8(a);
    encode_utf8_decode_utf8(b);
}

/// The name of a font is its `/BaseFont`, read as text.
pub proof fn law_base_font(dict: Dictionary, bytes: Vec<u8>)
    ensures
        entry(dict, "BaseFont"@) == Some(Object::Name(bytes)) ==> base_font(dict) == Some(
            utf8_lossy(bytes@),
        ),
        !(entry(dict, "BaseFont"@) matches Some(Object::Name(_))) ==> base_font(dict) is None,
{
}

/// Integers and reals are numbers, and nothing else is; the bytes of an operand are those of a
/// string.
pub proof fn law_numbers_and_strings(object: Object, n: i64, bits: u32, bytes: Vec<u8>)
    ensures
        number_of(Object::Integer(n)) == Some(Number::Integer(n)),
        number_of(Object::Real(bits)) == Some(Number::Real(bits)),
        !(object is Integer) && !(object is Real) ==> number_of(object) is None,
        operand_bytes(Object::String(bytes)) == Some(bytes@),
        !(object is String) ==> operand_bytes(object) is None,
{
}

/// What was last put under a name is found under it, and under no other.
pub proof fn law_named_values<V>(map: Map<Seq<char>, V>, name: Seq<char>, value: V)
    ensures
        named(map.insert(name, value), name) == Some(value),
        !map.dom().contains(name) ==> named(map, name) is None,
        forall|other: Seq<char>|
            #![trigger named(map.insert(name, value), other)]
            other != name ==> named(map.insert(name, value), other) == named(map, other),
{
}

/// A CMap gives a code the text that it holds for it.
pub proof fn law_cmap_texts(cmap: ToUnicodeCMap, code: u16)
    ensures
        cmap.texts@.dom().contains(code) ==> cmap_text(cmap, code) == Some(cmap.texts@[code]@),
        !cmap.texts@.dom().contains(code) ==> cmap_text(cmap, code) is None,
{
}

}
