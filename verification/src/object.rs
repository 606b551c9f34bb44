//! PDF objects as plain values, and how the entries of a dictionary are read.

use crate::number::Number;
use crate::text::same_bytes;
use crate::unicode::{lossy_text, utf8_lossy};
use std::collections::HashMap;
use vstd::prelude::*;
use vstd::string::*;
use vstd::utf8::*;

verus! {

broadcast use vstd::std_specs::hash::group_hash_axioms;

/// An object's number and generation.
pub type ObjectId = (u32, u16);

/// A PDF object. A real is kept as its IEEE 754 bits.
#[derive(Debug)]
pub enum Object {
    Null,
    Boolean(bool),
    Integer(i64),
    Real(u32),
    Name(Vec<u8>),
    String(Vec<u8>),
    Array(Vec<Object>),
    Dictionary(Dictionary),
    Stream(Stream),
    Reference(ObjectId),
}

/// A dictionary's entries. Where a key stands twice, the first entry counts.
#[derive(Debug)]
pub struct Dictionary {
    pub entries: Vec<(Vec<u8>, Object)>,
}

/// A stream: its dictionary and its bytes as they stand in the file.
#[derive(Debug)]
pub struct Stream {
    pub dict: Dictionary,
    pub content: Vec<u8>,
}

/// A document: what each object id leads to, references followed to their end.
#[derive(Debug)]
pub struct Document {
    objects: HashMap<u64, Object>,
}

/// An object id as one number.
pub open spec fn id_key(id: ObjectId) -> u64 {
    (id.0 * 0x1_0000 + id.1) as u64
}

impl View for Document {
    type V = Map<ObjectId, Object>;

    closed spec fn view(&self) -> Map<ObjectId, Object> {
        Map::new(
            |id: ObjectId| self.objects@.contains_key(id_key(id)),
            |id: ObjectId| self.objects@[id_key(id)],
        )
    }
}

/// What an object id leads to.
pub open spec fn object_at(doc: Map<ObjectId, Object>, id: ObjectId) -> Option<Object> {
    if doc.contains_key(id) {
        Some(doc[id])
    } else {
        None
    }
}

/// The object itself, or what it refers to.
pub open spec fn resolved(doc: Map<ObjectId, Object>, object: Object) -> Option<Object> {
    match object {
        Object::Reference(id) => object_at(doc, id),
        _ => Some(object),
    }
}

/// An array, given directly or by reference.
pub open spec fn array_of(doc: Map<ObjectId, Object>, object: Object) -> Option<Seq<Object>> {
    match resolved(doc, object) {
        Some(Object::Array(items)) => Some(items@),
        _ => None,
    }
}

/// A dictionary, given directly or by reference.
pub open spec fn dict_of(doc: Map<ObjectId, Object>, object: Object) -> Option<Dictionary> {
    match resolved(doc, object) {
        Some(Object::Dictionary(dict)) => Some(dict),
        _ => None,
    }
}

/// The first entry under a key.
pub open spec fn first_entry(entries: Seq<(Vec<u8>, Object)>, key: Seq<u8>) -> Option<Object>
    decreases entries.len(),
{
    if entries.len() == 0 {
        None
    } else if entries[0].0@ == key {
        Some(entries[0].1)
    } else {
        first_entry(entries.skip(1), key)
    }
}

/// A dictionary's entry under a key.
pub open spec fn entry(dict: Dictionary, key: Seq<char>) -> Option<Object> {
    first_entry(dict.entries@, encode_utf8(key))
}

/// A dictionary's entry under a key, where it is a name.
pub open spec fn name_entry(dict: Dictionary, key: Seq<char>) -> Option<Seq<u8>> {
    match entry(dict, key) {
        Some(Object::Name(name)) => Some(name@),
        _ => None,
    }
}

/// Whether a dictionary has a given name under a key.
pub open spec fn has_name(dict: Dictionary, key: Seq<char>, name: Seq<char>) -> bool {
    name_entry(dict, key) == Some(encode_utf8(name))
}

/// A dictionary's entry under a key, where it is a reference.
pub open spec fn reference_entry(dict: Dictionary, key: Seq<char>) -> Option<ObjectId> {
    match entry(dict, key) {
        Some(Object::Reference(id)) => Some(id),
        _ => None,
    }
}

/// A dictionary's entry under a key, where it is an array or leads to one.
pub open spec fn array_entry(
    doc: Map<ObjectId, Object>,
    dict: Dictionary,
    key: Seq<char>,
) -> Option<Seq<Object>> {
    match entry(dict, key) {
        Some(object) => array_of(doc, object),
        None => None,
    }
}

/// A dictionary's entry under a key, where it is a dictionary or leads to one.
pub open spec fn dict_entry(
    doc: Map<ObjectId, Object>,
    dict: Dictionary,
    key: Seq<char>,
) -> Option<Dictionary> {
    match entry(dict, key) {
        Some(object) => dict_of(doc, object),
        None => None,
    }
}

/// The `/BaseFont` name of a font, read as text.
pub open spec fn base_font(dict: Dictionary) -> Option<Seq<char>> {
    match name_entry(dict, "BaseFont"@) {
        Some(name) => Some(utf8_lossy(name)),
        None => None,
    }
}

/// An object's value as a number.
pub open spec fn number_of(object: Object) -> Option<Number> {
    match object {
        Object::Integer(n) => Some(Number::Integer(n)),
        Object::Real(bits) => Some(Number::Real(bits)),
        _ => None,
    }
}

/// The bytes of a string object.
pub open spec fn operand_bytes(object: Object) -> Option<Seq<u8>> {
    match object {
        Object::String(bytes) => Some(bytes@),
        _ => None,
    }
}

/// What a reference may lead to, without the reference.
pub open spec fn value_of<T>(r: Option<&T>) -> Option<T> {
    match r {
        Some(value) => Some(*value),
        None => None,
    }
}

/// The contents of a vector that may be absent.
pub open spec fn items_of<T>(r: Option<&Vec<T>>) -> Option<Seq<T>> {
    match r {
        Some(items) => Some(items@),
        None => None,
    }
}

impl Document {
    /// A document without objects.
    pub fn new() -> (doc: Self)
        ensures
            doc@ == Map::<ObjectId, Object>::empty(),
    {
        let doc = Document { objects: HashMap::new() };
        assert(doc@ =~= Map::<ObjectId, Object>::empty());
        doc
    }

    /// Puts an object under an id, in place of what was there.
    pub fn insert(&mut self, id: ObjectId, object: Object)
        ensures
            final(self)@ == old(self)@.insert(id, object),
    {
        let ghost before = self@;
        self.objects.insert(id.0 as u64 * 0x1_0000 + id.1 as u64, object);
        assert forall|other: ObjectId| id_key(other) == id_key(id) implies other == id by {
            assert(other.0 == id.0);
        }
        assert(self@ =~= before.insert(id, object));
    }

    /// What an object id leads to.
    pub fn get_object(&self, id: ObjectId) -> (object: Option<&Object>)
        ensures
            value_of(object) == object_at(self@, id),
    {
        self.objects.get(&(id.0 as u64 * 0x1_0000 + id.1 as u64))
    }

    /// The dictionary that an object id leads to.
    pub fn get_dictionary(&self, id: ObjectId) -> (dict: Option<&Dictionary>)
        ensures
            value_of(dict) == dict_of(self@, Object::Reference(id)),
    {
        match self.get_object(id) {
            Some(Object::Dictionary(dict)) => Some(dict),
            _ => None,
        }
    }
}

impl Dictionary {
    /// The entry under a key.
    pub fn get(&self, key: &str) -> (object: Option<&Object>)
        ensures
            value_of(object) == entry(*self, key@),
    {
        let key_bytes = key.as_bytes();
        let len = self.entries.len();
        let mut i: usize = 0;
        assert(self.entries@.skip(0) == self.entries@);
        while i < len
            invariant
                key_bytes@ == encode_utf8(key@),
                len == self.entries@.len(),
                i <= len,
                entry(*self, key@) == first_entry(self.entries@.skip(i as int), key_bytes@),
            decreases len - i,
        {
            assert(self.entries@.skip(i as int).skip(1) == self.entries@.skip(i + 1));
            if same_bytes(self.entries[i].0.as_slice(), key_bytes) {
                return Some(&self.entries[i].1);
            }
            i += 1;
        }
        None
    }

    /// The entry under a key, where it is a name.
    pub fn get_name(&self, key: &str) -> (name: Option<&Vec<u8>>)
        ensures
            items_of(name) == name_entry(*self, key@),
    {
        match self.get(key) {
            Some(Object::Name(name)) => Some(name),
            _ => None,
        }
    }

    /// Whether there is a given name under a key.
    pub fn names(&self, key: &str, name: &str) -> (r: bool)
        ensures
            r == has_name(*self, key@, name@),
    {
        match self.get_name(key) {
            Some(found) => same_bytes(found.as_slice(), name.as_bytes()),
            None => false,
        }
    }

    /// The entry under a key, where it is a reference.
    pub fn get_reference(&self, key: &str) -> (id: Option<ObjectId>)
        ensures
            id == reference_entry(*self, key@),
    {
        match self.get(key) {
            Some(Object::Reference(id)) => Some(*id),
            _ => None,
        }
    }

    /// The entry under a key, where it is an array or leads to one.
    pub fn get_array<'a>(&'a self, doc: &'a Document, key: &str) -> (items: Option<&'a Vec<Object>>)
        ensures
            items_of(items) == array_entry(doc@, *self, key@),
    {
        match self.get(key) {
            Some(object) => resolve_array(doc, object),
            None => None,
        }
    }

    /// The entry under a key, where it is a dictionary or leads to one.
    pub fn get_dict<'a>(&'a self, doc: &'a Document, key: &str) -> (dict: Option<&'a Dictionary>)
        ensures
            value_of(dict) == dict_entry(doc@, *self, key@),
    {
        match self.get(key) {
            Some(object) => resolve_dict(doc, object),
            None => None,
        }
    }

    /// The `/BaseFont` name, read as text.
    pub fn base_font_name(&self) -> (name: Option<String>)
        ensures
            crate::text::opt_text(name) == base_font(*self),
    {
        match self.get_name("BaseFont") {
            Some(name) => Some(lossy_text(name.as_slice())),
            None => None,
        }
    }
}

/// An array, given directly or by reference.
pub fn resolve_array<'a>(doc: &'a Document, obj: &'a Object) -> (items: Option<&'a Vec<Object>>)
    ensures
        items_of(items) == array_of(doc@, *obj),
{
    match obj {
        Object::Array(items) => Some(items),
        Object::Reference(id) => match doc.get_object(*id) {
            Some(Object::Array(items)) => Some(items),
            _ => None,
        },
        _ => None,
    }
}

/// A dictionary, given directly or by reference.
pub fn resolve_dict<'a>(doc: &'a Document, obj: &'a Object) -> (dict: Option<&'a Dictionary>)
    ensures
        value_of(dict) == dict_of(doc@, *obj),
{
    match obj {
        Object::Dictionary(dict) => Some(dict),
        Object::Reference(id) => doc.get_dictionary(*id),
        _ => None,
    }
}

/// The bytes of a string operand.
pub fn get_operand_bytes(obj: &Object) -> (bytes: Option<&[u8]>)
    ensures
        match bytes {
            Some(bytes) => operand_bytes(*obj) == Some(bytes@),
            None => operand_bytes(*obj) is None,
        },
{
    match obj {
        Object::String(bytes) => Some(bytes.as_slice()),
        _ => None,
    }
}

/// An object's value as a number.
pub fn get_number(obj: &Object) -> (number: Option<Number>)
    ensures
        number == number_of(*obj),
{
    match obj {
        Object::Integer(n) => Some(Number::Integer(*n)),
        Object::Real(bits) => Some(Number::Real(*bits)),
        _ => None,
    }
}

}
