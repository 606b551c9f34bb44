//! ToUnicode CMaps, as far as decoding reads them.

use std::collections::HashMap;
use vstd::prelude::*;

verus! {

broadcast use vstd::std_specs::hash::group_hash_axioms;

/// A ToUnicode CMap: how many bytes a code has, and the text of each code that it maps.
#[derive(Debug)]
pub struct ToUnicodeCMap {
    pub code_byte_length: u8,
    pub texts: HashMap<u16, String>,
}

/// The text that a CMap gives for a code.
pub open spec fn cmap_text(cmap: ToUnicodeCMap, code: u16) -> Option<Seq<char>> {
    if cmap.texts@.contains_key(code) {
        Some(cmap.texts@[code]@)
    } else {
        None
    }
}

impl ToUnicodeCMap {
    /// The text of a code.
    pub fn lookup(&self, code: u16) -> (text: Option<&String>)
        ensures
            match text {
                Some(text) => cmap_text(*self, code) == Some(text@),
                None => cmap_text(*self, code) is None,
            },
    {
        self.texts.get(&code)
    }
}

/// The CMaps of a document by the number of the object that holds them.
#[derive(Debug)]
pub struct FontCMaps {
    pub by_object: HashMap<u32, ToUnicodeCMap>,
}

impl FontCMaps {
    /// The CMap that an object holds.
    pub fn get_by_obj(&self, obj_num: u32) -> (cmap: Option<&ToUnicodeCMap>)
        ensures
            cmap == (if self.by_object@.contains_key(obj_num) {
                Some(&self.by_object@[obj_num])
            } else {
                None
            }),
    {
        self.by_object.get(&obj_num)
    }
}

}
