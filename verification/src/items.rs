//! Text items: what extraction gives for a piece of text on a page.

use crate::text::{chars_of, has_prefix};
use vstd::prelude::*;
use vstd::string::*;

verus! {

/// Where an item comes from: the page itself, or an annotation.
#[derive(Debug, Copy, Clone, PartialEq, Eq, Structural)]
pub enum ItemType {
    Text,
    Annotation,
}

/// A piece of text on a page. Positions, extents and the font size are given by the bits of
/// single-precision numbers.
#[derive(Debug)]
pub struct TextItem {
    pub text: String,
    pub x: u32,
    pub y: u32,
    pub width: u32,
    pub height: u32,
    pub font: String,
    pub font_size: u32,
    pub page: u32,
    pub is_bold: bool,
    pub is_italic: bool,
    pub is_underline: bool,
    pub is_strikeout: bool,
    pub item_type: ItemType,
    pub mcid: Option<i64>,
}

/// A piece of text on a page.
pub struct ItemView {
    pub text: Seq<char>,
    pub x: u32,
    pub y: u32,
    pub width: u32,
    pub height: u32,
    pub font: Seq<char>,
    pub font_size: u32,
    pub page: u32,
    pub is_bold: bool,
    pub is_italic: bool,
    pub is_underline: bool,
    pub is_strikeout: bool,
    pub item_type: ItemType,
    pub mcid: Option<i64>,
}

impl View for TextItem {
    type V = ItemView;

    open spec fn view(&self) -> ItemView {
        ItemView {
            text: self.text@,
            x: self.x,
            y: self.y,
            width: self.width,
            height: self.height,
            font: self.font@,
            font_size: self.font_size,
            page: self.page,
            is_bold: self.is_bold,
            is_italic: self.is_italic,
            is_underline: self.is_underline,
            is_strikeout: self.is_strikeout,
            item_type: self.item_type,
            mcid: self.mcid,
        }
    }
}

/// The views of some items.
pub open spec fn item_views(items: Seq<TextItem>) -> Seq<ItemView> {
    items.map_values(|item: TextItem| item@)
}

/// The resource names that one producer gives to composite fonts.
pub open spec fn is_cid_resource(name: Seq<char>) -> bool {
    "C2_"@.is_prefix_of(name) || "C0_"@.is_prefix_of(name)
}

/// Whether a resource name is that of a composite font.
pub fn is_cid_font(resource_name: &str) -> (r: bool)
    ensures
        r == is_cid_resource(resource_name@),
{
    let name = chars_of(resource_name);
    has_prefix(&name, "C2_") || has_prefix(&name, "C0_")
}

/// The name that an item carries for its font: the family name, but the resource name of a
/// composite font.
pub fn item_font_name<'a>(resource_name: &'a str, base_font: &'a str) -> (name: &'a str)
    ensures
        name@ == if is_cid_resource(resource_name@) {
            resource_name@
        } else {
            base_font@
        },
{
    if is_cid_font(resource_name) {
        resource_name
    } else {
        base_font
    }
}

}
