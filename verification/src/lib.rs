//! Font and text decoding for PDF pages.

pub mod annotation_laws;
pub mod annotations;
pub mod bidi;
pub mod bidi_laws;
pub mod byte_decode;
pub mod cid_widths;
pub mod cmap;
pub mod cmap_decode;
pub mod decode;
pub mod decode_laws;
pub mod encoding;
pub mod encoding_laws;
pub mod fallback;
pub mod fallback_laws;
pub mod glyphs;
pub mod items;
pub mod names;
pub mod number;
pub mod object;
pub mod object_laws;
pub mod outside;
pub mod score;
pub mod score_laws;
pub mod style;
pub mod style_laws;
pub mod text;
pub mod text_laws;
pub mod type3;
pub mod type3_laws;
pub mod unicode;
pub mod width_laws;
pub mod widths;
