//! Decoded glyphs: what each code of an operand shows, and what it advances.

use crate::text::{chars_of, opt_text, string_of_char};
use crate::widths::RawGlyphWidth;
use vstd::prelude::*;
use vstd::string::*;

verus! {

/// One glyph of an operand.
///
/// A code whose text has several characters, as a ligature's has, gives one glyph that carries
/// the code, and a filler without a code, a width or a count for each further character. Where
/// text and codes do not pair up, one glyph carries the text and the widths of the whole
/// operand.
#[derive(Debug)]
pub struct GlyphDecode {
    pub text: String,
    /// The widths, in font units, that add up to the glyph's own.
    pub raw_widths: Vec<u16>,
    /// The code that the glyph was looked up by.
    pub cid: Option<u16>,
    /// How many codes the glyph stands for: each is charged character spacing.
    pub code_count: u16,
    /// How many of them are spaces: each is charged word spacing.
    pub space_count: u16,
    /// The bits of the pen position at which the glyph is drawn, once it is known.
    pub pen: Option<(u32, u32)>,
    /// The bits of the glyph's full advance, in the units of the pen position; those of zero
    /// until it is known.
    pub full_advance_ts: u32,
}

/// One glyph of an operand.
#[verifier::ext_equal]
pub struct GlyphView {
    pub text: Seq<char>,
    pub raw_widths: Seq<u16>,
    pub cid: Option<u16>,
    pub code_count: u16,
    pub space_count: u16,
    pub pen: Option<(u32, u32)>,
    pub full_advance_ts: u32,
}

impl View for GlyphDecode {
    type V = GlyphView;

    open spec fn view(&self) -> GlyphView {
        GlyphView {
            text: self.text@,
            raw_widths: self.raw_widths@,
            cid: self.cid,
            code_count: self.code_count,
            space_count: self.space_count,
            pen: self.pen,
            full_advance_ts: self.full_advance_ts,
        }
    }
}

impl Clone for GlyphDecode {
    fn clone(&self) -> (r: Self)
        ensures
            r@ == self@,
    {
        let mut raw_widths: Vec<u16> = Vec::new();
        for i in 0..self.raw_widths.len()
            invariant
                raw_widths@ == self.raw_widths@.take(i as int),
        {
            raw_widths.push(self.raw_widths[i]);
        }
        GlyphDecode {
            text: self.text.clone(),
            raw_widths,
            cid: self.cid,
            code_count: self.code_count,
            space_count: self.space_count,
            pen: self.pen,
            full_advance_ts: self.full_advance_ts,
        }
    }
}

/// The views of some glyphs.
pub open spec fn glyph_views(glyphs: Seq<GlyphDecode>) -> Seq<GlyphView> {
    glyphs.map_values(|g: GlyphDecode| g@)
}

/// Codes and the text of each, as a decode gives them.
pub open spec fn unit_views(units: Seq<(u16, Option<String>)>) -> Seq<(u16, Option<Seq<char>>)> {
    units.map_values(|u: (u16, Option<String>)| (u.0, opt_text(u.1)))
}

/// The text of some codes: what they have of it, one after another.
pub open spec fn units_text(units: Seq<(u16, Option<Seq<char>>)>) -> Seq<char>
    decreases units.len(),
{
    if units.len() == 0 {
        Seq::empty()
    } else {
        units_text(units.drop_last()) + match units.last().1 {
            Some(text) => text,
            None => Seq::empty(),
        }
    }
}

/// The glyph that carries a code and the first character of its text.
pub open spec fn real_glyph(unit: (u16, Option<Seq<char>>), width: RawGlyphWidth) -> GlyphView {
    GlyphView {
        text: match unit.1 {
            Some(text) => if text.len() > 0 {
                text.take(1)
            } else {
                text
            },
            None => Seq::empty(),
        },
        raw_widths: seq![width.raw_width],
        cid: Some(unit.0),
        code_count: 1,
        space_count: if width.is_space {
            1
        } else {
            0
        },
        pen: None,
        full_advance_ts: 0,
    }
}

/// The glyph of a further character of a code's text.
pub open spec fn filler_glyph(c: char) -> GlyphView {
    GlyphView {
        text: seq![c],
        raw_widths: Seq::empty(),
        cid: None,
        code_count: 0,
        space_count: 0,
        pen: None,
        full_advance_ts: 0,
    }
}

/// The fillers of a code's text.
pub open spec fn fillers(text: Option<Seq<char>>) -> Seq<GlyphView> {
    match text {
        Some(text) => if text.len() > 0 {
            text.skip(1).map_values(|c: char| filler_glyph(c))
        } else {
            Seq::empty()
        },
        None => Seq::empty(),
    }
}

/// The glyphs of one code.
pub open spec fn unit_glyphs(
    unit: (u16, Option<Seq<char>>),
    width: RawGlyphWidth,
) -> Seq<GlyphView> {
    seq![real_glyph(unit, width)] + fillers(unit.1)
}

/// The glyphs of codes that pair up with their widths.
pub open spec fn aligned_glyphs(
    units: Seq<(u16, Option<Seq<char>>)>,
    widths: Seq<RawGlyphWidth>,
) -> Seq<GlyphView>
    recommends
        units.len() == widths.len(),
    decreases units.len(),
{
    if units.len() == 0 {
        Seq::empty()
    } else {
        aligned_glyphs(units.drop_last(), widths.drop_last()) + unit_glyphs(
            units.last(),
            widths.last(),
        )
    }
}

/// How many of some codes are spaces.
pub open spec fn count_spaces(widths: Seq<RawGlyphWidth>) -> nat
    decreases widths.len(),
{
    if widths.len() == 0 {
        0
    } else {
        count_spaces(widths.drop_last()) + if widths.last().is_space {
            1nat
        } else {
            0
        }
    }
}

/// The one glyph of a text that does not pair up with its codes. The counts keep the low 16
/// bits.
pub open spec fn whole_glyph(text: Seq<char>, widths: Seq<RawGlyphWidth>) -> GlyphView {
    GlyphView {
        text,
        raw_widths: widths.map_values(|w: RawGlyphWidth| w.raw_width),
        cid: None,
        code_count: (widths.len() % 0x1_0000) as u16,
        space_count: (count_spaces(widths) % 0x1_0000) as u16,
        pen: None,
        full_advance_ts: 0,
    }
}

/// The glyphs of decoded codes: one by one where they pair up with the operand's widths, one
/// for all where they do not.
pub open spec fn glyphs_of(
    units: Seq<(u16, Option<Seq<char>>)>,
    widths: Seq<RawGlyphWidth>,
) -> Seq<GlyphView> {
    if units.len() == widths.len() {
        aligned_glyphs(units, widths)
    } else {
        seq![whole_glyph(units_text(units), widths)]
    }
}

/// The text of some codes.
pub fn units_to_string(units: &[(u16, Option<String>)]) -> (text: String)
    ensures
        text@ == units_text(unit_views(units@)),
{
    let mut text = String::new();
    for i in 0..units.len()
        invariant
            text@ == units_text(unit_views(units@).take(i as int)),
    {
        assert(unit_views(units@).take(i + 1).drop_last() == unit_views(units@).take(i as int));
        match &units[i].1 {
            Some(part) => {
                text.append(part.as_str());
            },
            None => {},
        }
    }
    assert(unit_views(units@).take(units@.len() as int) == unit_views(units@));
    text
}

/// The glyphs of codes that pair up with their widths.
pub fn glyphs_from_aligned_units(units: &[(u16, Option<String>)], widths: &[RawGlyphWidth]) -> (out:
    Vec<GlyphDecode>)
    requires
        units@.len() == widths@.len(),
    ensures
        glyph_views(out@) == aligned_glyphs(unit_views(units@), widths@),
{
    let mut out: Vec<GlyphDecode> = Vec::new();
    let ghost views = unit_views(units@);
    for i in 0..units.len()
        invariant
            units@.len() == widths@.len(),
            views == unit_views(units@),
            glyph_views(out@) == aligned_glyphs(
                views.take(i as int),
                widths@.take(i as int),
            ),
    {
        let ghost before = glyph_views(out@);
        let ghost unit = views[i as int];
        assert(views.take(i + 1).drop_last() == views.take(i as int));
        assert(widths@.take(i + 1).drop_last() == widths@.take(i as int));
        let (raw_width, is_space) = (widths[i].raw_width, widths[i].is_space);
        let mut own: Vec<u16> = Vec::new();
        own.push(raw_width);
        let chars = match &units[i].1 {
            Some(text) => chars_of(text.as_str()),
            None => Vec::new(),
        };
        let mut text = String::new();
        if chars.len() > 0 {
            text.push(chars[0]);
        }
        let glyph = GlyphDecode {
            text,
            raw_widths: own,
            cid: Some(units[i].0),
            code_count: 1,
            space_count: if is_space {
                1
            } else {
                0
            },
            pen: None,
            full_advance_ts: 0,
        };
        assert(glyph@ =~= real_glyph(unit, widths@[i as int]));
        out.push(glyph);
        assert(glyph_views(out@) =~= before + seq![real_glyph(unit, widths@[i as int])]);
        if chars.len() > 0 {
            let ghost rest = chars@.skip(1).map_values(|c: char| filler_glyph(c));
            let ghost start = before + seq![real_glyph(unit, widths@[i as int])];
            for j in 1..chars.len()
                invariant
                    chars@.len() > 0,
                    rest == chars@.skip(1).map_values(|c: char| filler_glyph(c)),
                    glyph_views(out@) == start + rest.take(j - 1),
            {
                let ghost sofar = glyph_views(out@);
                let filler = GlyphDecode {
                    text: string_of_char(chars[j]),
                    raw_widths: Vec::new(),
                    cid: None,
                    code_count: 0,
                    space_count: 0,
                    pen: None,
                    full_advance_ts: 0,
                };
                assert(filler@ =~= rest[j - 1]);
                out.push(filler);
                assert(glyph_views(out@) =~= sofar.push(rest[j - 1]));
                assert(rest.take(j as int) == rest.take(j - 1).push(rest[j - 1]));
                assert(glyph_views(out@) =~= start + rest.take(j as int));
            }
            assert(rest.take(rest.len() as int) == rest);
            assert(glyph_views(out@) =~= before + unit_glyphs(unit, widths@[i as int]));
        } else {
            assert(fillers(unit.1) =~= Seq::<GlyphView>::empty());
            assert(glyph_views(out@) =~= before + unit_glyphs(unit, widths@[i as int]));
        }
    }
    assert(views.take(views.len() as int) == views);
    assert(widths@.take(widths@.len() as int) == widths@);
    out
}

/// The one glyph of a text that does not pair up with its codes.
pub fn opaque_glyph(text: String, widths: &[RawGlyphWidth]) -> (out: Vec<GlyphDecode>)
    ensures
        glyph_views(out@) == seq![whole_glyph(text@, widths@)],
{
    let mut raw_widths: Vec<u16> = Vec::new();
    let mut space_count: usize = 0;
    for i in 0..widths.len()
        invariant
            raw_widths@ == widths@.map_values(|w: RawGlyphWidth| w.raw_width).take(i as int),
            space_count == count_spaces(widths@.take(i as int)),
            space_count <= i,
    {
        assert(widths@.take(i + 1).drop_last() == widths@.take(i as int));
        raw_widths.push(widths[i].raw_width);
        if widths[i].is_space {
            space_count = space_count + 1;
        }
    }
    assert(widths@.take(widths@.len() as int) == widths@);
    let glyph = GlyphDecode {
        text,
        raw_widths,
        cid: None,
        code_count: (widths.len() % 0x1_0000) as u16,
        space_count: (space_count % 0x1_0000) as u16,
        pen: None,
        full_advance_ts: 0,
    };
    assert(glyph@ =~= whole_glyph(text@, widths@));
    let mut out: Vec<GlyphDecode> = Vec::new();
    out.push(glyph);
    assert(glyph_views(out@) =~= seq![whole_glyph(text@, widths@)]);
    out
}

/// The glyphs of decoded codes.
pub fn glyphs_for(units: &[(u16, Option<String>)], widths: &[RawGlyphWidth]) -> (out: Vec<
    GlyphDecode,
>)
    ensures
        glyph_views(out@) == glyphs_of(unit_views(units@), widths@),
{
    if units.len() == widths.len() {
        glyphs_from_aligned_units(units, widths)
    } else {
        opaque_glyph(units_to_string(units), widths)
    }
}

/// The text of some glyphs, one after another.
pub open spec fn glyphs_text(glyphs: Seq<GlyphView>) -> Seq<char>
    decreases glyphs.len(),
{
    if glyphs.len() == 0 {
        Seq::empty()
    } else {
        glyphs_text(glyphs.drop_last()) + glyphs.last().text
    }
}

/// The widths of some glyphs, one after another.
pub open spec fn glyphs_widths(glyphs: Seq<GlyphView>) -> Seq<u16>
    decreases glyphs.len(),
{
    if glyphs.len() == 0 {
        Seq::empty()
    } else {
        glyphs_widths(glyphs.drop_last()) + glyphs.last().raw_widths
    }
}

/// How many codes some glyphs stand for.
pub open spec fn glyphs_codes(glyphs: Seq<GlyphView>) -> nat
    decreases glyphs.len(),
{
    if glyphs.len() == 0 {
        0
    } else {
        glyphs_codes(glyphs.drop_last()) + glyphs.last().code_count as nat
    }
}

/// How many spaces some glyphs stand for.
pub open spec fn glyphs_spaces(glyphs: Seq<GlyphView>) -> nat
    decreases glyphs.len(),
{
    if glyphs.len() == 0 {
        0
    } else {
        glyphs_spaces(glyphs.drop_last()) + glyphs.last().space_count as nat
    }
}

/// What the glyphs of an operand add up to: the widths, the codes and the spaces of the whole
/// operand.
pub open spec fn adds_up(glyphs: Seq<GlyphView>, widths: Seq<RawGlyphWidth>) -> bool {
    &&& glyphs_widths(glyphs) == widths.map_values(|w: RawGlyphWidth| w.raw_width)
    &&& glyphs_codes(glyphs) == widths.len()
    &&& glyphs_spaces(glyphs) == count_spaces(widths)
}

proof fn lemma_sums_concat(a: Seq<GlyphView>, b: Seq<GlyphView>)
    ensures
        glyphs_text(a + b) == glyphs_text(a) + glyphs_text(b),
        glyphs_widths(a + b) == glyphs_widths(a) + glyphs_widths(b),
        glyphs_codes(a + b) == glyphs_codes(a) + glyphs_codes(b),
        glyphs_spaces(a + b) == glyphs_spaces(a) + glyphs_spaces(b),
    decreases b.len(),
{
    if b.len() == 0 {
        assert(a + b == a);
    } else {
        assert((a + b).drop_last() == a + b.drop_last());
        lemma_sums_concat(a, b.drop_last());
        assert(glyphs_text(a + b) =~= glyphs_text(a) + glyphs_text(b));
        assert(glyphs_widths(a + b) =~= glyphs_widths(a) + glyphs_widths(b));
    }
}

proof fn lemma_one_sum(glyph: GlyphView)
    ensures
        glyphs_text(seq![glyph]) == glyph.text,
        glyphs_widths(seq![glyph]) == glyph.raw_widths,
        glyphs_codes(seq![glyph]) == glyph.code_count,
        glyphs_spaces(seq![glyph]) == glyph.space_count,
{
    reveal_with_fuel(glyphs_text, 2);
    reveal_with_fuel(glyphs_widths, 2);
    reveal_with_fuel(glyphs_codes, 2);
    reveal_with_fuel(glyphs_spaces, 2);
    assert(seq![glyph].drop_last() =~= Seq::<GlyphView>::empty());
    assert(glyphs_text(seq![glyph]) =~= glyph.text);
    assert(glyphs_widths(seq![glyph]) =~= glyph.raw_widths);
}

proof fn lemma_filler_sums(chars: Seq<char>)
    ensures
        ({
            let glyphs = chars.map_values(|c: char| filler_glyph(c));
            &&& glyphs_text(glyphs) == chars
            &&& glyphs_widths(glyphs) == Seq::<u16>::empty()
            &&& glyphs_codes(glyphs) == 0
            &&& glyphs_spaces(glyphs) == 0
        }),
    decreases chars.len(),
{
    let glyphs = chars.map_values(|c: char| filler_glyph(c));
    if chars.len() > 0 {
        let front = chars.drop_last();
        lemma_filler_sums(front);
        assert(glyphs.drop_last() =~= front.map_values(|c: char| filler_glyph(c)));
        assert(chars =~= front.push(chars.last()));
    }
}

proof fn lemma_unit_sums(unit: (u16, Option<Seq<char>>), width: RawGlyphWidth)
    ensures
        glyphs_text(unit_glyphs(unit, width)) == match unit.1 {
            Some(text) => text,
            None => Seq::empty(),
        },
        glyphs_widths(unit_glyphs(unit, width)) == seq![width.raw_width],
        glyphs_codes(unit_glyphs(unit, width)) == 1,
        glyphs_spaces(unit_glyphs(unit, width)) == if width.is_space {
            1nat
        } else {
            0
        },
{
    let carrier = seq![real_glyph(unit, width)];
    lemma_sums_concat(carrier, fillers(unit.1));
    lemma_one_sum(real_glyph(unit, width));
    match unit.1 {
        Some(text) => {
            if text.len() > 0 {
                lemma_filler_sums(text.skip(1));
                assert(text =~= text.take(1) + text.skip(1));
            }
        },
        None => {},
    }
    assert(glyphs_widths(unit_glyphs(unit, width)) =~= seq![width.raw_width]);
}

/// Glyphs that pair up with their codes show the text of the codes and add up to the operand.
pub proof fn law_aligned_glyphs_add_up(
    units: Seq<(u16, Option<Seq<char>>)>,
    widths: Seq<RawGlyphWidth>,
)
    requires
        units.len() == widths.len(),
    ensures
        glyphs_text(aligned_glyphs(units, widths)) == units_text(units),
        adds_up(aligned_glyphs(units, widths), widths),
    decreases units.len(),
{
    if units.len() > 0 {
        law_aligned_glyphs_add_up(units.drop_last(), widths.drop_last());
        lemma_unit_sums(units.last(), widths.last());
        lemma_sums_concat(
            aligned_glyphs(units.drop_last(), widths.drop_last()),
            unit_glyphs(units.last(), widths.last()),
        );
        assert(widths.map_values(|w: RawGlyphWidth| w.raw_width) =~= widths.drop_last().map_values(
            |w: RawGlyphWidth| w.raw_width,
        ) + seq![widths.last().raw_width]);
    } else {
        assert(widths.map_values(|w: RawGlyphWidth| w.raw_width) =~= Seq::<u16>::empty());
    }
}

/// One glyph for a whole operand shows the text and adds up to the operand, unless the operand
/// has more codes than a count holds.
pub proof fn law_whole_glyph_adds_up(text: Seq<char>, widths: Seq<RawGlyphWidth>)
    requires
        widths.len() < 0x1_0000,
    ensures
        glyphs_text(seq![whole_glyph(text, widths)]) == text,
        adds_up(seq![whole_glyph(text, widths)], widths),
{
    lemma_one_sum(whole_glyph(text, widths));
    lemma_count_spaces(widths);
}

proof fn lemma_count_spaces(widths: Seq<RawGlyphWidth>)
    ensures
        count_spaces(widths) <= widths.len(),
    decreases widths.len(),
{
    if widths.len() > 0 {
        lemma_count_spaces(widths.drop_last());
    }
}

/// Whichever way decoded codes become glyphs, the glyphs show their text and add up to the
/// operand.
pub proof fn law_glyphs_add_up(units: Seq<(u16, Option<Seq<char>>)>, widths: Seq<RawGlyphWidth>)
    requires
        units.len() == widths.len() || widths.len() < 0x1_0000,
    ensures
        glyphs_text(glyphs_of(units, widths)) == units_text(units),
        adds_up(glyphs_of(units, widths), widths),
{
    if units.len() == widths.len() {
        law_aligned_glyphs_add_up(units, widths);
    } else {
        law_whole_glyph_adds_up(units_text(units), widths);
    }
}

}
