//! Right-to-left text that was written in visual order: found by the direction of its
//! characters and the movement of the pen, and put in logical order.

use crate::glyphs::{glyph_views, GlyphDecode, GlyphView};
use crate::number::{is_less, is_nan, less, magnitude, nan, SIGN};
use crate::outside::{bidi_class, unicode_class};
use crate::text::chars_of;
use vstd::prelude::*;
use vstd::string::*;

verus! {

/// The bits of 0.15: how far, in font sizes, the pen may be off from where a glyph is expected.
pub const SPACE_DIST: u32 = 0x3E19_999A;

/// The bits of 0.8: how far off it may be across a missing space or an overlap.
pub const SPACE_MAX_DIST: u32 = 0x3F4C_CCCD;

/// The bits of -0.8.
pub const NEGATIVE_SPACE_MAX_DIST: u32 = 0xBF4C_CCCD;

/// The bits of 0.8: how far the baseline may move within a line.
pub const BASE_MAX_DIST: u32 = 0x3F4C_CCCD;

/// Unicode's Bidi_Class.
#[derive(Debug, Copy, Clone, PartialEq, Eq, Structural)]
pub enum BidiClass {
    AL,
    AN,
    B,
    BN,
    CS,
    EN,
    ES,
    ET,
    FSI,
    L,
    LRE,
    LRI,
    LRO,
    NSM,
    ON,
    PDF,
    PDI,
    R,
    RLE,
    RLI,
    RLO,
    S,
    WS,
}

/// A glyph with the fillers that follow it: the glyphs from `start` up to `end`.
#[derive(Debug, Copy, Clone, PartialEq, Eq, Structural)]
pub struct Unit {
    pub start: usize,
    pub end: usize,
}

/// How the pen moved to a unit, as bits of single-precision numbers in font sizes, and where it
/// is after it.
#[derive(Debug, Copy, Clone)]
pub struct Movement {
    /// From the end of the unit before, along the line.
    pub spacing: u32,
    /// From the end of the unit before, across the line.
    pub base_offset: u32,
    /// From the start of the unit before, along the line, with the unit's own advance added: 0
    /// where the pen went back by it.
    pub logical_spacing: u32,
    /// The end of the unit itself.
    pub end: (u32, u32),
}

/// What one run of glyphs leaves to the next: the last level, where the last unit began and
/// ended, and its direction.
#[derive(Debug, Copy, Clone)]
pub struct PenContinuity {
    pub cur_bidi: u8,
    pub lag_pen: Option<(u32, u32)>,
    pub pen_end: Option<(u32, u32)>,
    pub last_bidi: u8,
}

/// What is known of a unit: its direction, 1 for right to left; whether the pen moved to it as
/// it does in visual order; and whether a new line starts at it.
#[derive(Debug, Copy, Clone, PartialEq, Eq, Structural)]
pub struct UnitFlags {
    pub bidi: u8,
    pub signal: bool,
    pub run_break: bool,
}

/// The state before any glyph.
pub open spec fn cold_start() -> PenContinuity {
    PenContinuity { cur_bidi: 0, lag_pen: None, pen_end: None, last_bidi: 0 }
}

impl Default for PenContinuity {
    fn default() -> (carry: Self)
        ensures
            carry == cold_start(),
    {
        PenContinuity { cur_bidi: 0, lag_pen: None, pen_end: None, last_bidi: 0 }
    }
}

/// The level of a character: 0 for left to right, 1 for right to left. Weak and neutral
/// characters, numbers aside, take the level before them; embeddings and overrides are not
/// followed.
pub open spec fn level_of(class: BidiClass, cur_bidi: u8) -> u8 {
    match class {
        BidiClass::R | BidiClass::AL | BidiClass::AN => 1,
        BidiClass::CS
        | BidiClass::NSM
        | BidiClass::BN
        | BidiClass::B
        | BidiClass::S
        | BidiClass::WS
        | BidiClass::ON => cur_bidi,
        _ => 0,
    }
}

/// Whether a unit starts at a glyph: at every glyph that stands for a code, and at the fillers
/// that have no such glyph before them.
pub open spec fn opens_unit(glyphs: Seq<GlyphView>, i: int) -> bool {
    glyphs[i].code_count != 0 || forall|j: int| 0 <= j < i ==> #[trigger] glyphs[j].code_count == 0
}

/// The units of a run of glyphs.
pub open spec fn units_of(glyphs: Seq<GlyphView>) -> Seq<Unit>
    decreases glyphs.len(),
{
    if glyphs.len() == 0 {
        Seq::empty()
    } else {
        let front = units_of(glyphs.drop_last());
        let end = glyphs.len() as usize;
        if opens_unit(glyphs, glyphs.len() - 1) {
            front.push(Unit { start: (glyphs.len() - 1) as usize, end })
        } else {
            front.drop_last().push(Unit { start: front.last().start, end })
        }
    }
}

/// Whether a unit starts where the one before ends.
pub open spec fn abuts(units: Seq<Unit>, k: int) -> bool {
    units[k].start == units[k - 1].end
}

/// Units that follow one another from the first of `len` glyphs to the last.
pub open spec fn is_tiling(units: Seq<Unit>, len: int) -> bool {
    &&& units.len() == 0 <==> len == 0
    &&& units.len() > 0 ==> units[0].start == 0 && units.last().end == len
    &&& forall|k: int| 0 <= k < units.len() ==> (#[trigger] units[k]).start < units[k].end <= len
    &&& forall|k: int| 0 < k < units.len() ==> #[trigger] abuts(units, k)
}

/// The class of a glyph: that of its first character.
pub open spec fn class_of(glyph: GlyphView) -> BidiClass {
    if glyph.text.len() > 0 {
        unicode_class(glyph.text[0])
    } else {
        BidiClass::ON
    }
}

/// Whether the pen went on to a unit of right-to-left text as it does in visual order: by about
/// the width of the unit before, and not back by the unit's own.
pub open spec fn moved_visually(m: Movement) -> bool {
    if is_less(magnitude(m.logical_spacing), SPACE_DIST) {
        false
    } else if is_less(magnitude(m.spacing), SPACE_DIST) {
        true
    } else {
        &&& !is_missing_space(m)
        &&& !is_overlap(m)
        &&& is_less(0, m.spacing)
        &&& is_less(m.spacing, SPACE_MAX_DIST)
    }
}

/// The pen went back by somewhat more than the unit's own width.
pub open spec fn is_missing_space(m: Movement) -> bool {
    is_less(m.logical_spacing, 0) && is_less(NEGATIVE_SPACE_MAX_DIST, m.logical_spacing)
}

/// The unit lies over the end of the one before.
pub open spec fn is_overlap(m: Movement) -> bool {
    is_less(m.spacing, 0) && is_less(NEGATIVE_SPACE_MAX_DIST, m.spacing)
}

/// Whether the pen went where no unit of the same right-to-left line is expected.
pub open spec fn moved_away(m: Movement) -> bool {
    &&& !is_less(magnitude(m.logical_spacing), SPACE_DIST)
    &&& !moved_visually(m)
    &&& !is_missing_space(m)
    &&& !is_overlap(m)
}

/// Whether the baseline stays.
pub open spec fn same_line(m: Movement) -> bool {
    is_less(magnitude(m.base_offset), BASE_MAX_DIST)
}

/// What is known of the units of a run so far, and what is left to the next unit.
#[verifier::ext_equal]
pub struct Scan {
    pub flags: Seq<UnitFlags>,
    pub carry: PenContinuity,
}

/// The scan of one unit more.
pub open spec fn scan_unit(before: Scan, glyph: GlyphView, m: Movement) -> Scan {
    let carry = before.carry;
    match glyph.pen {
        Some(pen) => {
            let level = level_of(class_of(glyph), carry.cur_bidi);
            let bidi = (level % 2) as u8;
            let tested = carry.lag_pen is Some && carry.pen_end is Some;
            let rtl = bidi == carry.last_bidi && bidi == 1;
            Scan {
                flags: before.flags.push(
                    UnitFlags {
                        bidi,
                        signal: tested && same_line(m) && rtl && moved_visually(m),
                        run_break: tested && (!same_line(m) || (rtl && moved_away(m))),
                    },
                ),
                carry: PenContinuity {
                    cur_bidi: level,
                    lag_pen: Some(pen),
                    pen_end: Some(m.end),
                    last_bidi: bidi,
                },
            }
        },
        None => Scan {
            flags: before.flags.push(
                UnitFlags { bidi: carry.last_bidi, signal: false, run_break: false },
            ),
            carry: PenContinuity { lag_pen: None, pen_end: None, ..carry },
        },
    }
}

/// The scan of the first `n` units of a run.
pub open spec fn scan(
    carry: PenContinuity,
    glyphs: Seq<GlyphView>,
    movements: Seq<Movement>,
    n: nat,
) -> Scan
    decreases n,
{
    if n == 0 {
        Scan { flags: Seq::empty(), carry }
    } else {
        scan_unit(
            scan(carry, glyphs, movements, (n - 1) as nat),
            glyphs[units_of(glyphs)[n - 1].start as int],
            movements[n - 1],
        )
    }
}

/// The end of the right-to-left run that starts at a unit: a run goes on to units of the same
/// direction, up to a new line.
pub open spec fn run_end(flags: Seq<UnitFlags>, i: int) -> int
    decreases flags.len() - i,
{
    if 0 <= i < flags.len() - 1 && flags[i + 1].bidi == 1 && !flags[i + 1].run_break {
        run_end(flags, i + 1)
    } else {
        i + 1
    }
}

/// Whether a run is in visual order: it has more than one unit, and one of them shows it.
pub open spec fn is_visual(flags: Seq<UnitFlags>, start: int, end: int) -> bool {
    end - start > 1 && exists|k: int| start <= k < end && (#[trigger] flags[k]).signal
}

/// The numbers from `start` up to `end`, backwards where asked.
pub open spec fn run_order(start: int, end: int, backwards: bool) -> Seq<int> {
    Seq::new(
        (end - start) as nat,
        |k: int|
            if backwards {
                end - 1 - k
            } else {
                start + k
            },
    )
}

/// The order in which the units from `i` on are to stand: runs in visual order backwards.
pub open spec fn order_from(flags: Seq<UnitFlags>, i: int) -> Seq<int>
    decreases flags.len() - i,
{
    if i < 0 || i >= flags.len() {
        Seq::empty()
    } else if flags[i].bidi == 1 {
        proof {
            lemma_run_end(flags, i);
        }
        let end = run_end(flags, i);
        run_order(i, end, is_visual(flags, i, end)) + order_from(flags, end)
    } else {
        seq![i] + order_from(flags, i + 1)
    }
}

/// Whether one of the runs from `i` on is in visual order.
pub open spec fn any_visual(flags: Seq<UnitFlags>, i: int) -> bool
    decreases flags.len() - i,
{
    if i < 0 || i >= flags.len() {
        false
    } else if flags[i].bidi == 1 {
        proof {
            lemma_run_end(flags, i);
        }
        let end = run_end(flags, i);
        is_visual(flags, i, end) || any_visual(flags, end)
    } else {
        any_visual(flags, i + 1)
    }
}

/// The glyphs of units in a given order, each unit as it is.
pub open spec fn arranged(
    glyphs: Seq<GlyphView>,
    units: Seq<Unit>,
    order: Seq<int>,
) -> Seq<GlyphView>
    decreases order.len(),
{
    if order.len() == 0 {
        Seq::empty()
    } else {
        let unit = units[order.last()];
        arranged(glyphs, units, order.drop_last()) + glyphs.subrange(
            unit.start as int,
            unit.end as int,
        )
    }
}

/// A run ends behind the unit that it starts at.
pub proof fn lemma_run_end(flags: Seq<UnitFlags>, i: int)
    requires
        0 <= i < flags.len(),
    ensures
        i < run_end(flags, i) <= flags.len(),
    decreases flags.len() - i,
{
    if i < flags.len() - 1 && flags[i + 1].bidi == 1 && !flags[i + 1].run_break {
        lemma_run_end(flags, i + 1);
    }
}

/// The units of a run of glyphs follow one another without a gap, and each holds a glyph.
pub proof fn law_units_tile(glyphs: Seq<GlyphView>)
    requires
        glyphs.len() <= usize::MAX,
    ensures
        is_tiling(units_of(glyphs), glyphs.len() as int),
    decreases glyphs.len(),
{
    if glyphs.len() > 0 {
        let front = units_of(glyphs.drop_last());
        let units = units_of(glyphs);
        law_units_tile(glyphs.drop_last());
        if opens_unit(glyphs, glyphs.len() - 1) {
            assert forall|k: int| 0 < k < units.len() implies #[trigger] abuts(units, k) by {
                if k < front.len() {
                    assert(abuts(front, k));
                }
            }
        } else {
            assert(front.len() > 0);
            assert forall|k: int| 0 <= k < units.len() implies (#[trigger] units[k]).start
                < units[k].end <= glyphs.len() by {
                assert(front[k].start < front[k].end);
            }
            assert forall|k: int| 0 < k < units.len() implies #[trigger] abuts(units, k) by {
                assert(abuts(front, k));
            }
        }
    }
}

/// The order of units without a run in visual order.
proof fn lemma_order_unchanged(flags: Seq<UnitFlags>, i: int)
    requires
        0 <= i <= flags.len(),
        !any_visual(flags, i),
    ensures
        order_from(flags, i) == run_order(i, flags.len() as int, false),
    decreases flags.len() - i,
{
    if i < flags.len() {
        if flags[i].bidi == 1 {
            lemma_run_end(flags, i);
            lemma_order_unchanged(flags, run_end(flags, i));
        } else {
            lemma_order_unchanged(flags, i + 1);
        }
        assert(order_from(flags, i) =~= run_order(i, flags.len() as int, false));
    } else {
        assert(order_from(flags, i) =~= run_order(i, flags.len() as int, false));
    }
}

/// Units in their own order give the glyphs back.
proof fn lemma_arranged_in_order(glyphs: Seq<GlyphView>, units: Seq<Unit>, n: int)
    requires
        is_tiling(units, glyphs.len() as int),
        0 <= n <= units.len(),
    ensures
        arranged(glyphs, units, run_order(0, n, false)) == if n == 0 {
            Seq::empty()
        } else {
            glyphs.take(units[n - 1].end as int)
        },
    decreases n,
{
    let order = run_order(0, n, false);
    if n > 0 {
        lemma_arranged_in_order(glyphs, units, n - 1);
        assert(order.drop_last() =~= run_order(0, n - 1, false));
        assert(units[n - 1].start < units[n - 1].end);
        if n > 1 {
            assert(abuts(units, n - 1));
        }
        assert(arranged(glyphs, units, order) =~= glyphs.take(units[n - 1].end as int));
    }
}

/// Where no run is in visual order, the glyphs stay as they are.
pub proof fn law_without_a_visual_run_nothing_moves(
    glyphs: Seq<GlyphView>,
    flags: Seq<UnitFlags>,
)
    requires
        glyphs.len() <= usize::MAX,
        flags.len() == units_of(glyphs).len(),
        !any_visual(flags, 0),
    ensures
        arranged(glyphs, units_of(glyphs), order_from(flags, 0)) == glyphs,
{
    law_units_tile(glyphs);
    lemma_order_unchanged(flags, 0);
    lemma_arranged_in_order(glyphs, units_of(glyphs), flags.len() as int);
    assert(glyphs.take(glyphs.len() as int) =~= glyphs);
}

/// The level of a character after one of level `cur_bidi`.
pub fn guess_bidi_level(class: BidiClass, cur_bidi: u8) -> (level: u8)
    ensures
        level == level_of(class, cur_bidi),
{
    match class {
        BidiClass::L => 0,
        BidiClass::R => 1,
        BidiClass::AL => 1,
        BidiClass::EN | BidiClass::ES | BidiClass::ET => 0,
        BidiClass::AN => 1,
        BidiClass::CS | BidiClass::NSM | BidiClass::BN => cur_bidi,
        BidiClass::B | BidiClass::S | BidiClass::WS | BidiClass::ON => cur_bidi,
        BidiClass::LRE
        | BidiClass::LRI
        | BidiClass::LRO
        | BidiClass::PDF
        | BidiClass::PDI
        | BidiClass::RLE
        | BidiClass::RLI
        | BidiClass::RLO
        | BidiClass::FSI => 0,
    }
}

/// The units of a run of glyphs.
pub fn group_into_units(glyphs: &[GlyphDecode]) -> (units: Vec<Unit>)
    ensures
        units@ == units_of(glyph_views(glyphs@)),
{
    let mut units: Vec<Unit> = Vec::new();
    let ghost views = glyph_views(glyphs@);
    let mut any_code = false;
    for i in 0..glyphs.len()
        invariant
            views == glyph_views(glyphs@),
            units@ == units_of(views.take(i as int)),
            i > 0 ==> units@.len() > 0,
            any_code ==> i > 0,
            any_code == exists|j: int| 0 <= j < i && (#[trigger] views[j]).code_count != 0,
    {
        let ghost seen = views.take(i + 1);
        assert(seen.drop_last() == views.take(i as int));
        assert(seen[i as int].code_count == glyphs@[i as int].code_count);
        assert(opens_unit(seen, i as int) == (glyphs@[i as int].code_count != 0 || !any_code)) by {
            if any_code {
                let j = choose|j: int| 0 <= j < i && (#[trigger] views[j]).code_count != 0;
                assert(seen[j].code_count != 0);
            } else {
                assert forall|j: int| 0 <= j < i implies (#[trigger] seen[j]).code_count == 0 by {
                    assert(views[j].code_count == 0);
                }
            }
        }
        if glyphs[i].code_count != 0 || !any_code {
            units.push(Unit { start: i, end: i + 1 });
        } else {
            let last = units.len() - 1;
            let start = units[last].start;
            units.truncate(last);
            units.push(Unit { start, end: i + 1 });
            assert(units@ =~= units_of(seen));
        }
        if glyphs[i].code_count != 0 {
            any_code = true;
            assert(views[i as int].code_count != 0);
        }
    }
    assert(views.take(views.len() as int) == views);
    units
}

/// The class of a glyph.
fn class_of_glyph(glyph: &GlyphDecode) -> (class: BidiClass)
    ensures
        class == class_of(glyph@),
{
    let chars = chars_of(glyph.text.as_str());
    if chars.len() > 0 {
        bidi_class(chars[0])
    } else {
        BidiClass::ON
    }
}

fn visually(m: &Movement) -> (r: bool)
    ensures
        r == moved_visually(*m),
{
    if less(m.logical_spacing % SIGN, SPACE_DIST) {
        false
    } else if less(m.spacing % SIGN, SPACE_DIST) {
        true
    } else {
        !missing_space(m) && !overlap(m) && less(0, m.spacing) && less(m.spacing, SPACE_MAX_DIST)
    }
}

fn missing_space(m: &Movement) -> (r: bool)
    ensures
        r == is_missing_space(*m),
{
    less(m.logical_spacing, 0) && less(NEGATIVE_SPACE_MAX_DIST, m.logical_spacing)
}

fn overlap(m: &Movement) -> (r: bool)
    ensures
        r == is_overlap(*m),
{
    less(m.spacing, 0) && less(NEGATIVE_SPACE_MAX_DIST, m.spacing)
}

fn away(m: &Movement) -> (r: bool)
    ensures
        r == moved_away(*m),
{
    !less(m.logical_spacing % SIGN, SPACE_DIST) && !visually(m) && !missing_space(m) && !overlap(m)
}

fn scan_one(carry: &mut PenContinuity, glyph: &GlyphDecode, m: &Movement) -> (flags: UnitFlags)
    ensures
        forall|before: Scan|
            before.carry == *old(carry) ==> (#[trigger] scan_unit(before, glyph@, *m)) == (Scan {
                flags: before.flags.push(flags),
                carry: *final(carry),
            }),
{
    match glyph.pen {
        Some(pen) => {
            let level = guess_bidi_level(class_of_glyph(glyph), carry.cur_bidi);
            let bidi = level % 2;
            let tested = carry.lag_pen.is_some() && carry.pen_end.is_some();
            let rtl = bidi == carry.last_bidi && bidi == 1;
            let level_line = less(m.base_offset % SIGN, BASE_MAX_DIST);
            let flags = UnitFlags {
                bidi,
                signal: tested && level_line && rtl && visually(m),
                run_break: tested && (!level_line || (rtl && away(m))),
            };
            carry.cur_bidi = level;
            carry.lag_pen = Some(pen);
            carry.pen_end = Some(m.end);
            carry.last_bidi = bidi;
            flags
        },
        None => {
            carry.lag_pen = None;
            carry.pen_end = None;
            UnitFlags { bidi: carry.last_bidi, signal: false, run_break: false }
        },
    }
}

/// Scans the units of a run.
fn scan_units(
    glyphs: &[GlyphDecode],
    units: &[Unit],
    movements: &[Movement],
    carry: &mut PenContinuity,
) -> (flags: Vec<UnitFlags>)
    requires
        glyphs@.len() <= usize::MAX,
        units@ == units_of(glyph_views(glyphs@)),
        movements@.len() == units@.len(),
    ensures
        scan(*old(carry), glyph_views(glyphs@), movements@, units@.len()) == (Scan {
            flags: flags@,
            carry: *final(carry),
        }),
{
    let ghost views = glyph_views(glyphs@);
    proof {
        law_units_tile(views);
    }
    let mut flags: Vec<UnitFlags> = Vec::new();
    for n in 0..units.len()
        invariant
            views == glyph_views(glyphs@),
            units@ == units_of(views),
            is_tiling(units@, glyphs@.len() as int),
            movements@.len() == units@.len(),
            scan(*old(carry), views, movements@, n as nat) == (Scan {
                flags: flags@,
                carry: *carry,
            }),
    {
        let ghost before = Scan { flags: flags@, carry: *carry };
        let start = units[n].start;
        assert(units@[n as int].start < units@[n as int].end);
        let flag = scan_one(carry, &glyphs[start], &movements[n]);
        assert(scan_unit(before, views[start as int], movements@[n as int]) == (Scan {
            flags: before.flags.push(flag),
            carry: *carry,
        }));
        flags.push(flag);
    }
    flags
}

/// The positions in an order.
pub open spec fn positions(order: Seq<usize>) -> Seq<int> {
    order.map_values(|k: usize| k as int)
}

/// The order in which units are to stand, and whether it moves any.
fn order_units(flags: &[UnitFlags]) -> (r: (Vec<usize>, bool))
    ensures
        positions(r.0@) == order_from(flags@, 0),
        r.1 == any_visual(flags@, 0),
{
    let len = flags.len();
    let mut order: Vec<usize> = Vec::new();
    let mut reversed_any = false;
    let mut i: usize = 0;
    assert(positions(order@) + order_from(flags@, 0) =~= order_from(flags@, 0));
    while i < len
        invariant
            len == flags@.len(),
            i <= len,
            positions(order@) + order_from(flags@, i as int) == order_from(flags@, 0),
            any_visual(flags@, 0) == (reversed_any || any_visual(flags@, i as int)),
        decreases len - i,
    {
        let ghost before = positions(order@);
        if flags[i].bidi == 1 {
            let mut end: usize = i + 1;
            let mut signal = flags[i].signal;
            while end < len && flags[end].bidi == 1 && !flags[end].run_break
                invariant
                    len == flags@.len(),
                    i < end <= len,
                    run_end(flags@, i as int) == run_end(flags@, end - 1),
                    signal == exists|k: int| i <= k < end && (#[trigger] flags@[k]).signal,
                decreases len - end,
            {
                if flags[end].signal {
                    signal = true;
                }
                end += 1;
            }
            assert(run_end(flags@, i as int) == end);
            let backwards = signal && end - i > 1;
            assert(backwards == is_visual(flags@, i as int, end as int));
            let ghost run = run_order(i as int, end as int, backwards);
            for k in 0..(end - i)
                invariant
                    i < end <= len,
                    run == run_order(i as int, end as int, backwards),
                    positions(order@) == before + run.take(k as int),
            {
                let ghost sofar = positions(order@);
                let next: usize = if backwards {
                    end - 1 - k
                } else {
                    i + k
                };
                order.push(next);
                assert(positions(order@) =~= sofar.push(run[k as int]));
                assert(before + run.take(k + 1) =~= sofar.push(run[k as int]));
            }
            assert(run.take(run.len() as int) =~= run);
            assert(before + (run + order_from(flags@, end as int)) =~= (before + run) + order_from(
                flags@,
                end as int,
            ));
            if backwards {
                reversed_any = true;
            }
            i = end;
        } else {
            order.push(i);
            assert(positions(order@) =~= before.push(i as int));
            assert(before + (seq![i as int] + order_from(flags@, i + 1)) =~= before.push(i as int)
                + order_from(flags@, i + 1));
            i += 1;
        }
    }
    assert(positions(order@) + order_from(flags@, len as int) =~= positions(order@));
    (order, reversed_any)
}

proof fn lemma_order_in_range(flags: Seq<UnitFlags>, i: int, k: int)
    requires
        0 <= i <= flags.len(),
        0 <= k < order_from(flags, i).len(),
    ensures
        i <= order_from(flags, i)[k] < flags.len(),
    decreases flags.len() - i,
{
    if i < flags.len() {
        if flags[i].bidi == 1 {
            lemma_run_end(flags, i);
            let end = run_end(flags, i);
            if k >= end - i {
                lemma_order_in_range(flags, end, k - (end - i));
            }
        } else if k > 0 {
            lemma_order_in_range(flags, i + 1, k - 1);
        }
    }
}

/// The glyphs of units in a given order: each unit keeps its glyphs together.
fn arrange_units(glyphs: &[GlyphDecode], units: &[Unit], order: &[usize]) -> (out: Vec<
    GlyphDecode,
>)
    requires
        is_tiling(units@, glyphs@.len() as int),
        forall|k: int| 0 <= k < order@.len() ==> (#[trigger] order@[k]) < units@.len(),
    ensures
        glyph_views(out@) == arranged(glyph_views(glyphs@), units@, positions(order@)),
{
    let ghost views = glyph_views(glyphs@);
    let mut out: Vec<GlyphDecode> = Vec::new();
    assert(glyph_views(out@) =~= arranged(views, units@, positions(order@).take(0)));
    for k in 0..order.len()
        invariant
            views == glyph_views(glyphs@),
            is_tiling(units@, glyphs@.len() as int),
            forall|k: int| 0 <= k < order@.len() ==> (#[trigger] order@[k]) < units@.len(),
            glyph_views(out@) == arranged(views, units@, positions(order@).take(k as int)),
    {
        let ghost before = glyph_views(out@);
        assert(positions(order@).take(k + 1).drop_last() =~= positions(order@).take(k as int));
        assert(positions(order@).take(k + 1).last() == order@[k as int]);
        assert(order@[k as int] < units@.len());
        let unit = units[order[k]];
        assert(units@[order@[k as int] as int].start < unit.end);
        for j in unit.start..unit.end
            invariant
                views == glyph_views(glyphs@),
                unit.start < unit.end <= glyphs@.len(),
                glyph_views(out@) == before + views.subrange(unit.start as int, j as int),
        {
            let ghost sofar = glyph_views(out@);
            let glyph = glyphs[j].clone();
            out.push(glyph);
            assert(glyph_views(out@) =~= sofar.push(views[j as int]));
            assert(before + views.subrange(unit.start as int, j + 1) =~= sofar.push(
                views[j as int],
            ));
        }
    }
    assert(positions(order@).take(order@.len() as int) =~= positions(order@));
    out
}

/// Whether a font size leaves nothing to measure by.
pub open spec fn is_degenerate(font_size: u32) -> bool {
    !is_nan(font_size) && !is_less(0, font_size)
}

/// Finds the right-to-left runs of some glyphs that stand in visual order, and puts the units of
/// each in logical order; true where there is one.
///
/// `movements` tells, for each unit, how the pen moved to it from the unit before; the first
/// unit is measured from where `carry` left off. `font_size` is given by its bits: without
/// glyphs, and at a size that is not above 0, nothing is done and nothing is left to the next
/// call.
pub fn apply_bidi_reversal(
    glyphs: &mut Vec<GlyphDecode>,
    font_size: u32,
    movements: &[Movement],
    carry: &mut PenContinuity,
) -> (reversed: bool)
    requires
        movements@.len() == units_of(glyph_views(old(glyphs)@)).len(),
    ensures
        ({
            let before = glyph_views(old(glyphs)@);
            let units = units_of(before);
            let scanned = scan(*old(carry), before, movements@, units.len());
            if before.len() == 0 || is_degenerate(font_size) {
                !reversed && *final(carry) == cold_start()
            } else {
                &&& *final(carry) == scanned.carry
                &&& reversed == any_visual(scanned.flags, 0)
                &&& glyph_views(final(glyphs)@) == arranged(
                    before,
                    units,
                    order_from(scanned.flags, 0),
                )
            }
        }),
        !reversed ==> final(glyphs)@ == old(glyphs)@,
{
    if glyphs.len() == 0 || (!nan(font_size) && !less(0, font_size)) {
        *carry = PenContinuity { cur_bidi: 0, lag_pen: None, pen_end: None, last_bidi: 0 };
        return false;
    }
    let ghost before = glyph_views(glyphs@);
    let units = group_into_units(glyphs.as_slice());
    let flags = scan_units(glyphs.as_slice(), units.as_slice(), movements, carry);
    let (order, reversed) = order_units(flags.as_slice());
    proof {
        law_units_tile(before);
        lemma_scan_len(*old(carry), before, movements@, units@.len());
    }
    if reversed {
        proof {
            assert forall|k: int| 0 <= k < order@.len() implies (#[trigger] order@[k])
                < units@.len() by {
                lemma_order_in_range(flags@, 0, k);
                assert(positions(order@)[k] == order@[k]);
            }
        }
        let moved = arrange_units(glyphs.as_slice(), units.as_slice(), order.as_slice());
        *glyphs = moved;
    } else {
        proof {
            law_without_a_visual_run_nothing_moves(before, flags@);
        }
    }
    reversed
}

proof fn lemma_scan_len(
    carry: PenContinuity,
    glyphs: Seq<GlyphView>,
    movements: Seq<Movement>,
    n: nat,
)
    ensures
        scan(carry, glyphs, movements, n).flags.len() == n,
    decreases n,
{
    if n > 0 {
        lemma_scan_len(carry, glyphs, movements, (n - 1) as nat);
    }
}

proof fn lemma_arranged_concat(
    glyphs: Seq<GlyphView>,
    units: Seq<Unit>,
    a: Seq<int>,
    b: Seq<int>,
)
    ensures
        arranged(glyphs, units, a + b) == arranged(glyphs, units, a) + arranged(glyphs, units, b),
    decreases b.len(),
{
    if b.len() == 0 {
        assert(a + b =~= a);
        assert(arranged(glyphs, units, a) + arranged(glyphs, units, b) =~= arranged(
            glyphs,
            units,
            a,
        ));
    } else {
        lemma_arranged_concat(glyphs, units, a, b.drop_last());
        assert((a + b).drop_last() =~= a + b.drop_last());
        assert(arranged(glyphs, units, a + b) =~= arranged(glyphs, units, a) + arranged(
            glyphs,
            units,
            b,
        ));
    }
}

/// The glyphs of one unit.
pub open spec fn unit_slice(glyphs: Seq<GlyphView>, unit: Unit) -> Seq<GlyphView> {
    glyphs.subrange(unit.start as int, unit.end as int)
}

proof fn lemma_arranged_one(glyphs: Seq<GlyphView>, units: Seq<Unit>, k: int)
    ensures
        arranged(glyphs, units, seq![k]) == unit_slice(glyphs, units[k]),
{
    reveal_with_fuel(arranged, 2);
    assert(seq![k].drop_last() =~= Seq::<int>::empty());
    assert(arranged(glyphs, units, seq![k]) =~= unit_slice(glyphs, units[k]));
}

/// The glyphs of a run of units, in either order.
proof fn lemma_run_multiset(
    glyphs: Seq<GlyphView>,
    units: Seq<Unit>,
    start: int,
    end: int,
    backwards: bool,
)
    requires
        is_tiling(units, glyphs.len() as int),
        0 <= start < end <= units.len(),
    ensures
        units[start].start < units[end - 1].end <= glyphs.len(),
        arranged(glyphs, units, run_order(start, end, backwards)).to_multiset()
            == glyphs.subrange(units[start].start as int, units[end - 1].end as int).to_multiset(),
    decreases end,
{
    broadcast use vstd::seq_lib::group_to_multiset_ensures;

    let last = unit_slice(glyphs, units[end - 1]);
    assert(units[end - 1].start < units[end - 1].end <= glyphs.len());
    lemma_arranged_one(glyphs, units, end - 1);
    if end == start + 1 {
        assert(run_order(start, end, backwards) =~= seq![end - 1]);
    } else {
        lemma_run_multiset(glyphs, units, start, end - 1, backwards);
        let inner = run_order(start, end - 1, backwards);
        let front = arranged(glyphs, units, inner);
        let span = glyphs.subrange(units[start].start as int, units[end - 2].end as int);
        assert(abuts(units, end - 1));
        assert(glyphs.subrange(units[start].start as int, units[end - 1].end as int) =~= span
            + last);
        vstd::seq_lib::lemma_multiset_commutative(span, last);
        if backwards {
            assert(run_order(start, end, backwards) =~= seq![end - 1] + inner);
            lemma_arranged_concat(glyphs, units, seq![end - 1], inner);
            vstd::seq_lib::lemma_multiset_commutative(last, front);
        } else {
            assert(run_order(start, end, backwards) =~= inner + seq![end - 1]);
            lemma_arranged_concat(glyphs, units, inner, seq![end - 1]);
            vstd::seq_lib::lemma_multiset_commutative(front, last);
        }
    }
}

proof fn lemma_order_multiset(
    glyphs: Seq<GlyphView>,
    units: Seq<Unit>,
    flags: Seq<UnitFlags>,
    i: int,
)
    requires
        is_tiling(units, glyphs.len() as int),
        flags.len() == units.len(),
        0 <= i < flags.len(),
    ensures
        arranged(glyphs, units, order_from(flags, i)).to_multiset() == glyphs.skip(
            units[i].start as int,
        ).to_multiset(),
    decreases flags.len() - i,
{
    let end = if flags[i].bidi == 1 {
        run_end(flags, i)
    } else {
        i + 1
    };
    let backwards = flags[i].bidi == 1 && is_visual(flags, i, end);
    let run = run_order(i, end, backwards);
    if flags[i].bidi == 1 {
        lemma_run_end(flags, i);
    } else {
        assert(run =~= seq![i]);
    }
    lemma_run_multiset(glyphs, units, i, end, backwards);
    lemma_arranged_concat(glyphs, units, run, order_from(flags, end));
    let front = arranged(glyphs, units, run);
    let rest = arranged(glyphs, units, order_from(flags, end));
    let span = glyphs.subrange(units[i].start as int, units[end - 1].end as int);
    vstd::seq_lib::lemma_multiset_commutative(front, rest);
    if end < flags.len() {
        lemma_order_multiset(glyphs, units, flags, end);
        assert(abuts(units, end));
        let tail = glyphs.skip(units[end].start as int);
        assert(glyphs.skip(units[i].start as int) =~= span + tail);
        vstd::seq_lib::lemma_multiset_commutative(span, tail);
    } else {
        assert(order_from(flags, end) =~= Seq::<int>::empty());
        assert(rest =~= Seq::<GlyphView>::empty());
        assert(front + rest =~= front);
        assert(glyphs.skip(units[i].start as int) =~= span);
    }
}

/// Reordering loses no glyph and makes none up.
pub proof fn law_reordering_keeps_the_glyphs(glyphs: Seq<GlyphView>, flags: Seq<UnitFlags>)
    requires
        glyphs.len() <= usize::MAX,
        flags.len() == units_of(glyphs).len(),
    ensures
        arranged(glyphs, units_of(glyphs), order_from(flags, 0)).to_multiset()
            == glyphs.to_multiset(),
{
    law_units_tile(glyphs);
    if flags.len() > 0 {
        lemma_order_multiset(glyphs, units_of(glyphs), flags, 0);
        assert(glyphs.skip(0) =~= glyphs);
    } else {
        assert(order_from(flags, 0) =~= Seq::<int>::empty());
        assert(glyphs =~= Seq::<GlyphView>::empty());
    }
}

/// Every unit stands once in the order.
pub proof fn law_every_unit_stands_once(flags: Seq<UnitFlags>)
    ensures
        order_from(flags, 0).len() == flags.len(),
        order_from(flags, 0).no_duplicates(),
        forall|k: int| 0 <= k < flags.len() ==> order_from(flags, 0).contains(k),
{
    lemma_order_stands_once(flags, 0);
}

proof fn lemma_order_stands_once(flags: Seq<UnitFlags>, i: int)
    requires
        0 <= i <= flags.len(),
    ensures
        order_from(flags, i).len() == flags.len() - i,
        order_from(flags, i).no_duplicates(),
        forall|k: int| i <= k < flags.len() ==> order_from(flags, i).contains(k),
        forall|j: int| 0 <= j < order_from(flags, i).len() ==> i <= #[trigger] order_from(
            flags,
            i,
        )[j] < flags.len(),
    decreases flags.len() - i,
{
    if i < flags.len() {
        let end = if flags[i].bidi == 1 {
            run_end(flags, i)
        } else {
            i + 1
        };
        let backwards = flags[i].bidi == 1 && is_visual(flags, i, end);
        let run = run_order(i, end, backwards);
        if flags[i].bidi == 1 {
            lemma_run_end(flags, i);
        } else {
            assert(run =~= seq![i]);
        }
        lemma_order_stands_once(flags, end);
        let rest = order_from(flags, end);
        let order = order_from(flags, i);
        assert(order =~= run + rest);
        assert forall|k: int| i <= k < flags.len() implies order.contains(k) by {
            if k < end {
                let at = if backwards {
                    end - 1 - k
                } else {
                    k - i
                };
                assert(order[at] == k);
            } else {
                assert(rest.contains(k));
                let at = choose|at: int| 0 <= at < rest.len() && rest[at] == k;
                assert(order[run.len() + at] == k);
            }
        }
    }
}

/// A unit's glyphs stay together and in their order: the unit that stands at place `k` of the
/// order is a stretch of the rearranged glyphs.
pub proof fn law_units_stay_whole(
    glyphs: Seq<GlyphView>,
    units: Seq<Unit>,
    order: Seq<int>,
    k: int,
)
    requires
        0 <= k < order.len(),
    ensures
        arranged(glyphs, units, order) == arranged(glyphs, units, order.take(k)) + unit_slice(
            glyphs,
            units[order[k]],
        ) + arranged(glyphs, units, order.skip(k + 1)),
{
    assert(order =~= (order.take(k) + seq![order[k]]) + order.skip(k + 1));
    lemma_arranged_concat(glyphs, units, order.take(k) + seq![order[k]], order.skip(k + 1));
    lemma_arranged_concat(glyphs, units, order.take(k), seq![order[k]]);
    lemma_arranged_one(glyphs, units, order[k]);
}

/// Whether no unit up to `n` starts with a right-to-left character or an Arabic number.
pub open spec fn is_left_to_right(glyphs: Seq<GlyphView>, n: int) -> bool {
    forall|k: int|
        0 <= k < n ==> {
            let class = class_of(glyphs[(#[trigger] units_of(glyphs)[k]).start as int]);
            class != BidiClass::R && class != BidiClass::AL && class != BidiClass::AN
        }
}

proof fn lemma_left_to_right_flags(
    carry: PenContinuity,
    glyphs: Seq<GlyphView>,
    movements: Seq<Movement>,
    n: nat,
)
    requires
        carry.cur_bidi == 0,
        carry.last_bidi == 0,
        is_left_to_right(glyphs, n as int),
    ensures
        ({
            let scanned = scan(carry, glyphs, movements, n);
            &&& scanned.carry.cur_bidi == 0
            &&& scanned.carry.last_bidi == 0
            &&& scanned.flags.len() == n
            &&& forall|k: int| 0 <= k < n ==> (#[trigger] scanned.flags[k]).bidi == 0
        }),
    decreases n,
{
    if n > 0 {
        lemma_left_to_right_flags(carry, glyphs, movements, (n - 1) as nat);
        let class = class_of(glyphs[units_of(glyphs)[n - 1].start as int]);
        assert(class != BidiClass::R && class != BidiClass::AL && class != BidiClass::AN);
    }
}

proof fn lemma_no_run_no_visual(flags: Seq<UnitFlags>, i: int)
    requires
        0 <= i <= flags.len(),
        forall|k: int| 0 <= k < flags.len() ==> (#[trigger] flags[k]).bidi == 0,
    ensures
        !any_visual(flags, i),
    decreases flags.len() - i,
{
    if i < flags.len() {
        lemma_no_run_no_visual(flags, i + 1);
    }
}

/// Left-to-right text is never reversed, however the pen moves.
pub proof fn law_left_to_right_text_stays(
    glyphs: Seq<GlyphView>,
    movements: Seq<Movement>,
)
    requires
        is_left_to_right(glyphs, units_of(glyphs).len() as int),
    ensures
        !any_visual(scan(cold_start(), glyphs, movements, units_of(glyphs).len()).flags, 0),
{
    let n = units_of(glyphs).len();
    lemma_left_to_right_flags(cold_start(), glyphs, movements, n);
    lemma_no_run_no_visual(scan(cold_start(), glyphs, movements, n).flags, 0);
}

proof fn lemma_no_signal_no_visual(flags: Seq<UnitFlags>, i: int)
    requires
        0 <= i <= flags.len(),
        forall|k: int| 0 <= k < flags.len() ==> !(#[trigger] flags[k]).signal,
    ensures
        !any_visual(flags, i),
    decreases flags.len() - i,
{
    if i < flags.len() {
        if flags[i].bidi == 1 {
            lemma_run_end(flags, i);
            lemma_no_signal_no_visual(flags, run_end(flags, i));
        } else {
            lemma_no_signal_no_visual(flags, i + 1);
        }
    }
}

proof fn lemma_logical_flags(
    carry: PenContinuity,
    glyphs: Seq<GlyphView>,
    movements: Seq<Movement>,
    n: nat,
)
    requires
        n <= movements.len(),
        forall|k: int|
            0 <= k < n ==> is_less(
                magnitude((#[trigger] movements[k]).logical_spacing),
                SPACE_DIST,
            ),
    ensures
        scan(carry, glyphs, movements, n).flags.len() == n,
        forall|k: int|
            0 <= k < n ==> !(#[trigger] scan(carry, glyphs, movements, n).flags[k]).signal,
    decreases n,
{
    if n > 0 {
        lemma_logical_flags(carry, glyphs, movements, (n - 1) as nat);
        assert(is_less(magnitude(movements[n - 1].logical_spacing), SPACE_DIST));
    }
}

/// Text that is already in logical order, the pen going back by about each unit's own width, is
/// never reversed.
pub proof fn law_logical_order_stays(
    carry: PenContinuity,
    glyphs: Seq<GlyphView>,
    movements: Seq<Movement>,
)
    requires
        movements.len() == units_of(glyphs).len(),
        forall|k: int|
            0 <= k < movements.len() ==> is_less(
                magnitude((#[trigger] movements[k]).logical_spacing),
                SPACE_DIST,
            ),
    ensures
        !any_visual(scan(carry, glyphs, movements, movements.len()).flags, 0),
{
    lemma_logical_flags(carry, glyphs, movements, movements.len());
    lemma_no_signal_no_visual(scan(carry, glyphs, movements, movements.len()).flags, 0);
}

/// A run of right-to-left units on one line, one of which shows visual order, is reversed as a
/// whole: also the units that show nothing themselves.
pub proof fn law_visual_run_is_reversed(flags: Seq<UnitFlags>, signal: int)
    requires
        flags.len() > 1,
        0 <= signal < flags.len(),
        flags[signal].signal,
        forall|k: int| 0 <= k < flags.len() ==> (#[trigger] flags[k]).bidi == 1,
        forall|k: int| 0 < k < flags.len() ==> !(#[trigger] flags[k]).run_break,
    ensures
        any_visual(flags, 0),
        order_from(flags, 0) == run_order(0, flags.len() as int, true),
{
    lemma_run_goes_on(flags, 0);
    assert(is_visual(flags, 0, flags.len() as int));
    assert(order_from(flags, flags.len() as int) =~= Seq::<int>::empty());
    assert(order_from(flags, 0) =~= run_order(0, flags.len() as int, true));
}

proof fn lemma_run_goes_on(flags: Seq<UnitFlags>, i: int)
    requires
        0 <= i < flags.len(),
        forall|k: int| 0 <= k < flags.len() ==> (#[trigger] flags[k]).bidi == 1,
        forall|k: int| 0 < k < flags.len() ==> !(#[trigger] flags[k]).run_break,
    ensures
        run_end(flags, i) == flags.len(),
    decreases flags.len() - i,
{
    if i < flags.len() - 1 {
        assert(flags[i + 1].bidi == 1 && !flags[i + 1].run_break);
        lemma_run_goes_on(flags, i + 1);
    }
}

/// Whether the units up to `n` start with right-to-left letters at known positions, the pen
/// going on to each by about the width of the one before.
pub open spec fn is_visual_text(
    glyphs: Seq<GlyphView>,
    movements: Seq<Movement>,
    n: int,
) -> bool {
    &&& forall|k: int|
        0 <= k < n ==> {
            let glyph = glyphs[(#[trigger] units_of(glyphs)[k]).start as int];
            glyph.pen is Some && (class_of(glyph) == BidiClass::R || class_of(glyph)
                == BidiClass::AL)
        }
    &&& forall|k: int|
        0 < k < n ==> {
            let m = #[trigger] movements[k];
            same_line(m) && !is_less(magnitude(m.logical_spacing), SPACE_DIST) && is_less(
                magnitude(m.spacing),
                SPACE_DIST,
            )
        }
}

proof fn lemma_visual_flags(glyphs: Seq<GlyphView>, movements: Seq<Movement>, n: nat)
    requires
        is_visual_text(glyphs, movements, n as int),
    ensures
        ({
            let scanned = scan(cold_start(), glyphs, movements, n);
            &&& scanned.flags.len() == n
            &&& n > 0 ==> scanned.carry.lag_pen is Some && scanned.carry.pen_end is Some
                && scanned.carry.last_bidi == 1
            &&& forall|k: int| 0 <= k < n ==> (#[trigger] scanned.flags[k]).bidi == 1
            &&& forall|k: int| 0 <= k < n ==> !(#[trigger] scanned.flags[k]).run_break
            &&& forall|k: int| 0 < k < n ==> (#[trigger] scanned.flags[k]).signal
        }),
    decreases n,
{
    if n > 0 {
        lemma_visual_flags(glyphs, movements, (n - 1) as nat);
        assert(glyphs[units_of(glyphs)[n - 1].start as int].pen is Some);
        assert(n > 1 ==> same_line(movements[n - 1]));
    }
}

/// Right-to-left text in visual order, of two units or more, comes out backwards as a whole.
pub proof fn law_visual_text_is_reversed(glyphs: Seq<GlyphView>, movements: Seq<Movement>)
    requires
        units_of(glyphs).len() > 1,
        is_visual_text(glyphs, movements, units_of(glyphs).len() as int),
    ensures
        ({
            let n = units_of(glyphs).len();
            let flags = scan(cold_start(), glyphs, movements, n).flags;
            any_visual(flags, 0) && order_from(flags, 0) == run_order(0, n as int, true)
        }),
{
    let n = units_of(glyphs).len();
    lemma_visual_flags(glyphs, movements, n);
    law_visual_run_is_reversed(scan(cold_start(), glyphs, movements, n).flags, 1);
}

/// A single unit is never reversed.
pub proof fn law_single_unit_stays(flags: Seq<UnitFlags>)
    requires
        flags.len() == 1,
    ensures
        !any_visual(flags, 0),
{
    lemma_run_end(flags, 0);
    assert(!any_visual(flags, 1));
}

}
