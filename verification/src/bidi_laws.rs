//! What putting right-to-left text in logical order promises.

use crate::bidi::{
    any_visual, arranged, cold_start, is_degenerate, is_visual, law_every_unit_stands_once,
    lemma_run_end, level_of, opens_unit, order_from, run_end, run_order, scan, units_of, BidiClass,
    Movement, PenContinuity, Unit, UnitFlags,
};
use crate::glyphs::GlyphView;
use crate::number::{is_less, magnitude};
use crate::outside::unicode_class;
use vstd::prelude::*;

verus! {

/// A glyph that stands for a code, and the fillers behind it.
pub open spec fn is_piece(piece: Seq<GlyphView>) -> bool {
    &&& piece.len() > 0
    &&& piece[0].code_count > 0
    &&& forall|i: int| 0 < i < piece.len() ==> (#[trigger] piece[i]).code_count == 0
}

/// Pieces of which a run of glyphs is made.
pub open spec fn are_pieces(pieces: Seq<Seq<GlyphView>>) -> bool {
    forall|k: int| 0 <= k < pieces.len() ==> is_piece(#[trigger] pieces[k])
}

/// Whether a piece starts with a character of one of some classes.
pub open spec fn starts_with(piece: Seq<GlyphView>, classes: Set<BidiClass>) -> bool {
    piece[0].text.len() > 0 && classes.contains(unicode_class(piece[0].text[0]))
}

/// The classes of right-to-left letters.
pub open spec fn right_to_left() -> Set<BidiClass> {
    set![BidiClass::R, BidiClass::AL]
}

/// The classes of left-to-right letters, and of numbers that are read so.
pub open spec fn left_to_right() -> Set<BidiClass> {
    set![BidiClass::L, BidiClass::EN, BidiClass::ES, BidiClass::ET]
}

/// The classes that take the direction of what is before them.
pub open spec fn neutral() -> Set<BidiClass> {
    set![
        BidiClass::CS,
        BidiClass::NSM,
        BidiClass::BN,
        BidiClass::B,
        BidiClass::S,
        BidiClass::WS,
        BidiClass::ON,
    ]
}

/// A piece that goes on in the direction before it: it starts with a neutral character, or shows
/// no text.
pub open spec fn is_neutral(piece: Seq<GlyphView>) -> bool {
    piece[0].text.len() == 0 || starts_with(piece, neutral())
}

/// The baseline moved by less than 0.8 font sizes.
pub open spec fn on_one_line(m: Movement) -> bool {
    is_less(magnitude(m.base_offset), 0x3F4C_CCCD)
}

/// The pen did not go back by about the unit's own width, to within 0.15 font sizes.
pub open spec fn not_back(m: Movement) -> bool {
    !is_less(magnitude(m.logical_spacing), 0x3E19_999A)
}

/// The pen went on by about the width of the unit before, to within 0.15 font sizes; or further by
/// less than 0.8 font sizes, unless it went back by up to 0.8 font sizes more than its width.
pub open spec fn goes_on(m: Movement) -> bool {
    &&& on_one_line(m)
    &&& not_back(m)
    &&& is_less(magnitude(m.spacing), 0x3E19_999A) || (is_less(0, m.spacing) && is_less(
        m.spacing,
        0x3F4C_CCCD,
    ) && !(is_less(m.logical_spacing, 0) && is_less(0xBF4C_CCCD, m.logical_spacing)))
}

/// What becomes of some glyphs: the order of the runs that the scan of them finds.
pub open spec fn reordered(
    carry: PenContinuity,
    glyphs: Seq<GlyphView>,
    movements: Seq<Movement>,
) -> Seq<GlyphView> {
    arranged(
        glyphs,
        units_of(glyphs),
        order_from(scan(carry, glyphs, movements, units_of(glyphs).len()).flags, 0),
    )
}

/// Whether some glyphs are found to hold a run in visual order.
pub open spec fn is_reversed(
    carry: PenContinuity,
    glyphs: Seq<GlyphView>,
    movements: Seq<Movement>,
) -> bool {
    any_visual(scan(carry, glyphs, movements, units_of(glyphs).len()).flags, 0)
}

proof fn lemma_pieces_front(pieces: Seq<Seq<GlyphView>>)
    requires
        are_pieces(pieces),
        pieces.len() > 0,
    ensures
        are_pieces(pieces.drop_last()),
        is_piece(pieces.last()),
        pieces.flatten() == pieces.drop_last().flatten() + pieces.last(),
{
    assert(pieces =~= pieces.drop_last().push(pieces.last()));
    pieces.drop_last().lemma_flatten_push(pieces.last());
    assert(is_piece(pieces[pieces.len() - 1]));
    assert forall|k: int| 0 <= k < pieces.drop_last().len() implies is_piece(
        #[trigger] pieces.drop_last()[k],
    ) by {
        assert(is_piece(pieces[k]));
    }
}

/// The units of glyphs to which one piece, up to its `n`th glyph, has been added.
proof fn lemma_units_of_piece(glyphs: Seq<GlyphView>, piece: Seq<GlyphView>, n: nat)
    requires
        is_piece(piece),
        1 <= n <= piece.len(),
        glyphs.len() + piece.len() <= usize::MAX,
    ensures
        units_of(glyphs + piece.take(n as int)) == units_of(glyphs).push(
            Unit { start: glyphs.len() as usize, end: (glyphs.len() + n) as usize },
        ),
    decreases n,
{
    let all = glyphs + piece.take(n as int);
    let at = all.len() - 1;
    assert(all.drop_last() =~= glyphs + piece.take(n - 1));
    assert(all[at] == piece[n - 1]);
    if n == 1 {
        assert(glyphs + piece.take(0) =~= glyphs);
        assert(opens_unit(all, at));
    } else {
        lemma_units_of_piece(glyphs, piece, (n - 1) as nat);
        assert(all[glyphs.len() as int] == piece[0]);
        assert(piece[n - 1].code_count == 0);
        assert(!opens_unit(all, at)) by {
            assert(all[glyphs.len() as int].code_count != 0);
        }
        let front = units_of(all.drop_last());
        assert(front.drop_last() =~= units_of(glyphs));
    }
}

/// The units of a run of glyphs are its pieces.
pub proof fn law_units_are_pieces(pieces: Seq<Seq<GlyphView>>)
    requires
        are_pieces(pieces),
        pieces.flatten().len() <= usize::MAX,
    ensures
        units_of(pieces.flatten()).len() == pieces.len(),
        forall|k: int|
            0 <= k < pieces.len() ==> {
                let unit = #[trigger] units_of(pieces.flatten())[k];
                &&& unit.start <= unit.end <= pieces.flatten().len()
                &&& pieces.flatten().subrange(unit.start as int, unit.end as int) == pieces[k]
            },
    decreases pieces.len(),
{
    let glyphs = pieces.flatten();
    if pieces.len() > 0 {
        lemma_pieces_front(pieces);
        let front = pieces.drop_last();
        let before = front.flatten();
        law_units_are_pieces(front);
        let last = pieces.last();
        assert(last.take(last.len() as int) =~= last);
        lemma_units_of_piece(before, last, last.len());
        assert forall|k: int| 0 <= k < pieces.len() implies ({
            let unit = #[trigger] units_of(glyphs)[k];
            &&& unit.start <= unit.end <= glyphs.len()
            &&& glyphs.subrange(unit.start as int, unit.end as int) == pieces[k]
        }) by {
            let unit = units_of(glyphs)[k];
            if k < front.len() {
                assert(unit == units_of(before)[k]);
                assert(before.subrange(unit.start as int, unit.end as int) == front[k]);
                assert(glyphs.subrange(unit.start as int, unit.end as int) =~= before.subrange(
                    unit.start as int,
                    unit.end as int,
                ));
            } else {
                assert(glyphs.subrange(unit.start as int, unit.end as int) =~= last);
            }
        }
    }
}

/// Fillers that no glyph with a code stands before are units of their own.
pub proof fn law_leading_fillers_stand_alone(glyphs: Seq<GlyphView>)
    requires
        glyphs.len() <= usize::MAX,
        forall|i: int| 0 <= i < glyphs.len() ==> (#[trigger] glyphs[i]).code_count == 0,
    ensures
        units_of(glyphs) == Seq::new(
            glyphs.len(),
            |i: int| Unit { start: i as usize, end: (i + 1) as usize },
        ),
    decreases glyphs.len(),
{
    if glyphs.len() > 0 {
        law_leading_fillers_stand_alone(glyphs.drop_last());
        assert(opens_unit(glyphs, glyphs.len() - 1));
    }
    assert(units_of(glyphs) =~= Seq::new(
        glyphs.len(),
        |i: int| Unit { start: i as usize, end: (i + 1) as usize },
    ));
}

/// Glyphs arranged by an order of their pieces are the pieces in that order.
pub proof fn law_arranged_pieces(pieces: Seq<Seq<GlyphView>>, order: Seq<int>)
    requires
        are_pieces(pieces),
        pieces.flatten().len() <= usize::MAX,
        forall|k: int| 0 <= k < order.len() ==> 0 <= #[trigger] order[k] < pieces.len(),
    ensures
        arranged(pieces.flatten(), units_of(pieces.flatten()), order) == order.map_values(
            |k: int| pieces[k],
        ).flatten(),
    decreases order.len(),
{
    law_units_are_pieces(pieces);
    let moved = order.map_values(|k: int| pieces[k]);
    if order.len() > 0 {
        let front = order.drop_last();
        assert(0 <= order[order.len() - 1] < pieces.len());
        assert forall|k: int| 0 <= k < front.len() implies 0 <= #[trigger] front[k]
            < pieces.len() by {
            assert(0 <= order[k] < pieces.len());
        }
        law_arranged_pieces(pieces, front);
        assert(moved =~= front.map_values(|k: int| pieces[k]).push(pieces[order.last()]));
        front.map_values(|k: int| pieces[k]).lemma_flatten_push(pieces[order.last()]);
        let unit = units_of(pieces.flatten())[order.last()];
        assert(pieces.flatten().subrange(unit.start as int, unit.end as int)
            == pieces[order.last()]);
    } else {
        assert(moved =~= Seq::<Seq<GlyphView>>::empty());
    }
}

/// The level of a character is 1 for right-to-left letters and Arabic numbers, that of what is
/// before it for a neutral one, and 0 for any other.
pub proof fn law_levels(class: BidiClass, before: u8)
    ensures
        right_to_left().contains(class) || class == BidiClass::AN ==> level_of(class, before) == 1,
        neutral().contains(class) ==> level_of(class, before) == before,
        left_to_right().contains(class) ==> level_of(class, before) == 0,
        !right_to_left().contains(class) && !neutral().contains(class) && class != BidiClass::AN
            ==> level_of(class, before) == 0,
{
}

/// The first glyph of a piece.
proof fn lemma_first_glyph(pieces: Seq<Seq<GlyphView>>, k: int)
    requires
        are_pieces(pieces),
        pieces.flatten().len() <= usize::MAX,
        0 <= k < pieces.len(),
    ensures
        units_of(pieces.flatten())[k].start < pieces.flatten().len(),
        pieces.flatten()[units_of(pieces.flatten())[k].start as int] == pieces[k][0],
{
    law_units_are_pieces(pieces);
    let unit = units_of(pieces.flatten())[k];
    assert(is_piece(pieces[k]));
    assert(pieces.flatten().subrange(unit.start as int, unit.end as int)[0] == pieces[k][0]);
}

/// Whether pieces from `start` on up to `end` are a run of right-to-left text on one line that is
/// drawn from left to right: it starts with a right-to-left letter, and goes on with letters and
/// neutral characters.
pub open spec fn is_drawn_visually(
    pieces: Seq<Seq<GlyphView>>,
    movements: Seq<Movement>,
    start: int,
    end: int,
) -> bool {
    &&& starts_with(pieces[start], right_to_left())
    &&& forall|k: int|
        start <= k < end ==> (#[trigger] pieces[k])[0].pen is Some && (starts_with(
            pieces[k],
            right_to_left(),
        ) || is_neutral(pieces[k]))
    &&& forall|k: int| start < k < end ==> goes_on(#[trigger] movements[k])
}

/// Whether pieces from `start` on up to `end` are left-to-right text, which starts with a
/// left-to-right letter at a known place.
pub open spec fn is_plain(pieces: Seq<Seq<GlyphView>>, start: int, end: int) -> bool {
    &&& start < end ==> starts_with(pieces[start], left_to_right()) && pieces[start][0].pen is Some
    &&& forall|k: int|
        start <= k < end ==> starts_with(#[trigger] pieces[k], left_to_right()) || is_neutral(
            pieces[k],
        )
}

/// The flags of the units before `n`, where the first `a` pieces are left-to-right text, those
/// up to `b` are drawn visually, and the rest is left-to-right text again.
proof fn lemma_flags(
    pieces: Seq<Seq<GlyphView>>,
    movements: Seq<Movement>,
    a: int,
    b: int,
    n: nat,
)
    requires
        are_pieces(pieces),
        pieces.flatten().len() <= usize::MAX,
        0 <= a < b <= pieces.len(),
        n <= pieces.len(),
        is_plain(pieces, 0, a),
        is_drawn_visually(pieces, movements, a, b),
        is_plain(pieces, b, pieces.len() as int),
    ensures
        ({
            let scanned = scan(cold_start(), pieces.flatten(), movements, n);
            let level: u8 = if a < n && n <= b {
                1
            } else {
                0
            };
            &&& scanned.flags.len() == n
            &&& scanned.carry.cur_bidi == level && scanned.carry.last_bidi == level
            &&& a < n <= b ==> scanned.carry.lag_pen is Some && scanned.carry.pen_end is Some
            &&& forall|k: int|
                0 <= k < n ==> (#[trigger] scanned.flags[k]).bidi == if a <= k < b {
                    1u8
                } else {
                    0u8
                }
            &&& forall|k: int|
                a < k < b && k < n ==> (#[trigger] scanned.flags[k]).signal
                    && !scanned.flags[k].run_break
        }),
    decreases n,
{
    if n > 0 {
        lemma_flags(pieces, movements, a, b, (n - 1) as nat);
        lemma_first_glyph(pieces, n - 1);
        let piece = pieces[n - 1];
        let m = movements[n - 1];
        if a <= n - 1 && n - 1 < b {
            assert(piece[0].pen is Some);
            if a < n - 1 {
                assert(goes_on(m));
            }
        } else {
            assert(starts_with(piece, left_to_right()) || is_neutral(piece));
        }
        if piece[0].text.len() > 0 {
            law_levels(
                unicode_class(piece[0].text[0]),
                scan(
                    cold_start(),
                    pieces.flatten(),
                    movements,
                    (n - 1) as nat,
                ).carry.cur_bidi,
            );
        }
    }
}

proof fn lemma_run_to(flags: Seq<UnitFlags>, i: int, end: int)
    requires
        0 <= i < end <= flags.len(),
        forall|k: int|
            i < k < end ==> (#[trigger] flags[k]).bidi == 1 && !flags[k].run_break,
        end < flags.len() ==> flags[end].bidi != 1 || flags[end].run_break,
    ensures
        run_end(flags, i) == end,
    decreases end - i,
{
    if i + 1 < end {
        assert(flags[i + 1].bidi == 1);
        lemma_run_to(flags, i + 1, end);
    }
}

/// The order of units from `i` on that are all left to right.
proof fn lemma_plain_order(flags: Seq<UnitFlags>, i: int)
    requires
        0 <= i <= flags.len(),
        forall|k: int| i <= k < flags.len() ==> (#[trigger] flags[k]).bidi == 0,
    ensures
        order_from(flags, i) == run_order(i, flags.len() as int, false),
        !any_visual(flags, i),
    decreases flags.len() - i,
{
    if i < flags.len() {
        assert(flags[i].bidi == 0);
        lemma_plain_order(flags, i + 1);
    }
    assert(order_from(flags, i) =~= run_order(i, flags.len() as int, false));
}

/// The order of units from `i` on: left to right up to `a`, then what the units from there on
/// have.
proof fn lemma_order_before(flags: Seq<UnitFlags>, i: int, a: int)
    requires
        0 <= i <= a <= flags.len(),
        forall|k: int| i <= k < a ==> (#[trigger] flags[k]).bidi == 0,
    ensures
        order_from(flags, i) == run_order(i, a, false) + order_from(flags, a),
        any_visual(flags, i) == any_visual(flags, a),
    decreases a - i,
{
    if i < a {
        assert(flags[i].bidi == 0);
        lemma_order_before(flags, i + 1, a);
    }
    assert(order_from(flags, i) =~= run_order(i, a, false) + order_from(flags, a));
}

/// A run of right-to-left text that is drawn from left to right, of two pieces or more, is
/// turned round; what stands before it and behind it stays in its place. Fillers stay with the
/// glyph that they belong to.
pub proof fn law_visual_run_is_turned_round(
    before: Seq<Seq<GlyphView>>,
    run: Seq<Seq<GlyphView>>,
    behind: Seq<Seq<GlyphView>>,
    movements: Seq<Movement>,
)
    requires
        are_pieces(before + run + behind),
        (before + run + behind).flatten().len() <= usize::MAX,
        run.len() > 1,
        is_plain(before + run + behind, 0, before.len() as int),
        is_drawn_visually(
            before + run + behind,
            movements,
            before.len() as int,
            (before.len() + run.len()) as int,
        ),
        is_plain(
            before + run + behind,
            (before.len() + run.len()) as int,
            (before + run + behind).len() as int,
        ),
    ensures
        is_reversed(cold_start(), (before + run + behind).flatten(), movements),
        reordered(cold_start(), (before + run + behind).flatten(), movements) == (before
            + run.reverse() + behind).flatten(),
{
    let pieces = before + run + behind;
    let a = before.len() as int;
    let b = (before.len() + run.len()) as int;
    let n = pieces.len();
    law_units_are_pieces(pieces);
    lemma_flags(pieces, movements, a, b, n);
    let flags = scan(cold_start(), pieces.flatten(), movements, n).flags;
    assert(flags[a + 1].signal);
    assert(flags[a].bidi == 1);
    assert(b < n ==> flags[b].bidi == 0);
    lemma_run_to(flags, a, b);
    assert(is_visual(flags, a, b));
    lemma_plain_order(flags, b);
    lemma_order_before(flags, 0, a);
    let order = order_from(flags, 0);
    assert(order_from(flags, a) == run_order(a, b, true) + order_from(flags, b));
    assert(order =~= Seq::new(
        n,
        |k: int|
            if a <= k < b {
                b - 1 - (k - a)
            } else {
                k
            },
    ));
    law_arranged_pieces(pieces, order);
    assert(order.map_values(|k: int| pieces[k]) =~= before + run.reverse() + behind);
}

/// Two lines of right-to-left text, each drawn from left to right, are turned round one by one: a
/// run does not go on where the baseline moves by 0.8 font sizes or more.
pub proof fn law_lines_are_turned_round_one_by_one(
    first: Seq<Seq<GlyphView>>,
    second: Seq<Seq<GlyphView>>,
    movements: Seq<Movement>,
)
    requires
        are_pieces(first + second),
        (first + second).flatten().len() <= usize::MAX,
        first.len() > 1,
        second.len() > 1,
        is_drawn_visually(first + second, movements, 0, first.len() as int),
        is_drawn_visually(
            first + second,
            movements,
            first.len() as int,
            (first + second).len() as int,
        ),
        !on_one_line(movements[first.len() as int]),
    ensures
        is_reversed(cold_start(), (first + second).flatten(), movements),
        reordered(cold_start(), (first + second).flatten(), movements) == (first.reverse()
            + second.reverse()).flatten(),
{
    let pieces = first + second;
    let a = first.len() as int;
    let n = pieces.len();
    law_units_are_pieces(pieces);
    lemma_line_flags(pieces, movements, a, n);
    let flags = scan(cold_start(), pieces.flatten(), movements, n).flags;
    assert(flags[1].signal && flags[a + 1].signal);
    assert(flags[0].bidi == 1 && flags[a].bidi == 1 && flags[a].run_break);
    lemma_run_to(flags, 0, a);
    lemma_run_to(flags, a, n as int);
    assert(is_visual(flags, 0, a));
    assert(is_visual(flags, a, n as int));
    let order = order_from(flags, 0);
    assert(order_from(flags, n as int) =~= Seq::<int>::empty());
    assert(order_from(flags, a) == run_order(a, n as int, true) + order_from(flags, n as int));
    assert(order == run_order(0, a, true) + order_from(flags, a));
    assert(order =~= Seq::new(
        n,
        |k: int|
            if k < a {
                a - 1 - k
            } else {
                n - 1 - (k - a)
            },
    ));
    law_arranged_pieces(pieces, order);
    assert(order.map_values(|k: int| pieces[k]) =~= first.reverse() + second.reverse());
}

proof fn lemma_line_flags(
    pieces: Seq<Seq<GlyphView>>,
    movements: Seq<Movement>,
    a: int,
    n: nat,
)
    requires
        are_pieces(pieces),
        pieces.flatten().len() <= usize::MAX,
        0 < a < pieces.len(),
        n <= pieces.len(),
        is_drawn_visually(pieces, movements, 0, a),
        is_drawn_visually(pieces, movements, a, pieces.len() as int),
        !on_one_line(movements[a]),
    ensures
        ({
            let scanned = scan(cold_start(), pieces.flatten(), movements, n);
            &&& scanned.flags.len() == n
            &&& n > 0 ==> scanned.carry.cur_bidi == 1 && scanned.carry.last_bidi == 1
                && scanned.carry.lag_pen is Some && scanned.carry.pen_end is Some
            &&& forall|k: int| 0 <= k < n ==> (#[trigger] scanned.flags[k]).bidi == 1
            &&& forall|k: int|
                0 < k < n && k != a ==> (#[trigger] scanned.flags[k]).signal
                    && !scanned.flags[k].run_break
            &&& a < n ==> scanned.flags[a].run_break
        }),
    decreases n,
{
    if n > 0 {
        lemma_line_flags(pieces, movements, a, (n - 1) as nat);
        lemma_first_glyph(pieces, n - 1);
        let piece = pieces[n - 1];
        assert(piece[0].pen is Some);
        if n - 1 != 0 && n - 1 != a {
            assert(goes_on(movements[n - 1]));
        }
        if piece[0].text.len() > 0 {
            law_levels(
                unicode_class(piece[0].text[0]),
                scan(
                    cold_start(),
                    pieces.flatten(),
                    movements,
                    (n - 1) as nat,
                ).carry.cur_bidi,
            );
        }
    }
}

proof fn lemma_identity_order(pieces: Seq<Seq<GlyphView>>)
    requires
        are_pieces(pieces),
        pieces.flatten().len() <= usize::MAX,
    ensures
        arranged(
            pieces.flatten(),
            units_of(pieces.flatten()),
            run_order(0, pieces.len() as int, false),
        ) == pieces.flatten(),
{
    let order = run_order(0, pieces.len() as int, false);
    law_arranged_pieces(pieces, order);
    assert(order.map_values(|k: int| pieces[k]) =~= pieces);
}

/// Text none of whose pieces starts with a right-to-left letter or an Arabic number stays as it
/// is, however the pen moves.
pub proof fn law_text_without_right_to_left_letters_stays(
    pieces: Seq<Seq<GlyphView>>,
    movements: Seq<Movement>,
)
    requires
        are_pieces(pieces),
        pieces.flatten().len() <= usize::MAX,
        forall|k: int|
            0 <= k < pieces.len() ==> !starts_with(#[trigger] pieces[k], right_to_left())
                && !starts_with(pieces[k], set![BidiClass::AN]),
    ensures
        !is_reversed(cold_start(), pieces.flatten(), movements),
        reordered(cold_start(), pieces.flatten(), movements) == pieces.flatten(),
{
    law_units_are_pieces(pieces);
    lemma_level_flags(pieces, movements, pieces.len());
    lemma_plain_order(scan(cold_start(), pieces.flatten(), movements, pieces.len()).flags, 0);
    lemma_identity_order(pieces);
}

proof fn lemma_level_flags(pieces: Seq<Seq<GlyphView>>, movements: Seq<Movement>, n: nat)
    requires
        are_pieces(pieces),
        pieces.flatten().len() <= usize::MAX,
        n <= pieces.len(),
        forall|k: int|
            0 <= k < pieces.len() ==> !starts_with(#[trigger] pieces[k], right_to_left())
                && !starts_with(pieces[k], set![BidiClass::AN]),
    ensures
        ({
            let scanned = scan(cold_start(), pieces.flatten(), movements, n);
            &&& scanned.flags.len() == n
            &&& scanned.carry.cur_bidi == 0 && scanned.carry.last_bidi == 0
            &&& forall|k: int| 0 <= k < n ==> (#[trigger] scanned.flags[k]).bidi == 0
        }),
    decreases n,
{
    if n > 0 {
        lemma_level_flags(pieces, movements, (n - 1) as nat);
        lemma_first_glyph(pieces, n - 1);
        let piece = pieces[n - 1];
        assert(!starts_with(piece, right_to_left()) && !starts_with(piece, set![BidiClass::AN]));
        if piece[0].text.len() > 0 {
            law_levels(unicode_class(piece[0].text[0]), 0);
        }
    }
}

/// Text stays as it is where the pen goes back to every piece by about the piece's own width,
/// where every piece lies on a line of its own, and where the place of no piece is known.
pub proof fn law_text_that_shows_no_visual_order_stays(
    carry: PenContinuity,
    pieces: Seq<Seq<GlyphView>>,
    movements: Seq<Movement>,
)
    requires
        are_pieces(pieces),
        pieces.flatten().len() <= usize::MAX,
        forall|k: int|
            0 <= k < pieces.len() ==> (#[trigger] pieces[k])[0].pen is None || !not_back(
                movements[k],
            ) || !on_one_line(movements[k]),
    ensures
        !is_reversed(carry, pieces.flatten(), movements),
        reordered(carry, pieces.flatten(), movements) == pieces.flatten(),
{
    law_units_are_pieces(pieces);
    lemma_unsignalled(carry, pieces, movements, pieces.len());
    let flags = scan(carry, pieces.flatten(), movements, pieces.len()).flags;
    lemma_unsignalled_order(flags, 0);
    lemma_identity_order(pieces);
}

proof fn lemma_unsignalled(
    carry: PenContinuity,
    pieces: Seq<Seq<GlyphView>>,
    movements: Seq<Movement>,
    n: nat,
)
    requires
        are_pieces(pieces),
        pieces.flatten().len() <= usize::MAX,
        n <= pieces.len(),
        forall|k: int|
            0 <= k < pieces.len() ==> (#[trigger] pieces[k])[0].pen is None || !not_back(
                movements[k],
            ) || !on_one_line(movements[k]),
    ensures
        scan(carry, pieces.flatten(), movements, n).flags.len() == n,
        forall|k: int|
            0 <= k < n ==> !(#[trigger] scan(
                carry,
                pieces.flatten(),
                movements,
                n,
            ).flags[k]).signal,
    decreases n,
{
    if n > 0 {
        lemma_unsignalled(carry, pieces, movements, (n - 1) as nat);
        lemma_first_glyph(pieces, n - 1);
        assert(pieces[n - 1][0].pen is None || !not_back(movements[n - 1]) || !on_one_line(
            movements[n - 1],
        ));
    }
}

proof fn lemma_unsignalled_order(flags: Seq<UnitFlags>, i: int)
    requires
        0 <= i <= flags.len(),
        forall|k: int| 0 <= k < flags.len() ==> !(#[trigger] flags[k]).signal,
    ensures
        order_from(flags, i) == run_order(i, flags.len() as int, false),
        !any_visual(flags, i),
    decreases flags.len() - i,
{
    if i < flags.len() {
        if flags[i].bidi == 1 {
            lemma_run_end(flags, i);
            lemma_unsignalled_order(flags, run_end(flags, i));
        } else {
            lemma_unsignalled_order(flags, i + 1);
        }
    }
    assert(order_from(flags, i) =~= run_order(i, flags.len() as int, false));
}

/// Whatever the pen does, the pieces come out once each, and whole.
pub proof fn law_pieces_come_out_once(
    carry: PenContinuity,
    pieces: Seq<Seq<GlyphView>>,
    movements: Seq<Movement>,
) -> (order: Seq<int>)
    requires
        are_pieces(pieces),
        pieces.flatten().len() <= usize::MAX,
    ensures
        order.len() == pieces.len(),
        order.no_duplicates(),
        forall|k: int| 0 <= k < order.len() ==> 0 <= #[trigger] order[k] < pieces.len(),
        reordered(carry, pieces.flatten(), movements) == order.map_values(
            |k: int| pieces[k],
        ).flatten(),
{
    let flags = scan(carry, pieces.flatten(), movements, pieces.len()).flags;
    law_units_are_pieces(pieces);
    lemma_flags_len(carry, pieces.flatten(), movements, pieces.len());
    law_every_unit_stands_once(flags);
    let order = order_from(flags, 0);
    assert forall|k: int| 0 <= k < order.len() implies 0 <= #[trigger] order[k]
        < pieces.len() by {
        lemma_order_range(flags, 0, k);
    }
    law_arranged_pieces(pieces, order);
    order
}

proof fn lemma_order_range(flags: Seq<UnitFlags>, i: int, k: int)
    requires
        0 <= i <= flags.len(),
        0 <= k < order_from(flags, i).len(),
    ensures
        i <= order_from(flags, i)[k] < flags.len(),
    decreases flags.len() - i,
{
    if i < flags.len() {
        if flags[i].bidi == 1 {
            lemma_run_end(flags, i);
            let end = run_end(flags, i);
            if k >= end - i {
                lemma_order_range(flags, end, k - (end - i));
            }
        } else if k > 0 {
            lemma_order_range(flags, i + 1, k - 1);
        }
    }
}

proof fn lemma_flags_len(
    carry: PenContinuity,
    glyphs: Seq<GlyphView>,
    movements: Seq<Movement>,
    n: nat,
)
    ensures
        scan(carry, glyphs, movements, n).flags.len() == n,
    decreases n,
{
    if n > 0 {
        lemma_flags_len(carry, glyphs, movements, (n - 1) as nat);
    }
}

/// What a run leaves to the next is told by its last piece: where it began and ended, and its
/// direction.
pub proof fn law_last_piece_is_carried_on(
    carry: PenContinuity,
    pieces: Seq<Seq<GlyphView>>,
    movements: Seq<Movement>,
)
    requires
        are_pieces(pieces),
        pieces.flatten().len() <= usize::MAX,
        pieces.len() > 0,
    ensures
        ({
            let left = scan(carry, pieces.flatten(), movements, pieces.len()).carry;
            let last = pieces.last()[0];
            &&& last.pen is None ==> left.lag_pen is None && left.pen_end is None
            &&& last.pen is Some ==> left.lag_pen == last.pen && left.pen_end == Some(
                movements[pieces.len() - 1].end,
            )
            &&& last.pen is Some && starts_with(pieces.last(), right_to_left()) ==> left.cur_bidi
                == 1 && left.last_bidi == 1
            &&& last.pen is Some && starts_with(pieces.last(), left_to_right()) ==> left.cur_bidi
                == 0 && left.last_bidi == 0
        }),
{
    law_units_are_pieces(pieces);
    lemma_first_glyph(pieces, pieces.len() - 1);
    if pieces.last()[0].text.len() > 0 {
        law_levels(
            unicode_class(pieces.last()[0].text[0]),
            scan(carry, pieces.flatten(), movements, (pieces.len() - 1) as nat).carry.cur_bidi,
        );
    }
}

/// A run goes on from the one before it: a right-to-left piece at the start of a line is found in
/// visual order by what the run before left.
pub proof fn law_runs_go_on_across_calls(
    carry: PenContinuity,
    pieces: Seq<Seq<GlyphView>>,
    movements: Seq<Movement>,
)
    requires
        are_pieces(pieces),
        pieces.flatten().len() <= usize::MAX,
        pieces.len() == 2,
        carry.last_bidi == 1,
        carry.lag_pen is Some,
        carry.pen_end is Some,
        starts_with(pieces[0], right_to_left()),
        starts_with(pieces[1], right_to_left()),
        pieces[0][0].pen is Some,
        pieces[1][0].pen is Some,
        goes_on(movements[0]),
        on_one_line(movements[1]),
        !not_back(movements[1]),
    ensures
        is_reversed(carry, pieces.flatten(), movements),
        reordered(carry, pieces.flatten(), movements) == pieces.reverse().flatten(),
{
    law_units_are_pieces(pieces);
    lemma_first_glyph(pieces, 0);
    lemma_first_glyph(pieces, 1);
    reveal_with_fuel(scan, 3);
    let flags = scan(carry, pieces.flatten(), movements, 2).flags;
    assert(flags.len() == 2);
    assert(flags[0].signal && flags[0].bidi == 1 && flags[1].bidi == 1 && !flags[1].run_break);
    lemma_run_to(flags, 0, 2);
    assert(is_visual(flags, 0, 2));
    assert(order_from(flags, 2) =~= Seq::<int>::empty());
    let order = order_from(flags, 0);
    assert(order =~= seq![1int, 0int]);
    law_arranged_pieces(pieces, order);
    assert(order.map_values(|k: int| pieces[k]) =~= pieces.reverse());
}

/// Nothing is known before the first glyph.
pub proof fn law_cold_start()
    ensures
        cold_start().cur_bidi == 0,
        cold_start().last_bidi == 0,
        cold_start().lag_pen is None,
        cold_start().pen_end is None,
{
}

/// A font size leaves nothing to measure by exactly where it is a number and not above 0.
pub proof fn law_degenerate_sizes(font_size: u32)
    ensures
        0 < font_size <= 0x7F80_0000 ==> !is_degenerate(font_size),
        font_size == 0 || 0x8000_0000 <= font_size <= 0xFF80_0000 ==> is_degenerate(font_size),
        0x7F80_0000 < font_size < 0x8000_0000 || font_size > 0xFF80_0000 ==> !is_degenerate(
            font_size,
        ),
{
}

/// The direction of a unit, 1 for right to left: that of its first character, or the one before it
/// where the character is neutral or missing.
pub open spec fn direction_of(piece: Seq<GlyphView>, before: u8) -> u8 {
    if starts_with(piece, right_to_left()) || starts_with(piece, set![BidiClass::AN]) {
        1
    } else if is_neutral(piece) {
        before
    } else {
        0
    }
}

/// Each unit is judged by its first character, by the way the pen moved to it, and by the unit
/// before it. A unit at no known place has the direction of the unit before it and shows nothing.
/// Any other has its own direction; it shows visual order where it is right to left like the unit
/// before it and the pen goes on to it; and a line starts at it where the baseline moves, or where
/// it is right to left like the unit before it and the pen goes to a place where none of its line
/// is expected: not back by its width, not on, not back by somewhat more, and not over the end of
/// the unit before.
pub proof fn law_units_are_judged(
    carry: PenContinuity,
    pieces: Seq<Seq<GlyphView>>,
    movements: Seq<Movement>,
    k: int,
)
    requires
        are_pieces(pieces),
        pieces.flatten().len() <= usize::MAX,
        0 <= k < pieces.len(),
        carry.cur_bidi <= 1,
    ensures
        ({
            let before = scan(carry, pieces.flatten(), movements, k as nat).carry;
            let after = scan(carry, pieces.flatten(), movements, (k + 1) as nat).carry;
            let flags = scan(carry, pieces.flatten(), movements, pieces.len()).flags[k];
            let m = movements[k];
            let pen = pieces[k][0].pen;
            let known = before.lag_pen is Some && before.pen_end is Some;
            let own = direction_of(pieces[k], before.cur_bidi);
            let back_further = is_less(m.logical_spacing, 0) && is_less(
                0xBF4C_CCCD,
                m.logical_spacing,
            );
            let over = is_less(m.spacing, 0) && is_less(0xBF4C_CCCD, m.spacing);
            &&& before.cur_bidi <= 1
            &&& pen is None ==> flags.bidi == before.last_bidi && !flags.signal && !flags.run_break
                && after.cur_bidi == before.cur_bidi && after.last_bidi == before.last_bidi
                && after.lag_pen is None && after.pen_end is None
            &&& pen is Some ==> flags.bidi == own && after.cur_bidi == own && after.last_bidi == own
                && after.lag_pen == pen && after.pen_end == Some(m.end)
            &&& pen is Some ==> (flags.signal <==> known && own == 1 && before.last_bidi == 1
                && goes_on(m))
            &&& pen is Some ==> (flags.run_break <==> known && (!on_one_line(m) || (own == 1
                && before.last_bidi == 1 && not_back(m) && !goes_on(m) && !back_further && !over)))
        }),
{
    law_units_are_pieces(pieces);
    lemma_first_glyph(pieces, k);
    lemma_flags_len(carry, pieces.flatten(), movements, k as nat);
    lemma_levels_stay(carry, pieces.flatten(), movements, k as nat);
    lemma_flags_stay(carry, pieces.flatten(), movements, k, pieces.len());
    let before = scan(carry, pieces.flatten(), movements, k as nat).carry;
    if pieces[k][0].text.len() > 0 {
        law_levels(unicode_class(pieces[k][0].text[0]), before.cur_bidi);
    }
}

proof fn lemma_levels_stay(
    carry: PenContinuity,
    glyphs: Seq<GlyphView>,
    movements: Seq<Movement>,
    n: nat,
)
    requires
        carry.cur_bidi <= 1,
    ensures
        scan(carry, glyphs, movements, n).carry.cur_bidi <= 1,
    decreases n,
{
    if n > 0 {
        lemma_levels_stay(carry, glyphs, movements, (n - 1) as nat);
    }
}

proof fn lemma_flags_stay(
    carry: PenContinuity,
    glyphs: Seq<GlyphView>,
    movements: Seq<Movement>,
    k: int,
    n: nat,
)
    requires
        0 <= k < n,
    ensures
        scan(carry, glyphs, movements, n).flags.len() == n,
        scan(carry, glyphs, movements, n).flags[k] == scan(
            carry,
            glyphs,
            movements,
            (k + 1) as nat,
        ).flags[k],
    decreases n,
{
    lemma_flags_len(carry, glyphs, movements, n);
    lemma_flags_len(carry, glyphs, movements, (n - 1) as nat);
    if k < n - 1 {
        lemma_flags_stay(carry, glyphs, movements, k, (n - 1) as nat);
    }
}

/// Whether units from `i` up to `j` are a run as a whole: all right to left, with no line that
/// starts within, and not part of a longer one.
pub open spec fn is_run(flags: Seq<UnitFlags>, i: int, j: int) -> bool {
    &&& 0 <= i < j <= flags.len()
    &&& forall|k: int| i <= k < j ==> (#[trigger] flags[k]).bidi == 1
    &&& forall|k: int| i < k < j ==> !(#[trigger] flags[k]).run_break
    &&& i == 0 || flags[i - 1].bidi != 1 || flags[i].run_break
    &&& j == flags.len() || flags[j].bidi != 1 || flags[j].run_break
}

/// Whether one of the units from `i` up to `j` shows visual order.
pub open spec fn shows_visual_order(flags: Seq<UnitFlags>, i: int, j: int) -> bool {
    exists|k: int| i <= k < j && (#[trigger] flags[k]).signal
}

/// A run of two units or more of which one shows visual order is turned round as a whole; every
/// other unit keeps its place.
pub proof fn law_runs_are_turned_round(flags: Seq<UnitFlags>, i: int, j: int, k: int)
    requires
        is_run(flags, i, j),
        i <= k < j,
    ensures
        order_from(flags, 0).len() == flags.len(),
        j - i > 1 && shows_visual_order(flags, i, j) ==> order_from(flags, 0)[k] == i + j - 1 - k
            && any_visual(flags, 0),
        j - i == 1 || !shows_visual_order(flags, i, j) ==> order_from(flags, 0)[k] == k,
{
    law_every_unit_stands_once(flags);
    lemma_run_order(flags, 0, i, j, k);
}

/// A unit that is not right to left keeps its place.
pub proof fn law_other_units_keep_their_place(flags: Seq<UnitFlags>, k: int)
    requires
        0 <= k < flags.len(),
        flags[k].bidi != 1,
    ensures
        order_from(flags, 0).len() == flags.len(),
        order_from(flags, 0)[k] == k,
{
    law_every_unit_stands_once(flags);
    lemma_other_order(flags, 0, k);
}

/// Where a run is found in visual order, there is one.
pub proof fn law_reversal_needs_a_run(flags: Seq<UnitFlags>)
    requires
        any_visual(flags, 0),
    ensures
        exists|i: int, j: int| #[trigger]
            is_run(flags, i, j) && j - i > 1 && shows_visual_order(flags, i, j),
{
    lemma_some_run(flags, 0);
}

/// Whether a run may start at a unit.
pub open spec fn is_boundary(flags: Seq<UnitFlags>, s: int) -> bool {
    s == 0 || s == flags.len() || flags[s - 1].bidi != 1 || flags[s].bidi != 1
        || flags[s].run_break
}

proof fn lemma_run_stops(flags: Seq<UnitFlags>, s: int)
    requires
        0 <= s < flags.len(),
        flags[s].bidi == 1,
    ensures
        ({
            let end = run_end(flags, s);
            &&& s < end <= flags.len()
            &&& is_boundary(flags, end)
            &&& end < flags.len() ==> flags[end].bidi != 1 || flags[end].run_break
            &&& forall|k: int| s <= k < end ==> (#[trigger] flags[k]).bidi == 1
            &&& forall|k: int| s < k < end ==> !(#[trigger] flags[k]).run_break
        }),
    decreases flags.len() - s,
{
    if s < flags.len() - 1 && flags[s + 1].bidi == 1 && !flags[s + 1].run_break {
        lemma_run_stops(flags, s + 1);
    }
}

proof fn lemma_run_order(flags: Seq<UnitFlags>, s: int, i: int, j: int, k: int)
    requires
        is_run(flags, i, j),
        i <= k < j,
        0 <= s <= i,
        is_boundary(flags, s),
    ensures
        k - s < order_from(flags, s).len(),
        j - i > 1 && shows_visual_order(flags, i, j) ==> order_from(flags, s)[k - s] == i + j - 1
            - k && any_visual(flags, s),
        j - i == 1 || !shows_visual_order(flags, i, j) ==> order_from(flags, s)[k - s] == k,
    decreases i - s,
{
    if s == i {
        assert(flags[i].bidi == 1);
        lemma_run_to(flags, i, j);
        if shows_visual_order(flags, i, j) {
            let w = choose|w: int| i <= w < j && (#[trigger] flags[w]).signal;
            assert(j - i > 1 ==> is_visual(flags, i, j));
        }
        if is_visual(flags, i, j) {
            let w = choose|w: int| i <= w < j && (#[trigger] flags[w]).signal;
            assert(shows_visual_order(flags, i, j));
        }
        lemma_run_end(flags, i);
    } else if flags[s].bidi == 1 {
        lemma_run_stops(flags, s);
        let end = run_end(flags, s);
        assert(end <= i) by {
            if end > i {
                assert(flags[i - 1].bidi == 1);
                assert(!flags[i].run_break);
            }
        }
        lemma_run_order(flags, end, i, j, k);
    } else {
        assert(is_boundary(flags, s + 1));
        lemma_run_order(flags, s + 1, i, j, k);
    }
}

proof fn lemma_other_order(flags: Seq<UnitFlags>, s: int, k: int)
    requires
        0 <= s <= k < flags.len(),
        flags[k].bidi != 1,
    ensures
        k - s < order_from(flags, s).len(),
        order_from(flags, s)[k - s] == k,
    decreases k - s,
{
    if flags[s].bidi == 1 {
        lemma_run_stops(flags, s);
        let end = run_end(flags, s);
        assert(end <= k) by {
            if end > k {
                assert(flags[k].bidi == 1);
            }
        }
        lemma_other_order(flags, end, k);
    } else if s < k {
        lemma_other_order(flags, s + 1, k);
    }
}

proof fn lemma_some_run(flags: Seq<UnitFlags>, s: int)
    requires
        0 <= s <= flags.len(),
        is_boundary(flags, s),
        any_visual(flags, s),
    ensures
        exists|i: int, j: int| #[trigger]
            is_run(flags, i, j) && j - i > 1 && shows_visual_order(flags, i, j),
    decreases flags.len() - s,
{
    if s < flags.len() {
        if flags[s].bidi == 1 {
            lemma_run_stops(flags, s);
            let end = run_end(flags, s);
            if is_visual(flags, s, end) {
                let w = choose|w: int| s <= w < end && (#[trigger] flags[w]).signal;
                assert(shows_visual_order(flags, s, end));
                assert(is_run(flags, s, end));
            } else {
                lemma_some_run(flags, end);
            }
        } else {
            assert(is_boundary(flags, s + 1));
            lemma_some_run(flags, s + 1);
        }
    }
}

}
