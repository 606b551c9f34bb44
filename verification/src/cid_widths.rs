//! The `/W` array of a composite font: which character ids it gives which widths.

use crate::number::{as_u16, to_u16};
use crate::object::{array_of, resolve_array, Document, Object, ObjectId};
use std::collections::HashMap;
use vstd::prelude::*;

verus! {

broadcast use vstd::std_specs::hash::group_hash_axioms;

/// How many widths one `/W` array may assign.
pub const MAX_CID_W_EXPANSION: usize = 65_536;

/// An object's value as a width or a character id: the low bits of an integer, the whole part
/// of a real.
pub open spec fn width_number(object: Object) -> Option<u16> {
    match object {
        Object::Integer(n) => Some(n as u16),
        Object::Real(bits) => Some(as_u16(bits)),
        _ => None,
    }
}

/// A map with some assignments made in their order.
pub open spec fn applied(widths: Map<u16, u16>, pairs: Seq<(u16, u16)>) -> Map<u16, u16>
    decreases pairs.len(),
{
    if pairs.len() == 0 {
        widths
    } else {
        applied(widths, pairs.drop_last()).insert(pairs.last().0, pairs.last().1)
    }
}

/// `[c [w1 w2 ...]]`: the widths go to `c` and the ids after it; what is no number is passed
/// over.
pub open spec fn listed(first: u16, items: Seq<Object>) -> Seq<(u16, u16)>
    decreases items.len(),
{
    if items.len() == 0 {
        Seq::empty()
    } else {
        let front = listed(first, items.drop_last());
        match width_number(items.last()) {
            Some(w) => front.push((((first + items.len() - 1) % 0x1_0000) as u16, w)),
            None => front,
        }
    }
}

/// `[c_first c_last w]`: one width for all ids of a range.
pub open spec fn ranged(start: u16, end: u16, w: u16) -> Seq<(u16, u16)> {
    if start > end {
        Seq::empty()
    } else {
        Seq::new((end - start + 1) as nat, |i: int| ((start + i) as u16, w))
    }
}

/// The assignments that a `/W` array stands for.
pub open spec fn assignments(doc: Map<ObjectId, Object>, items: Seq<Object>) -> Seq<(u16, u16)>
    decreases items.len(),
{
    if items.len() == 0 {
        Seq::empty()
    } else {
        match width_number(items[0]) {
            Some(start) => if items.len() == 1 {
                Seq::empty()
            } else {
                match array_of(doc, items[1]) {
                    Some(list) => listed(start, list) + assignments(doc, items.skip(2)),
                    None => match width_number(items[1]) {
                        Some(end) => if items.len() == 2 {
                            Seq::empty()
                        } else {
                            match width_number(items[2]) {
                                Some(w) => ranged(start, end, w) + assignments(doc, items.skip(3)),
                                None => assignments(doc, items.skip(3)),
                            }
                        },
                        None => assignments(doc, items.skip(2)),
                    },
                }
            },
            None => assignments(doc, items.skip(1)),
        }
    }
}

/// The first of some assignments, as many as `room` holds.
pub open spec fn capped(pairs: Seq<(u16, u16)>, room: int) -> Seq<(u16, u16)> {
    if room <= 0 {
        Seq::empty()
    } else if pairs.len() <= room {
        pairs
    } else {
        pairs.take(room)
    }
}

/// How many assignments are left after `assigned` of them.
pub open spec fn room_after(assigned: usize) -> int {
    MAX_CID_W_EXPANSION - assigned
}

/// Assignments one after another are made one after another.
pub proof fn lemma_applied_concat(widths: Map<u16, u16>, a: Seq<(u16, u16)>, b: Seq<(u16, u16)>)
    ensures
        applied(widths, a + b) == applied(applied(widths, a), b),
    decreases b.len(),
{
    if b.len() == 0 {
        assert(a + b == a);
    } else {
        assert((a + b).drop_last() == a + b.drop_last());
        lemma_applied_concat(widths, a, b.drop_last());
    }
}

/// Of several assignments to one id the last one counts.
pub proof fn law_last_assignment_wins(widths: Map<u16, u16>, pairs: Seq<(u16, u16)>, i: int)
    requires
        0 <= i < pairs.len(),
        forall|j: int| i < j < pairs.len() ==> (#[trigger] pairs[j]).0 != pairs[i].0,
    ensures
        applied(widths, pairs).contains_key(pairs[i].0),
        applied(widths, pairs)[pairs[i].0] == pairs[i].1,
    decreases pairs.len(),
{
    if i < pairs.len() - 1 {
        assert(pairs.last().0 != pairs[i].0);
        law_last_assignment_wins(widths, pairs.drop_last(), i);
    }
}

/// Ids that are not assigned keep what they had.
pub proof fn law_unassigned_ids_stay(widths: Map<u16, u16>, pairs: Seq<(u16, u16)>, cid: u16)
    requires
        forall|j: int| 0 <= j < pairs.len() ==> (#[trigger] pairs[j]).0 != cid,
    ensures
        applied(widths, pairs).contains_key(cid) == widths.contains_key(cid),
        applied(widths, pairs)[cid] == widths[cid],
    decreases pairs.len(),
{
    if pairs.len() > 0 {
        assert(pairs.last().0 != cid);
        law_unassigned_ids_stay(widths, pairs.drop_last(), cid);
    }
}

/// However often a `/W` array repeats itself, it fills no more entries than its limit.
pub proof fn law_expansion_is_bounded(doc: Map<ObjectId, Object>, items: Seq<Object>)
    ensures
        capped(assignments(doc, items), MAX_CID_W_EXPANSION as int).len() <= MAX_CID_W_EXPANSION,
        applied(
            Map::empty(),
            capped(assignments(doc, items), MAX_CID_W_EXPANSION as int),
        ).dom().finite(),
        applied(Map::empty(), capped(assignments(doc, items), MAX_CID_W_EXPANSION as int)).len()
            <= MAX_CID_W_EXPANSION,
{
    lemma_applied_size(capped(assignments(doc, items), MAX_CID_W_EXPANSION as int));
}

proof fn lemma_applied_size(pairs: Seq<(u16, u16)>)
    ensures
        applied(Map::empty(), pairs).dom().finite(),
        applied(Map::empty(), pairs).len() <= pairs.len(),
    decreases pairs.len(),
{
    if pairs.len() > 0 {
        lemma_applied_size(pairs.drop_last());
    }
}

/// An object's value as a width.
pub(crate) fn number_width(object: &Object) -> (w: Option<u16>)
    ensures
        w == width_number(*object),
{
    match object {
        Object::Integer(n) => Some(*n as u16),
        Object::Real(bits) => Some(to_u16(*bits)),
        _ => None,
    }
}

/// Gives a width to an id, unless the object is no number; false where no assignment is left.
pub fn assign_cid_width(
    widths: &mut HashMap<u16, u16>,
    cid: u16,
    w_obj: &Object,
    assigned: &mut usize,
) -> (r: bool)
    ensures
        match width_number(*w_obj) {
            Some(w) => {
                &&& final(widths)@ == applied(
                    old(widths)@,
                    capped(seq![(cid, w)], room_after(*old(assigned))),
                )
                &&& *final(assigned) == *old(assigned) + capped(
                    seq![(cid, w)],
                    room_after(*old(assigned)),
                ).len()
                &&& r == (room_after(*old(assigned)) > 0)
            },
            None => final(widths)@ == old(widths)@ && *final(assigned) == *old(assigned) && r,
        },
{
    let w = match number_width(w_obj) {
        Some(w) => w,
        None => return true,
    };
    if *assigned >= MAX_CID_W_EXPANSION {
        return false;
    }
    let ghost before = widths@;
    widths.insert(cid, w);
    *assigned = *assigned + 1;
    proof {
        let one = seq![(cid, w)];
        assert(one.drop_last() == Seq::<(u16, u16)>::empty());
        assert(applied(before, one.drop_last()) == before);
    }
    true
}

/// Gives one width to all ids of a range; false where no assignment is left before its end.
pub fn assign_cid_width_range(
    widths: &mut HashMap<u16, u16>,
    start: u16,
    end: u16,
    w: u16,
    assigned: &mut usize,
) -> (r: bool)
    ensures
        final(widths)@ == applied(
            old(widths)@,
            capped(ranged(start, end, w), room_after(*old(assigned))),
        ),
        *final(assigned) == *old(assigned) + capped(
            ranged(start, end, w),
            room_after(*old(assigned)),
        ).len(),
        r == (ranged(start, end, w).len() <= room_after(*old(assigned)) || start > end),
{
    if start > end {
        return true;
    }
    let ghost all = ranged(start, end, w);
    let ghost before = widths@;
    let ghost room = room_after(*assigned);
    let mut cid = start;
    loop
        invariant
            start <= cid <= end,
            all == ranged(start, end, w),
            room == room_after(*old(assigned)),
            before == old(widths)@,
            cid - start <= room || room <= 0,
            room <= 0 ==> cid == start,
            *assigned == *old(assigned) + (cid - start),
            widths@ == applied(before, all.take(cid - start)),
        decreases end - cid,
    {
        assert(all.take(0) == Seq::<(u16, u16)>::empty());
        if *assigned >= MAX_CID_W_EXPANSION {
            return false;
        }
        let ghost done = all.take(cid - start);
        assert(all.take(cid - start + 1).drop_last() == done);
        assert(all.take(cid - start + 1).last() == (cid, w));
        widths.insert(cid, w);
        *assigned = *assigned + 1;
        if cid == end {
            assert(all.take(cid - start + 1) == all);
            return true;
        }
        cid = cid + 1;
    }
}

/// Gives the widths of a list to an id and those after it; false where no assignment is left
/// for one of them.
fn assign_cid_width_list(
    widths: &mut HashMap<u16, u16>,
    first: u16,
    items: &Vec<Object>,
    assigned: &mut usize,
) -> (r: bool)
    requires
        *old(assigned) <= MAX_CID_W_EXPANSION,
    ensures
        final(widths)@ == applied(
            old(widths)@,
            capped(listed(first, items@), room_after(*old(assigned))),
        ),
        *final(assigned) == *old(assigned) + capped(
            listed(first, items@),
            room_after(*old(assigned)),
        ).len(),
        r == (listed(first, items@).len() <= room_after(*old(assigned))),
{
    let ghost before = widths@;
    let ghost room = room_after(*assigned);
    for j in 0..items.len()
        invariant
            before == old(widths)@,
            room == room_after(*old(assigned)),
            room >= 0,
            listed(first, items@.take(j as int)).len() <= room,
            *assigned == *old(assigned) + listed(first, items@.take(j as int)).len(),
            widths@ == applied(before, listed(first, items@.take(j as int))),
    {
        let ghost done = listed(first, items@.take(j as int));
        let ghost next = listed(first, items@.take(j + 1));
        assert(items@.take(j + 1).drop_last() == items@.take(j as int));
        let cid = wrapped_code(first, j);
        let ghost at = *assigned;
        let more = assign_cid_width(widths, cid, &items[j], assigned);
        proof {
            match width_number(items@[j as int]) {
                Some(w) => {
                    assert(next == done.push((cid, w)));
                    if more {
                        let one = seq![(cid, w)];
                        assert(one.drop_last() == Seq::<(u16, u16)>::empty());
                        assert(applied(applied(before, done), one.drop_last()) == applied(
                            before,
                            done,
                        ));
                        assert(next.drop_last() == done);
                    } else {
                        lemma_listed_grows(first, items@, j + 1);
                        assert(capped(listed(first, items@), room) == done);
                    }
                },
                None => {
                    assert(next == done);
                },
            }
        }
        if !more {
            return false;
        }
    }
    assert(items@.take(items@.len() as int) == items@);
    true
}

/// The widths of a longer list start with those of a shorter one.
proof fn lemma_listed_grows(first: u16, items: Seq<Object>, n: int)
    requires
        0 <= n <= items.len(),
    ensures
        listed(first, items.take(n)).is_prefix_of(listed(first, items)),
    decreases items.len(),
{
    if n < items.len() {
        lemma_listed_grows(first, items.drop_last(), n);
        assert(items.drop_last().take(n) == items.take(n));
    } else {
        assert(items.take(n) == items);
    }
}

/// The code `i` places after `first`.
pub(crate) fn wrapped_code(first: u16, i: usize) -> (code: u16)
    ensures
        code == (first + i) % 0x1_0000,
{
    let low = (i % 0x1_0000) as u32;
    ((first as u32 + low) % 0x1_0000) as u16
}

/// Makes the assignments of a `/W` array.
pub fn parse_cid_w_array(doc: &Document, w_array: &[Object], widths: &mut HashMap<u16, u16>)
    ensures
        final(widths)@ == applied(
            old(widths)@,
            capped(assignments(doc@, w_array@), MAX_CID_W_EXPANSION as int),
        ),
{
    let ghost before = widths@;
    let ghost all = assignments(doc@, w_array@);
    let ghost mut done: Seq<(u16, u16)> = Seq::empty();
    let len = w_array.len();
    let mut i: usize = 0;
    let mut assigned: usize = 0;
    assert(w_array@.skip(0) == w_array@);
    assert(done + all == all);
    while i < len
        invariant
            before == old(widths)@,
            all == assignments(doc@, w_array@),
            len == w_array@.len(),
            i <= len,
            all == done + assignments(doc@, w_array@.skip(i as int)),
            assigned == done.len(),
            assigned <= MAX_CID_W_EXPANSION,
            widths@ == applied(before, done),
        decreases len - i,
    {
        if assigned >= MAX_CID_W_EXPANSION {
            assert(capped(all, MAX_CID_W_EXPANSION as int) == done);
            return;
        }
        let ghost items = w_array@.skip(i as int);
        assert(items.skip(1) == w_array@.skip(i + 1));
        assert(items[0] == w_array@[i as int]);
        let start_cid = match number_width(&w_array[i]) {
            Some(start_cid) => start_cid,
            None => {
                i += 1;
                continue;
            },
        };
        if i + 1 >= len {
            assert(all == done);
            i += 1;
            assert(assignments(doc@, w_array@.skip(i as int)) == Seq::<(u16, u16)>::empty());
            continue;
        }
        assert(items.skip(2) == w_array@.skip(i + 2));
        assert(items[1] == w_array@[i + 1]);
        match resolve_array(doc, &w_array[i + 1]) {
            Some(list) => {
                let ghost part = listed(start_cid, list@);
                let ghost rest = assignments(doc@, items.skip(2));
                let more = assign_cid_width_list(widths, start_cid, list, &mut assigned);
                proof {
                    lemma_step(before, done, part, rest);
                    done = done + capped(part, room_after(done.len() as usize));
                }
                if !more {
                    return;
                }
                assert(all == done + rest);
                i += 2;
            },
            None => match number_width(&w_array[i + 1]) {
                Some(end) => {
                    if i + 2 >= len {
                        assert(all == done);
                        i += 2;
                        assert(assignments(doc@, w_array@.skip(i as int)) == Seq::<
                            (u16, u16),
                        >::empty());
                        continue;
                    }
                    assert(items.skip(3) == w_array@.skip(i + 3));
                    assert(items[2] == w_array@[i + 2]);
                    match number_width(&w_array[i + 2]) {
                        Some(w) => {
                            let ghost part = ranged(start_cid, end, w);
                            let ghost rest = assignments(doc@, items.skip(3));
                            let more = assign_cid_width_range(
                                widths,
                                start_cid,
                                end,
                                w,
                                &mut assigned,
                            );
                            proof {
                                lemma_step(before, done, part, rest);
                                done = done + capped(part, room_after(done.len() as usize));
                            }
                            if !more {
                                return;
                            }
                            assert(all == done + rest);
                        },
                        None => {},
                    }
                    i += 3;
                },
                None => {
                    i += 2;
                },
            },
        }
    }
    assert(all == done);
    assert(capped(all, MAX_CID_W_EXPANSION as int) == done);
}

/// Making a part of the assignments, as many as there is room for.
proof fn lemma_step(
    before: Map<u16, u16>,
    done: Seq<(u16, u16)>,
    part: Seq<(u16, u16)>,
    rest: Seq<(u16, u16)>,
)
    requires
        done.len() <= MAX_CID_W_EXPANSION,
    ensures
        ({
            let room = room_after(done.len() as usize);
            let next = done + capped(part, room);
            &&& applied(before, next) == applied(applied(before, done), capped(part, room))
            &&& part.len() <= room ==> done + (part + rest) == next + rest
            &&& part.len() > room ==> capped(done + (part + rest), MAX_CID_W_EXPANSION as int)
                == next
        }),
{
    let room = room_after(done.len() as usize);
    lemma_applied_concat(before, done, capped(part, room));
    if part.len() <= room {
        assert(capped(part, room) == part);
        assert(done + (part + rest) =~= (done + part) + rest);
    } else {
        assert(capped(done + (part + rest), MAX_CID_W_EXPANSION as int) =~= done + capped(
            part,
            room,
        ));
    }
}

}
