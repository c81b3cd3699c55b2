//! Re-arranging the items of a panel. The rectangles belong to the places
//! of the panel, not to the items: when items change places, each place
//! keeps its rectangle and the item that lands there takes it.
use vstd::prelude::*;
use crate::related_struct::Position;
use crate::self_trait::{DragItem, IntoContent, PosItem};

verus! {

pub open spec fn min_index(i: int, len: int) -> int {
    if i < len - 1 {
        i
    } else {
        len - 1
    }
}

/// The place whose rectangle place `i` receives when the rectangles from
/// `beg` to `end` move one place towards `beg`.
pub open spec fn shift_source(i: int, beg: int, end: int) -> int {
    if beg < i && i <= end {
        i - 1
    } else if end <= i && i < beg {
        i + 1
    } else {
        i
    }
}

/// The items of `s` after the rectangles from `beg` to `end` moved one
/// place towards `end`'s side, as `shift_one_pos` does.
pub open spec fn shifted<T: PosItem>(s: Seq<T>, beg: int, end: int) -> Seq<T> {
    Seq::new(s.len(), |i: int| s[i].with_rect(s[shift_source(i, beg, end)].rect_of()))
}

/// The items of `s` with the item at `idx` taken out; every remaining item
/// takes the rectangle of the place it lands on.
pub open spec fn removed<T: PosItem>(s: Seq<T>, idx: int) -> Seq<T> {
    Seq::new(
        (s.len() - 1) as nat,
        |j: int|
            if j < idx {
                s[j]
            } else {
                s[j + 1].with_rect(s[j].rect_of())
            },
    )
}

/// Where the item at place `j` comes from when the item at `from` moves to
/// `to` and the items between close up.
pub open spec fn move_source(j: int, from: int, to: int) -> int {
    if j == to {
        from
    } else if from < to && from <= j && j < to {
        j + 1
    } else if to < from && to < j && j <= from {
        j - 1
    } else {
        j
    }
}

/// The items of `s` after the item at `from` moved to `to`; every item
/// takes the rectangle of the place it lands on.
pub open spec fn moved<T: PosItem>(s: Seq<T>, from: int, to: int) -> Seq<T> {
    Seq::new(s.len(), |j: int| s[move_source(j, from, to)].with_rect(s[j].rect_of()))
}

/// Moves the rectangles of the items from `beg` to `end` one place towards
/// `beg` (both indexes are first brought within the vector), and returns
/// the rectangle that was at `end`.
pub fn shift_one_pos<T: PosItem>(vec: &mut Vec<T>, beg_idx: usize, end_idx: usize) -> (r: T::Rect)
    requires
        old(vec)@.len() > 0,
    ensures
        ({
            let len = old(vec)@.len() as int;
            let b = min_index(beg_idx as int, len);
            let e = min_index(end_idx as int, len);
            &&& final(vec)@ == shifted(old(vec)@, b, e)
            &&& r == old(vec)@[e].rect_of()
        }),
{
    let ghost orig = vec@;
    let len = vec.len();
    let beg = if beg_idx < len - 1 {
        beg_idx
    } else {
        len - 1
    };
    let end = if end_idx < len - 1 {
        end_idx
    } else {
        len - 1
    };
    let res = vec[end].item_rect();
    if beg < end {
        let mut i = end;
        while i > beg
            invariant
                beg < end < len,
                beg <= i <= end,
                len == orig.len(),
                vec@.len() == len,
                forall|j: int|
                    0 <= j < len ==> #[trigger] vec@[j] == (if i < j && j <= end {
                        orig[j].with_rect(orig[j - 1].rect_of())
                    } else {
                        orig[j]
                    }),
            decreases i,
        {
            let rect = vec[i - 1].item_rect();
            vec[i].update_item_rect(rect);
            i = i - 1;
        }
    } else if beg > end {
        let mut i = end;
        while i < beg
            invariant
                end < beg < len,
                end <= i <= beg,
                len == orig.len(),
                vec@.len() == len,
                forall|j: int|
                    0 <= j < len ==> #[trigger] vec@[j] == (if end <= j && j < i {
                        orig[j].with_rect(orig[j + 1].rect_of())
                    } else {
                        orig[j]
                    }),
            decreases beg - i,
        {
            let rect = vec[i + 1].item_rect();
            vec[i].update_item_rect(rect);
            i = i + 1;
        }
    }
    proof {
        let b = beg as int;
        let e = end as int;
        assert forall|j: int| 0 <= j < len implies #[trigger] vec@[j] == shifted(orig, b, e)[j] by {
            if shift_source(j, b, e) == j {
                T::lemma_with_rect(orig[j], orig[j].rect_of(), orig[j].rect_of());
            }
        }
        assert(vec@ == shifted(orig, b, e));
    }
    res
}

/// Like `shift_one_pos`, and the item at `beg` takes the rectangle that
/// was at `end`.
pub fn rotate_one_pos<T: PosItem>(vec: &mut Vec<T>, beg_idx: usize, end_idx: usize)
    requires
        beg_idx < old(vec)@.len(),
    ensures
        ({
            let len = old(vec)@.len() as int;
            let e = min_index(end_idx as int, len);
            let s = shifted(old(vec)@, beg_idx as int, e);
            final(vec)@ == s.update(beg_idx as int, s[beg_idx as int].with_rect(old(vec)@[e].rect_of()))
        }),
{
    let end_rect = shift_one_pos(vec, beg_idx, end_idx);
    vec[beg_idx].update_item_rect(end_rect);
}

/// Takes the item at `remove_idx` out of `vec`; the items after it move up
/// one place each and take the rectangles of their new places.
pub fn vec_remove_item<T: PosItem>(vec: &mut Vec<T>, remove_idx: usize) -> (r: T)
    requires
        remove_idx < old(vec)@.len(),
    ensures
        r == old(vec)@[remove_idx as int],
        final(vec)@ == removed(old(vec)@, remove_idx as int),
{
    let ghost orig = vec@;
    let len = vec.len();
    shift_one_pos(vec, remove_idx, len - 1);
    proof {
        T::lemma_with_rect(orig[remove_idx as int], orig[remove_idx as int].rect_of(), orig[remove_idx as int].rect_of());
    }
    let r = vec.remove(remove_idx);
    proof {
        let i = remove_idx as int;
        assert(min_index(i, len as int) == i);
        assert(min_index(len - 1, len as int) == len - 1);
        assert forall|j: int| 0 <= j < len - 1 implies #[trigger] vec@[j] == removed(orig, i)[j] by {
            if j < i {
                T::lemma_with_rect(orig[j], orig[j].rect_of(), orig[j].rect_of());
                assert(shift_source(j, i, len - 1) == j);
            } else {
                assert(shift_source(j + 1, i, len - 1) == j);
            }
        }
        assert(vec@ =~= removed(orig, i));
    }
    r
}

/// The place and relation that a drop is carried out with: a place past the
/// end means after the last item; before the next item or after the previous
/// one means between the same two items; a merge with an item that does not
/// merge means before or after it.
pub open spec fn drop_target<T: IntoContent>(
    s: Seq<T>,
    drag: int,
    target: int,
    position: Position,
) -> (int, Position) {
    let len = s.len() as int;
    let (t1, p1) = if target >= len {
        (len - 1, Position::Behind)
    } else {
        (target, position)
    };
    let (t2, p2) = if p1 == Position::Before && drag < t1 {
        (t1 - 1, Position::Behind)
    } else {
        (t1, p1)
    };
    let (t3, p3) = if p2 == Position::Behind && drag > t2 {
        (t2 + 1, Position::Before)
    } else {
        (t2, p2)
    };
    let p4 = if p3 == Position::Middle && !s[drag].merge_able_spec(&s[t3]) {
        if drag > t3 {
            Position::Behind
        } else {
            Position::Before
        }
    } else {
        p3
    };
    (t3, p4)
}

/// `after` (with the result `r`) is `s` once the item at `d` is dropped at
/// `target` in relation `position`: moved there, or merged into the item
/// there with `help`, the result then naming the two items that no longer
/// exist on their own (the dragged one and the target).
pub open spec fn dropped<T: DragItem + IntoContent>(
    s: Seq<T>,
    d: int,
    target: int,
    position: Position,
    help: &T::MergeUsed,
    r: Option<(egui::Id, egui::Id)>,
    after: Seq<T>,
) -> bool {
    let (t, p) = drop_target(s, d, target, position);
    let tt = if t > d {
        t - 1
    } else {
        t
    };
    let rm = removed(s, d);
    &&& t == d ==> r is None && after == s
    &&& t != d && p != Position::Middle ==> r is None && after == moved(s, d, t)
    &&& t != d && p == Position::Middle ==> r == Some((s[d].id_of(), rm[tt].id_of())) && after
        == rm.update(tt, after[tt]) && rm[tt].merge_result(&s[d], help, &after[tt])
}

/// Drops the item at `drag_idx` at `target_idx` in relation `position`:
/// moves it there (the result is `None`), or merges it into the item there
/// (the result is the two identifiers that no longer exist on their own:
/// the dragged item's and the target's).
pub fn vec_process_with_id_output<T: DragItem + IntoContent>(
    vec: &mut Vec<T>,
    drag_idx: usize,
    target_idx: usize,
    position: Position,
    merge_used: &T::MergeUsed,
) -> (r: Option<(egui::Id, egui::Id)>)
    requires
        drag_idx < old(vec)@.len(),
    ensures
        dropped(old(vec)@, drag_idx as int, target_idx as int, position, merge_used, r, final(vec)@),
{
    let ghost s = vec@;
    let ghost target0 = target_idx as int;
    let ghost position0 = position;
    let len = vec.len();
    let mut target_idx = target_idx;
    let mut position = position;
    if target_idx >= len {
        target_idx = len - 1;
        position = Position::Behind;
    }
    if position == Position::Before && drag_idx < target_idx {
        target_idx = target_idx - 1;
        position = Position::Behind;
    }
    if position == Position::Behind && drag_idx > target_idx {
        target_idx = target_idx + 1;
        position = Position::Before;
    }
    if position == Position::Middle && !vec[drag_idx].merge_able(&vec[target_idx]) {
        if drag_idx > target_idx {
            position = Position::Behind;
        } else {
            position = Position::Before;
        }
    }
    assert((target_idx as int, position) == drop_target(s, drag_idx as int, target0, position0));
    if drag_idx == target_idx {
        return None;
    }
    let ghost d = drag_idx as int;
    let ghost t = target_idx as int;
    match position {
        Position::Middle => {
            let drag_item = vec_remove_item(vec, drag_idx);
            if target_idx > drag_idx {
                target_idx = target_idx - 1;
            }
            let ghost rm = vec@;
            proof {
                let tt = target_idx as int;
                T::lemma_merge_able(s[d], s[t], s[t].rect_of());
                if t > d {
                    assert(rm[tt] == s[t].with_rect(s[tt].rect_of()));
                    T::lemma_merge_able(s[t], s[d], s[tt].rect_of());
                    T::lemma_merge_able(s[t].with_rect(s[tt].rect_of()), s[d], s[tt].rect_of());
                } else {
                    assert(rm[tt] == s[t]);
                }
                assert(rm[tt].merge_able_spec(&s[d]));
            }
            let target_item = vec.remove(target_idx);
            let id0 = drag_item.id();
            let id1 = target_item.id();
            let merged = target_item.merge(drag_item, merge_used);
            vec.insert(target_idx, merged);
            assert(vec@ =~= rm.update(target_idx as int, merged));
            Some((id0, id1))
        },
        _ => {
            rotate_one_pos(vec, drag_idx, target_idx);
            let ghost v1 = vec@;
            let item = vec.remove(drag_idx);
            vec.insert(target_idx, item);
            proof {
                T::lemma_with_rect(s[d], s[d].rect_of(), s[t].rect_of());
                assert forall|j: int| 0 <= j < s.len() implies #[trigger] vec@[j] == moved(s, d, t)[j] by {
                    T::lemma_with_rect(s[j], s[j].rect_of(), s[j].rect_of());
                    if d < t {
                        if d <= j && j < t {
                            assert(vec@[j] == v1[j + 1]);
                        } else if j == t {
                            assert(vec@[j] == v1[d]);
                        } else {
                            assert(vec@[j] == v1[j]);
                        }
                    } else {
                        if t < j && j <= d {
                            assert(vec@[j] == v1[j - 1]);
                        } else if j == t {
                            assert(vec@[j] == v1[d]);
                        } else {
                            assert(vec@[j] == v1[j]);
                        }
                    }
                }
                assert(vec@ =~= moved(s, d, t));
            }
            None
        },
    }
}

/// Laws of moving an item within a panel: every place keeps its rectangle,
/// and moving the item back to where it came from restores the panel.
pub proof fn lemma_move_laws<T: PosItem>(s: Seq<T>, d: int, t: int)
    requires
        0 <= d < s.len(),
        0 <= t < s.len(),
    ensures
        moved(s, d, t).len() == s.len(),
        forall|j: int| 0 <= j < s.len() ==> (#[trigger] moved(s, d, t)[j]).rect_of() == s[j].rect_of(),
        moved(moved(s, d, t), t, d) == s,
{
    let m1 = moved(s, d, t);
    assert forall|j: int| 0 <= j < s.len() implies (#[trigger] m1[j]).rect_of() == s[j].rect_of() by {
        T::lemma_with_rect(s[move_source(j, d, t)], s[j].rect_of(), s[j].rect_of());
    }
    let m2 = moved(m1, t, d);
    assert forall|j: int| 0 <= j < s.len() implies #[trigger] m2[j] == s[j] by {
        let k = move_source(j, t, d);
        assert(move_source(k, d, t) == j);
        T::lemma_with_rect(s[j], s[k].rect_of(), s[j].rect_of());
        T::lemma_with_rect(s[j], s[j].rect_of(), s[j].rect_of());
        T::lemma_with_rect(s[move_source(k, d, t)], s[k].rect_of(), s[k].rect_of());
    }
    assert(m2 =~= s);
}

/// Taking an item out keeps the rectangles of the places that remain.
pub proof fn lemma_remove_places<T: PosItem>(s: Seq<T>, i: int)
    requires
        0 <= i < s.len(),
    ensures
        removed(s, i).len() == s.len() - 1,
        forall|j: int| 0 <= j < s.len() - 1 ==> (#[trigger] removed(s, i)[j]).rect_of() == s[j].rect_of(),
{
    assert forall|j: int| 0 <= j < s.len() - 1 implies (#[trigger] removed(s, i)[j]).rect_of()
        == s[j].rect_of() by {
        T::lemma_with_rect(s[j + 1], s[j].rect_of(), s[j].rect_of());
    }
}


/// Where a dropped item lands. Every place keeps its rectangle. A move puts
/// the dragged item, with its identifier, at the place the drop aims at. A
/// merge removes the dragged item and leaves, at the target's place once the
/// dragged one is gone, the target merged with the dragged item; the result
/// names the dragged item and the target.
pub proof fn lemma_drop_lands<T: DragItem + IntoContent>(
    s: Seq<T>,
    d: int,
    target: int,
    position: Position,
    help: T::MergeUsed,
    r: Option<(egui::Id, egui::Id)>,
    after: Seq<T>,
)
    requires
        0 <= d < s.len(),
        0 <= target,
        dropped(s, d, target, position, &help, r, after),
    ensures
        ({
            let (t, p) = drop_target(s, d, target, position);
            let tt = if t > d {
                t - 1
            } else {
                t
            };
            &&& 0 <= t < s.len()
            &&& after.len() == (if r is Some {
                s.len() - 1
            } else {
                s.len() as int
            })
            &&& forall|j: int| 0 <= j < after.len() ==> (#[trigger] after[j]).rect_of() == s[j].rect_of()
            &&& t != d && p != Position::Middle ==> after[t] == s[d].with_rect(s[t].rect_of())
                && after[t].id_of() == s[d].id_of()
            &&& t != d && p == Position::Middle ==> r == Some((s[d].id_of(), s[t].id_of()))
                && s[t].with_rect(s[tt].rect_of()).merge_result(&s[d], &help, &after[tt])
                && after[tt].rect_of() == s[tt].rect_of()
        }),
{
    let (t, p) = drop_target(s, d, target, position);
    let tt = if t > d {
        t - 1
    } else {
        t
    };
    if t == d {
    } else if p != Position::Middle {
        lemma_move_laws(s, d, t);
        assert(move_source(t, d, t) == d);
        T::lemma_id_follows(s[d], s[t].rect_of());
    } else {
        lemma_remove_places(s, d);
        let rm = removed(s, d);
        if t > d {
            assert(rm[tt] == s[t].with_rect(s[tt].rect_of()));
            T::lemma_id_follows(s[t], s[tt].rect_of());
        } else {
            T::lemma_with_rect(s[t], s[t].rect_of(), s[t].rect_of());
            assert(rm[tt] == s[t]);
        }
        T::lemma_merge_place(rm[tt], s[d], help, after[tt]);
        assert forall|j: int| 0 <= j < after.len() implies (#[trigger] after[j]).rect_of() == s[j].rect_of() by {
            if j != tt {
                assert(after[j] == rm[j]);
            }
        }
    }
}


/// Dropping an item beside another one moves it, never merges: behind an
/// item it lands right after that item, before an item right before it.
/// Behind an earlier item, that item keeps its place and the dragged item
/// takes the next one; before an earlier item, the dragged item takes its
/// place and the item moves on by one (and the other way round for a later
/// item).
pub proof fn lemma_drop_beside<T: DragItem + IntoContent>(
    s: Seq<T>,
    d: int,
    t: int,
    position: Position,
    help: T::MergeUsed,
    r: Option<(egui::Id, egui::Id)>,
    after: Seq<T>,
)
    requires
        0 <= d < s.len(),
        0 <= t < s.len(),
        t != d,
        position == Position::Before || position == Position::Behind,
        dropped(s, d, t, position, &help, r, after),
    ensures
        r is None,
        after.len() == s.len(),
        t < d && position == Position::Behind ==> after[t] == s[t] && after[t + 1] == s[d].with_rect(
            s[t + 1].rect_of(),
        ),
        t < d && position == Position::Before ==> after[t] == s[d].with_rect(s[t].rect_of())
            && after[t + 1] == s[t].with_rect(s[t + 1].rect_of()),
        d < t && position == Position::Before ==> after[t] == s[t] && after[t - 1] == s[d].with_rect(
            s[t - 1].rect_of(),
        ),
        d < t && position == Position::Behind ==> after[t] == s[d].with_rect(s[t].rect_of())
            && after[t - 1] == s[t].with_rect(s[t - 1].rect_of()),
{
    T::lemma_with_rect(s[t], s[t].rect_of(), s[t].rect_of());
    T::lemma_with_rect(s[d], s[d].rect_of(), s[d].rect_of());
    if t < d {
        if position == Position::Behind {
            if t + 1 < d {
                assert(move_source(t, d, t + 1) == t);
                assert(move_source(t + 1, d, t + 1) == d);
            }
        } else {
            assert(move_source(t, d, t) == d);
            assert(move_source(t + 1, d, t) == t);
        }
    } else {
        if position == Position::Before {
            if t - 1 > d {
                assert(move_source(t, d, t - 1) == t);
                assert(move_source(t - 1, d, t - 1) == d);
            }
        } else {
            assert(move_source(t, d, t) == d);
            assert(move_source(t - 1, d, t) == t);
        }
    }
}

} // verus!
