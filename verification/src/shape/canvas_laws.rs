//! Laws of the canvas: undo takes back each recorded change and redo makes it
//! again, and copying then pasting duplicates the selection.

use vstd::prelude::*;

use super::canvas::{
    canvas_wf, count_below, in_bounds, pasted, pasted_connector, record, redo_ok, redone,
    remove_fwd, remove_fwd_ok, redo_remove, remove_run, ActionView, ClipboardConnector, deleted_selected, delete_order, doomed, doomed_connectors, kept_connectors, reinsert, reinsert_ok,
    remap_down, remap_up, remove_desc, removed_desc, shift_down, shift_up, strictly_increasing, undo_ok, undone,
    between_selected, connector_added, copied, index_run, moved_one, position_of, resize_begun,
    resize_committed,
};
use super::{ConnectorView, ShapeView};
use super::canvas::CanvasView;

verus! {

broadcast use vstd::seq::group_seq_axioms;

/// Putting one more recorded element in front is inserting it last.
proof fn lemma_reinsert_front<T>(s: Seq<T>, e: (usize, T), r: Seq<(usize, T)>)
    ensures
        reinsert(s, seq![e] + r) == reinsert(s, r).insert(e.0 as int, e.1),
        reinsert_ok(s, seq![e] + r) == (reinsert_ok(s, r) && (e.0 as int) <= reinsert(
            s,
            r,
        ).len()),
    decreases r.len(),
{
    if r.len() == 0 {
        assert(seq![e] + r =~= seq![e]);
        assert(seq![e].drop_last() =~= Seq::<(usize, T)>::empty());
        assert(seq![e].last() == e);
        let s1 = s.insert(e.0 as int, e.1);
        assert(reinsert(s1, Seq::<(usize, T)>::empty()) == s1);
        assert(reinsert_ok(s1, Seq::<(usize, T)>::empty()));
        assert(reinsert(s, seq![e]) == reinsert(s1, seq![e].drop_last()));
        assert(reinsert_ok(s, seq![e]) == ((e.0 as int) <= s.len() && reinsert_ok(
            s1,
            seq![e].drop_last(),
        )));
    } else {
        let t = seq![e] + r;
        assert(t.last() == r.last());
        assert(t.drop_last() =~= seq![e] + r.drop_last());
        lemma_reinsert_front(s.insert(r.last().0 as int, r.last().1), e, r.drop_last());
    }
}

/// Removing the positions of an increasing index list, highest first, and
/// inserting them back gives the sequence back.
proof fn lemma_remove_reinsert<T>(s: Seq<T>, d: Seq<usize>)
    requires
        strictly_increasing(d),
        forall|j: int| 0 <= j < d.len() ==> (#[trigger] d[j] as int) < s.len(),
    ensures
        reinsert(remove_desc(s, d), removed_desc(s, d)) == s,
        reinsert_ok(remove_desc(s, d), removed_desc(s, d)),
        remove_desc(s, d).len() == s.len() - d.len(),
    decreases d.len(),
{
    if d.len() > 0 {
        let dl = d.last();
        let s1 = s.remove(dl as int);
        let d1 = d.drop_last();
        assert forall|j: int| 0 <= j < d1.len() implies (#[trigger] d1[j] as int) < s1.len() by {
            assert(d[j] < d[d.len() - 1]);
        }
        lemma_remove_reinsert(s1, d1);
        lemma_reinsert_front(remove_desc(s1, d1), (dl, s[dl as int]), removed_desc(s1, d1));
        assert(s1.insert(dl as int, s[dl as int]) =~= s);
    }
}

/// The positions of `removed_desc` are the index list from the highest down.
proof fn lemma_removed_desc_positions<T>(s: Seq<T>, d: Seq<usize>)
    ensures
        removed_desc(s, d).len() == d.len(),
        forall|i: int|
            0 <= i < d.len() ==> (#[trigger] removed_desc(s, d)[i]).0 == d[d.len() - 1 - i],
    decreases d.len(),
{
    if d.len() > 0 {
        lemma_removed_desc_positions(s.remove(d.last() as int), d.drop_last());
        let r = removed_desc(s, d);
        assert forall|i: int| 0 <= i < d.len() implies (#[trigger] r[i]).0 == d[d.len() - 1 - i] by {
            if i > 0 {
                assert(r[i] == removed_desc(s.remove(d.last() as int), d.drop_last())[i - 1]);
            }
        }
    }
}

/// The increasing order of a delete entry's indices is the deleted selection.
proof fn lemma_delete_order<F>(s: Seq<ShapeView<F>>, d: Seq<usize>)
    ensures
        delete_order(removed_desc(s, d)) == d,
{
    lemma_removed_desc_positions(s, d);
    assert(delete_order(removed_desc(s, d)) =~= d);
}

/// Count of elements below `x`, taking the first element apart.
proof fn lemma_count_below_front(d: Seq<usize>, x: int)
    requires
        d.len() > 0,
    ensures
        count_below(d, x) == count_below(d.drop_first(), x) + if (d[0] as int) < x {
            1nat
        } else {
            0nat
        },
    decreases d.len(),
{
    if d.len() > 1 {
        lemma_count_below_front(d.drop_last(), x);
        assert(d.drop_last().drop_first() =~= d.drop_first().drop_last());
        assert(d.drop_first().last() == d.last());
    } else {
        assert(d.drop_first() =~= Seq::<usize>::empty());
        assert(d.drop_last() =~= Seq::<usize>::empty());
    }
}

/// When `x` is not in the list, moving the bound from `x` to `x + 1` counts the same.
proof fn lemma_count_below_step(d: Seq<usize>, x: int)
    requires
        !d.contains(x as usize) || x < 0,
        x >= -1,
    ensures
        count_below(d, x + 1) == count_below(d, x),
    decreases d.len(),
{
    if d.len() > 0 {
        assert(d.drop_last().contains(x as usize) ==> d.contains(x as usize)) by {
            if d.drop_last().contains(x as usize) {
                let j = choose|j: int| 0 <= j < d.drop_last().len() && d.drop_last()[j] == x as usize;
                assert(d[j] == x as usize);
            }
        }
        lemma_count_below_step(d.drop_last(), x);
        if x >= 0 {
            assert(d.last() != x as usize) by {
                if d.last() == x as usize {
                    assert(d[d.len() - 1] == x as usize);
                }
            }
        }
    }
}

/// Everything below `x` is counted: the count is the length.
proof fn lemma_count_below_all(d: Seq<usize>, x: int)
    requires
        forall|j: int| 0 <= j < d.len() ==> (#[trigger] d[j] as int) < x,
    ensures
        count_below(d, x) == d.len(),
    decreases d.len(),
{
    if d.len() > 0 {
        assert forall|j: int| 0 <= j < d.drop_last().len() implies (
        #[trigger] d.drop_last()[j] as int) < x by {
            assert(d.drop_last()[j] == d[j]);
        }
        lemma_count_below_all(d.drop_last(), x);
        assert(d[d.len() - 1] == d.last());
    }
}

/// Nothing below `x` is in the list: the count is 0.
proof fn lemma_count_below_none(d: Seq<usize>, x: int)
    requires
        forall|j: int| 0 <= j < d.len() ==> (#[trigger] d[j] as int) >= x,
    ensures
        count_below(d, x) == 0,
    decreases d.len(),
{
    if d.len() > 0 {
        assert forall|j: int| 0 <= j < d.drop_last().len() implies (
        #[trigger] d.drop_last()[j] as int) >= x by {
            assert(d.drop_last()[j] == d[j]);
        }
        lemma_count_below_none(d.drop_last(), x);
        assert(d[d.len() - 1] == d.last());
    }
}

/// Distinct increasing indices above `a` and below `x` number at most `x - a - 1`.
proof fn lemma_count_below_gap(d: Seq<usize>, a: int, x: int)
    requires
        strictly_increasing(d),
        forall|j: int| 0 <= j < d.len() ==> (#[trigger] d[j] as int) > a,
        x > a,
    ensures
        count_below(d, x) <= x - a - 1,
    decreases d.len(),
{
    if d.len() > 0 {
        let t = d.drop_last();
        let l = d.last() as int;
        assert(l == d[d.len() - 1]);
        assert(strictly_increasing(t)) by {
            assert forall|i: int, j: int| 0 <= i < j < t.len() implies t[i] < t[j] by {
                assert(t[i] == d[i] && t[j] == d[j]);
            }
        }
        assert forall|j: int| 0 <= j < t.len() implies (#[trigger] t[j] as int) > a by {
            assert(t[j] == d[j]);
        }
        if l < x {
            assert forall|j: int| 0 <= j < t.len() implies (#[trigger] t[j] as int) < l by {
                assert(t[j] == d[j]);
                assert(d[j] < d[d.len() - 1]);
            }
            lemma_count_below_all(t, l);
            lemma_count_below_all(t, x);
            lemma_count_below_gap(t, a, l);
        } else {
            lemma_count_below_gap(t, a, x);
        }
    }
}

/// Walking down the increasing indices subtracts the number of them below `x`.
proof fn lemma_shift_down_count(d: Seq<usize>, x: int)
    requires
        strictly_increasing(d),
        !d.contains(x as usize),
        0 <= x <= usize::MAX,
    ensures
        shift_down(d, x) == x - count_below(d, x),
    decreases d.len(),
{
    if d.len() > 0 {
        let t = d.drop_last();
        let l = d.last() as int;
        assert(l == d[d.len() - 1]);
        assert(strictly_increasing(t)) by {
            assert forall|i: int, j: int| 0 <= i < j < t.len() implies t[i] < t[j] by {
                assert(t[i] == d[i] && t[j] == d[j]);
            }
        }
        assert(!t.contains(x as usize)) by {
            if t.contains(x as usize) {
                let j = choose|j: int| 0 <= j < t.len() && t[j] == x as usize;
                assert(d[j] == x as usize);
            }
        }
        assert(l != x);
        if x > l {
            assert forall|j: int| 0 <= j < t.len() implies (#[trigger] t[j] as int) < x - 1 by {
                assert(t[j] == d[j]);
                assert(d[j] < d[d.len() - 1]);
            }
            assert(!t.contains((x - 1) as usize)) by {
                if t.contains((x - 1) as usize) {
                    let j = choose|j: int| 0 <= j < t.len() && t[j] == (x - 1) as usize;
                    assert(t[j] == d[j]);
                    assert(d[j] < d[d.len() - 1]);
                    assert(((x - 1) as usize) as int == x - 1);
                    assert(false);
                }
            }
            lemma_shift_down_count(t, x - 1);
            lemma_count_below_all(t, x - 1);
            lemma_count_below_all(t, x);
        } else {
            lemma_shift_down_count(t, x);
        }
    }
}

/// Walking up the indices after walking down gives back any index that is not
/// one of them.
proof fn lemma_shift_round_trip(d: Seq<usize>, x: int)
    requires
        strictly_increasing(d),
        !d.contains(x as usize),
        0 <= x <= usize::MAX,
    ensures
        shift_up(d, shift_down(d, x)) == x,
{
    lemma_shift_down_count(d, x);
    lemma_shift_up_count(d, x);
}

proof fn lemma_shift_up_count(d: Seq<usize>, x: int)
    requires
        strictly_increasing(d),
        !d.contains(x as usize),
        0 <= x <= usize::MAX,
    ensures
        shift_up(d, x - count_below(d, x)) == x,
    decreases d.len(),
{
    if d.len() > 0 {
        let t = d.drop_first();
        let d0 = d[0] as int;
        lemma_count_below_front(d, x);
        assert(strictly_increasing(t)) by {
            assert forall|i: int, j: int| 0 <= i < j < t.len() implies t[i] < t[j] by {
                assert(t[i] == d[i + 1] && t[j] == d[j + 1]);
            }
        }
        assert(!t.contains(x as usize)) by {
            if t.contains(x as usize) {
                let j = choose|j: int| 0 <= j < t.len() && t[j] == x as usize;
                assert(d[j + 1] == x as usize);
            }
        }
        assert(d0 != x);
        if x < d0 {
            assert forall|j: int| 0 <= j < d.len() implies (#[trigger] d[j] as int) >= x by {
                if j > 0 {
                    assert(d[0] < d[j]);
                }
            }
            lemma_count_below_none(d, x);
            assert forall|j: int| 0 <= j < t.len() implies (#[trigger] t[j] as int) >= x by {
                assert(t[j] == d[j + 1]);
            }
            lemma_count_below_none(t, x);
            lemma_shift_up_count(t, x);
        } else {
            assert forall|j: int| 0 <= j < t.len() implies (#[trigger] t[j] as int) > d0 by {
                assert(t[j] == d[j + 1]);
                assert(d[0] < d[j + 1]);
            }
            lemma_count_below_gap(t, d0, x);
            lemma_shift_up_count(t, x);
        }
    }
}

/// Splitting the connectors from `lo` on into kept and removed ones, then
/// inserting the removed ones back at their positions, gives the connectors back.
proof fn lemma_kept_doomed_reinsert<F>(v: CanvasView<F>, lo: int)
    requires
        0 <= lo <= v.connectors.len(),
        v.connectors.len() <= usize::MAX,
    ensures
        reinsert(v.connectors.take(lo) + kept_connectors(v, lo), doomed_connectors(v, lo))
            == v.connectors,
        reinsert_ok(v.connectors.take(lo) + kept_connectors(v, lo), doomed_connectors(v, lo)),
    decreases v.connectors.len() - lo,
{
    let c = v.connectors;
    if lo == c.len() {
        assert(c.take(lo) + kept_connectors(v, lo) =~= c);
        assert(doomed_connectors(v, lo) == Seq::<(usize, ConnectorView<F>)>::empty());
        assert(reinsert(c, Seq::<(usize, ConnectorView<F>)>::empty()) == c);
    } else {
        lemma_kept_doomed_reinsert(v, lo + 1);
        let k1 = kept_connectors(v, lo + 1);
        let d1 = doomed_connectors(v, lo + 1);
        if doomed(v, lo) {
            let e = (lo as usize, c[lo]);
            let base = c.take(lo) + k1;
            assert(doomed_connectors(v, lo) == d1 + seq![e]);
            assert(kept_connectors(v, lo) =~= k1);
            assert((d1 + seq![e]).last() == e);
            assert((d1 + seq![e]).drop_last() =~= d1);
            assert(base.insert(lo, c[lo]) =~= c.take(lo + 1) + k1);
            assert(reinsert(base, d1 + seq![e]) == reinsert(base.insert(lo, c[lo]), d1));
            assert(reinsert_ok(base, d1 + seq![e]) == (lo <= base.len() && reinsert_ok(
                base.insert(lo, c[lo]),
                d1,
            )));
        } else {
            assert(doomed_connectors(v, lo) =~= d1);
            assert(c.take(lo) + kept_connectors(v, lo) =~= c.take(lo + 1) + k1);
        }
    }
}

/// The connectors a delete keeps touch no deleted shape.
proof fn lemma_kept_untouched<F>(v: CanvasView<F>, lo: int)
    requires
        0 <= lo,
    ensures
        forall|i: int|
            0 <= i < kept_connectors(v, lo).len() ==> !v.selected.contains(
                (#[trigger] kept_connectors(v, lo)[i]).source,
            ) && !v.selected.contains(kept_connectors(v, lo)[i].target),
    decreases v.connectors.len() - lo,
{
    if lo < v.connectors.len() {
        lemma_kept_untouched(v, lo + 1);
        let k = kept_connectors(v, lo);
        let k1 = kept_connectors(v, lo + 1);
        assert forall|i: int| 0 <= i < k.len() implies !v.selected.contains(
            (#[trigger] k[i]).source,
        ) && !v.selected.contains(k[i].target) by {
            if doomed(v, lo) {
                assert(k =~= k1);
            } else {
                assert(k == seq![v.connectors[lo]] + k1);
                if i > 0 {
                    assert(k[i] == k1[i - 1]);
                }
            }
        }
    }
}

/// Deleting the selection and undoing the deletion gives back every shape and
/// every connector, in their places.
pub proof fn law_undo_delete_restores<F>(v: CanvasView<F>)
    requires
        canvas_wf(v),
        v.connectors.len() <= usize::MAX,
        v.selected.len() > 0,
        forall|j: int| 0 <= j < v.selected.len() ==> (#[trigger] v.selected[j] as int) < v.shapes.len(),
    ensures
        undo_ok(deleted_selected(v)),
        undone(deleted_selected(v)).shapes == v.shapes,
        undone(deleted_selected(v)).connectors == v.connectors,
{
    let d = v.selected;
    let w = deleted_selected(v);
    let r = removed_desc(v.shapes, d);
    let kept = kept_connectors(v, 0);
    lemma_remove_reinsert(v.shapes, d);
    lemma_delete_order(v.shapes, d);
    lemma_kept_untouched(v, 0);
    lemma_kept_doomed_reinsert(v, 0);
    assert(v.connectors.take(0) + kept =~= kept);
    let mapped = w.connectors.map_values(|c: ConnectorView<F>| remap_up(c, delete_order(r)));
    assert forall|i: int| 0 <= i < kept.len() implies #[trigger] mapped[i] == kept[i] by {
        let c = kept[i];
        lemma_shift_round_trip(d, c.source as int);
        lemma_shift_round_trip(d, c.target as int);
        lemma_shift_down_bounds_law(d, c.source as int);
        lemma_shift_down_bounds_law(d, c.target as int);
    }
    assert(mapped =~= kept);
    assert forall|i: int| 0 <= i < w.connectors.len() implies shift_up(
        delete_order(r),
        (#[trigger] w.connectors[i]).source as int,
    ) <= usize::MAX && shift_up(delete_order(r), w.connectors[i].target as int) <= usize::MAX by {
        assert(mapped[i] == kept[i]);
        let c = kept[i];
        lemma_shift_round_trip(d, c.source as int);
        lemma_shift_round_trip(d, c.target as int);
        lemma_shift_down_bounds_law(d, c.source as int);
        lemma_shift_down_bounds_law(d, c.target as int);
    }
}

/// Removing the recorded positions of a delete front to back, as redo does,
/// removes the same shapes as the delete.
proof fn lemma_remove_fwd_removed<T>(s: Seq<T>, d: Seq<usize>)
    requires
        strictly_increasing(d),
        forall|j: int| 0 <= j < d.len() ==> (#[trigger] d[j] as int) < s.len(),
    ensures
        remove_fwd(s, removed_desc(s, d)) == remove_desc(s, d),
        remove_fwd_ok(s, removed_desc(s, d)),
    decreases d.len(),
{
    if d.len() > 0 {
        let dl = d.last();
        let s1 = s.remove(dl as int);
        let d1 = d.drop_last();
        assert forall|j: int| 0 <= j < d1.len() implies (#[trigger] d1[j] as int) < s1.len() by {
            assert(d[j] < d[d.len() - 1]);
        }
        lemma_remove_fwd_removed(s1, d1);
        let r = removed_desc(s, d);
        assert(r[0] == (dl, s[dl as int]));
        assert(r.drop_first() =~= removed_desc(s1, d1));
    }
}

/// Removing in the recorded order takes back what inserting in the reverse
/// order (the last recorded first) gave.
proof fn lemma_redo_remove_reinsert<T>(k: Seq<T>, r: Seq<(usize, T)>)
    requires
        reinsert_ok(k, r),
    ensures
        redo_remove(reinsert(k, r), r) == k,
    decreases r.len(),
{
    if r.len() > 0 {
        let e = r[0];
        let t = r.drop_first();
        assert(r =~= seq![e] + t);
        lemma_reinsert_front(k, e, t);
        let x = reinsert(k, t);
        assert(x.insert(e.0 as int, e.1).remove(e.0 as int) =~= x);
        lemma_redo_remove_reinsert(k, t);
    }
}

/// Redoing an undone delete gives back the shapes and the connectors the
/// delete left.
pub proof fn law_redo_delete_after_undo<F>(v: CanvasView<F>)
    requires
        canvas_wf(v),
        v.connectors.len() <= usize::MAX,
        v.selected.len() > 0,
        forall|j: int| 0 <= j < v.selected.len() ==> (#[trigger] v.selected[j] as int) < v.shapes.len(),
    ensures
        redo_ok(undone(deleted_selected(v))),
        redone(undone(deleted_selected(v))).shapes == deleted_selected(v).shapes,
        redone(undone(deleted_selected(v))).connectors == deleted_selected(v).connectors,
{
    let d = v.selected;
    let w = deleted_selected(v);
    let u = undone(w);
    let r = removed_desc(v.shapes, d);
    let rc = doomed_connectors(v, 0);
    let kept = kept_connectors(v, 0);
    law_undo_delete_restores(v);
    lemma_remove_fwd_removed(v.shapes, d);
    lemma_delete_order(v.shapes, d);
    let a = ActionView::DeleteShapes { shapes: r, removed_connectors: rc };
    assert(w.undo.last() == a);
    assert(u.redo.last() == a);
    lemma_kept_doomed_reinsert(v, 0);
    assert(v.connectors.take(0) + kept =~= kept);
    lemma_redo_remove_reinsert(kept, rc);
}

proof fn lemma_shift_down_bounds_law(d: Seq<usize>, x: int)
    requires
        x >= 0,
    ensures
        0 <= shift_down(d, x) <= x,
    decreases d.len(),
{
    if d.len() > 0 {
        lemma_shift_down_bounds_law(d.drop_last(), if x > d.last() { x - 1 } else { x });
    }
}

/// Adding a shape and undoing it gives back the shapes; redoing gives the
/// added shape back at its place.
pub proof fn law_undo_add_shape<F>(v: CanvasView<F>, shape: ShapeView<F>)
    requires
        v.shapes.len() <= usize::MAX,
    ensures
        ({
            let added = record(
                CanvasView { shapes: v.shapes.push(shape), ..v },
                ActionView::AddShape { index: v.shapes.len() as usize, data: shape },
            );
            &&& undo_ok(added)
            &&& undone(added).shapes == v.shapes
            &&& redo_ok(undone(added))
            &&& redone(undone(added)).shapes == added.shapes
        }),
{
    let added = record(
        CanvasView { shapes: v.shapes.push(shape), ..v },
        ActionView::AddShape { index: v.shapes.len() as usize, data: shape },
    );
    assert(added.undo.last() == ActionView::AddShape {
        index: v.shapes.len() as usize,
        data: shape,
    });
    assert(undone(added).shapes =~= v.shapes);
    assert(undone(added).redo.last() == ActionView::AddShape {
        index: v.shapes.len() as usize,
        data: shape,
    });
    assert(redone(undone(added)).shapes =~= added.shapes);
}

/// Undoing a move or a resize and redoing it gives back the whole canvas.
pub proof fn law_redo_reverts_undo_of_move<F>(v: CanvasView<F>)
    requires
        v.undo.len() > 0,
        match v.undo.last() {
            ActionView::MoveShape { index, .. } => (index as int) < v.shapes.len(),
            ActionView::ResizeShape { index, .. } => (index as int) < v.shapes.len(),
            _ => false,
        },
    ensures
        undo_ok(v),
        redo_ok(undone(v)),
        redone(undone(v)) == v,
{
    let u = undone(v);
    assert(u.redo.drop_last() =~= v.redo);
    assert(v.undo.drop_last().push(v.undo.last()) =~= v.undo);
    match v.undo.last() {
        ActionView::MoveShape { index, old_data } => {
            assert(u.shapes.update(index as int, v.shapes[index as int]) =~= v.shapes);
        },
        ActionView::ResizeShape { index, old_data } => {
            assert(u.shapes.update(index as int, v.shapes[index as int]) =~= v.shapes);
        },
        _ => {},
    }
}

proof fn lemma_remove_run_appended<T>(a: Seq<T>, b: Seq<T>)
    ensures
        remove_run(a + b, a.len() as int, b.len()) == a,
    decreases b.len(),
{
    if b.len() == 0 {
        assert(a + b =~= a);
    } else {
        assert((a + b).remove(a.len() as int) =~= a + b.drop_first());
        lemma_remove_run_appended(a, b.drop_first());
    }
}

proof fn lemma_filter_all<A>(s: Seq<A>, p: spec_fn(A) -> bool)
    requires
        forall|i: int| 0 <= i < s.len() ==> p(#[trigger] s[i]),
    ensures
        s.filter(p) == s,
    decreases s.len(),
{
    reveal(Seq::filter);
    if s.len() > 0 {
        assert forall|i: int| 0 <= i < s.drop_last().len() implies p(#[trigger] s.drop_last()[i]) by {
            assert(s.drop_last()[i] == s[i]);
        }
        lemma_filter_all(s.drop_last(), p);
        assert(p(s[s.len() - 1]));
        assert(s.drop_last().push(s.last()) =~= s);
    }
}

/// Pasting and undoing the paste gives back the shapes, and the connectors
/// too when every connector joined existing shapes.
pub proof fn law_undo_paste_restores<F>(
    v: CanvasView<F>,
    shapes: Seq<ShapeView<F>>,
    connectors: Seq<ClipboardConnector<F>>,
)
    requires
        shapes.len() > 0,
        v.shapes.len() <= usize::MAX,
        v.connectors.len() <= usize::MAX,
    ensures
        undo_ok(pasted(v, shapes, connectors)),
        undone(pasted(v, shapes, connectors)).shapes == v.shapes,
        (forall|i: int| 0 <= i < v.connectors.len() ==> in_bounds(
            #[trigger] v.connectors[i],
            v.shapes.len() as int,
        )) ==> undone(pasted(v, shapes, connectors)).connectors == v.connectors,
{
    let w = pasted(v, shapes, connectors);
    let start = v.shapes.len() as int;
    let newc = connectors.map_values(
        |cc: ClipboardConnector<F>| pasted_connector(start, cc),
    );
    assert(w.undo.last() == ActionView::PasteShapes {
        start_index: start as usize,
        shapes_data: shapes,
        conn_start_index: v.connectors.len() as usize,
        connectors_data: newc,
    });
    assert((v.shapes + shapes).take(start) + (v.shapes + shapes).skip(start + shapes.len())
        =~= v.shapes);
    lemma_remove_run_appended(v.connectors, newc);
    if forall|i: int| 0 <= i < v.connectors.len() ==> in_bounds(
        #[trigger] v.connectors[i],
        v.shapes.len() as int,
    ) {
        lemma_filter_all(
            v.connectors,
            |c: ConnectorView<F>| in_bounds(c, v.shapes.len() as int),
        );
    }
}


/// One change that the canvas records as a single undo entry, by what it is
/// given.
pub enum CanvasAction<F> {
    /// `add_shape`.
    AddShape(ShapeView<F>),
    /// `move_selected_to` with one shape selected: that shape to a new center.
    Move(usize, (F, F)),
    /// `begin_resize`, `replace_shape` of the first selected shape, `commit_resize`.
    Resize(ShapeView<F>),
    /// `paste_data`.
    Paste(Seq<ShapeView<F>>, Seq<ClipboardConnector<F>>),
    /// `delete_selected`.
    Delete,
    /// `add_connector`.
    AddConnector(usize, usize, F),
    /// `remove_connector`.
    RemoveConnector(usize),
}

/// The canvas after the change.
pub open spec fn applied<F>(v: CanvasView<F>, a: CanvasAction<F>) -> CanvasView<F> {
    match a {
        CanvasAction::AddShape(shape) => record(
            CanvasView { shapes: v.shapes.push(shape), ..v },
            ActionView::AddShape { index: v.shapes.len() as usize, data: shape },
        ),
        CanvasAction::Move(index, center) => moved_one(v, index, center),
        CanvasAction::Resize(shape) => {
            let begun = resize_begun(v);
            resize_committed(
                CanvasView { shapes: begun.shapes.update(v.selected[0] as int, shape), ..begun },
            )
        },
        CanvasAction::Paste(shapes, connectors) => pasted(v, shapes, connectors),
        CanvasAction::Delete => deleted_selected(v),
        CanvasAction::AddConnector(source, target, curvature) => connector_added(
            v,
            source,
            target,
            curvature,
        ),
        CanvasAction::RemoveConnector(index) => record(
            CanvasView { connectors: v.connectors.remove(index as int), ..v },
            ActionView::RemoveConnector { index, data: v.connectors[index as int] },
        ),
    }
}

/// The change can be made and records one entry: what it refers to exists,
/// indices fit, and (for a paste) every connector joins existing shapes. For
/// a real canvas `c`, `c.lemma_wf()` gives `canvas_wf(c@)`, and the counts fit
/// `usize` as `shape_count` and `connector_count` show.
pub open spec fn action_ok<F>(v: CanvasView<F>, a: CanvasAction<F>) -> bool {
    &&& canvas_wf(v)
    &&& v.shapes.len() <= usize::MAX
    &&& v.connectors.len() <= usize::MAX
    &&& match a {
        CanvasAction::AddShape(_) => true,
        CanvasAction::Move(index, _) => (index as int) < v.shapes.len(),
        CanvasAction::Resize(_) => v.selected.len() > 0 && (v.selected[0] as int) < v.shapes.len(),
        CanvasAction::Paste(shapes, _) => shapes.len() > 0 && forall|i: int|
            0 <= i < v.connectors.len() ==> in_bounds(#[trigger] v.connectors[i], v.shapes.len() as int),
        CanvasAction::Delete => v.selected.len() > 0 && forall|j: int|
            0 <= j < v.selected.len() ==> (#[trigger] v.selected[j] as int) < v.shapes.len(),
        CanvasAction::AddConnector(_, _, _) => true,
        CanvasAction::RemoveConnector(index) => (index as int) < v.connectors.len(),
    }
}

/// Undo takes back any single recorded change: the shapes and connectors are
/// those from before it. Redo then makes the change again: the shapes and
/// connectors are those right after it.
pub proof fn law_undo_reverts_action<F>(v: CanvasView<F>, a: CanvasAction<F>)
    requires
        action_ok(v, a),
    ensures
        undo_ok(applied(v, a)),
        undone(applied(v, a)).shapes == v.shapes,
        undone(applied(v, a)).connectors == v.connectors,
        redo_ok(undone(applied(v, a))),
        redone(undone(applied(v, a))).shapes == applied(v, a).shapes,
        redone(undone(applied(v, a))).connectors == applied(v, a).connectors,
{
    let w = applied(v, a);
    match a {
        CanvasAction::AddShape(shape) => {
            law_undo_add_shape(v, shape);
        },
        CanvasAction::Move(index, center) => {
            law_redo_reverts_undo_of_move(w);
            assert(w.shapes.update(index as int, v.shapes[index as int]) =~= v.shapes);
        },
        CanvasAction::Resize(shape) => {
            let i = v.selected[0];
            assert(w.undo.last() == ActionView::ResizeShape { index: i, old_data: v.shapes[i as int] });
            law_redo_reverts_undo_of_move(w);
            assert(w.shapes.update(i as int, v.shapes[i as int]) =~= v.shapes);
        },
        CanvasAction::Paste(shapes, connectors) => {
            law_undo_paste_restores(v, shapes, connectors);
            let start = v.shapes.len() as int;
            let newc = connectors.map_values(
                |cc: ClipboardConnector<F>| pasted_connector(start, cc),
            );
            let pa = ActionView::PasteShapes {
                start_index: start as usize,
                shapes_data: shapes,
                conn_start_index: v.connectors.len() as usize,
                connectors_data: newc,
            };
            assert(w.undo.last() == pa);
            assert(undone(w).redo.last() == pa);
            assert(v.shapes.take(start) + shapes + v.shapes.skip(start) =~= v.shapes + shapes);
            assert(v.connectors.take(v.connectors.len() as int) + newc + v.connectors.skip(
                v.connectors.len() as int,
            ) =~= v.connectors + newc);
        },
        CanvasAction::Delete => {
            law_undo_delete_restores(v);
            law_redo_delete_after_undo(v);
        },
        CanvasAction::AddConnector(source, target, curvature) => {
            let c = ConnectorView { source, target, curvature };
            let ca = ActionView::AddConnector { index: v.connectors.len() as usize, data: c };
            assert(w.undo.last() == ca);
            assert(v.connectors.push(c).remove(v.connectors.len() as int) =~= v.connectors);
            assert(undone(w).redo.last() == ca);
            assert(v.connectors.insert(v.connectors.len() as int, c) =~= v.connectors.push(c));
        },
        CanvasAction::RemoveConnector(index) => {
            let ra = ActionView::RemoveConnector { index, data: v.connectors[index as int] };
            assert(w.undo.last() == ra);
            assert(v.connectors.remove(index as int).insert(index as int, v.connectors[index as int])
                =~= v.connectors);
            assert(undone(w).redo.last() == ra);
        },
    }
}

/// Copying the selection and pasting it (before the UI moves the copies)
/// appends a copy of each selected shape, in selection order, and a copy of
/// each connector between selected shapes, its ends renumbered to the
/// copies; the copies become the selection, and what was there is kept.
pub proof fn law_copy_then_paste<F>(v: CanvasView<F>)
    requires
        canvas_wf(v),
        v.selected.len() > 0,
        forall|j: int| 0 <= j < v.selected.len() ==> (#[trigger] v.selected[j] as int) < v.shapes.len(),
        v.shapes.len() + v.selected.len() <= usize::MAX,
        v.connectors.len() <= usize::MAX,
    ensures
        copied(v) is Some,
        ({
            let clip = copied(v)->0;
            let w = pasted(v, clip.shapes, clip.connectors);
            let n = v.shapes.len() as int;
            let k = v.selected.len() as int;
            let m = v.connectors.len() as int;
            let between = v.connectors.filter(
                |c: ConnectorView<F>| between_selected(v.selected, c),
            );
            &&& w.shapes.len() == n + k
            &&& w.shapes.take(n) == v.shapes
            &&& forall|j: int| 0 <= j < k ==> #[trigger] w.shapes[n + j] == v.shapes[v.selected[j] as int]
            &&& w.connectors.len() == m + between.len()
            &&& w.connectors.take(m) == v.connectors
            &&& forall|j: int|
                0 <= j < between.len() ==> {
                    let c = #[trigger] w.connectors[m + j];
                    &&& n <= c.source < n + k
                    &&& n <= c.target < n + k
                    &&& v.selected[c.source - n] == between[j].source
                    &&& v.selected[c.target - n] == between[j].target
                    &&& c.curvature == between[j].curvature
                }
            &&& w.selected == index_run(n, k)
            &&& w.selected_connectors == index_run(m, between.len() as int)
        }),
{
    let clip = copied(v)->0;
    let sel = v.selected;
    let n = v.shapes.len() as int;
    let k = sel.len() as int;
    let m = v.connectors.len() as int;
    let pred = |c: ConnectorView<F>| between_selected(sel, c);
    let between = v.connectors.filter(pred);
    let w = pasted(v, clip.shapes, clip.connectors);
    let newc = clip.connectors.map_values(|cc: ClipboardConnector<F>| pasted_connector(n, cc));
    assert(w.shapes.take(n) =~= v.shapes);
    assert(w.connectors.take(m) =~= v.connectors);
    assert forall|j: int| 0 <= j < between.len() implies {
        let c = #[trigger] w.connectors[m + j];
        &&& n <= c.source < n + k
        &&& n <= c.target < n + k
        &&& sel[c.source - n] == between[j].source
        &&& sel[c.target - n] == between[j].target
        &&& c.curvature == between[j].curvature
    } by {
        let b = between[j];
        v.connectors.lemma_filter_pred(pred, j);
        assert(pred(b));
        assert(w.connectors[m + j] == newc[j]);
        let ps = position_of(sel, b.source);
        let pt = position_of(sel, b.target);
        assert(0 <= ps < k && sel[ps] == b.source);
        assert(0 <= pt < k && sel[pt] == b.target);
    }
}

/// The connectors from position `lo` on that a delete removes, with their
/// positions: exactly the doomed ones, each once with its value, and the
/// kept and removed ones together are all of them.
proof fn lemma_doomed_indices<F>(v: CanvasView<F>, lo: int)
    requires
        0 <= lo <= v.connectors.len(),
        v.connectors.len() <= usize::MAX,
    ensures
        kept_connectors(v, lo).len() + doomed_connectors(v, lo).len() == v.connectors.len() - lo,
        forall|k: int|
            0 <= k < doomed_connectors(v, lo).len() ==> {
                let e = #[trigger] doomed_connectors(v, lo)[k];
                &&& lo <= e.0 < v.connectors.len()
                &&& e.1 == v.connectors[e.0 as int]
                &&& doomed(v, e.0 as int)
            },
        forall|i: int|
            lo <= i < v.connectors.len() && #[trigger] doomed(v, i) ==> exists|k: int|
                0 <= k < doomed_connectors(v, lo).len() && #[trigger] doomed_connectors(v, lo)[k]
                    == (i as usize, v.connectors[i]),
    decreases v.connectors.len() - lo,
{
    if lo < v.connectors.len() {
        lemma_doomed_indices(v, lo + 1);
        let d1 = doomed_connectors(v, lo + 1);
        let d = doomed_connectors(v, lo);
        assert forall|k: int| 0 <= k < d.len() implies {
            let e = #[trigger] d[k];
            &&& lo <= e.0 < v.connectors.len()
            &&& e.1 == v.connectors[e.0 as int]
            &&& doomed(v, e.0 as int)
        } by {
            if k < d1.len() {
                assert(d[k] == d1[k]);
            }
        }
        assert forall|i: int| lo <= i < v.connectors.len() && doomed(v, i) implies exists|k: int|
            0 <= k < d.len() && #[trigger] d[k] == (i as usize, v.connectors[i]) by {
            if i == lo {
                assert(d[d1.len() as int] == (i as usize, v.connectors[i]));
            } else {
                let k = choose|k: int| 0 <= k < d1.len() && #[trigger] d1[k] == (i as usize, v.connectors[i]);
                assert(d[k] == d1[k]);
            }
        }
    }
}

/// The connectors an undo entry of a delete records as removed, with their
/// positions; nothing for other entries.
pub open spec fn removed_connectors_of<F>(a: ActionView<F>) -> Seq<(usize, ConnectorView<F>)> {
    match a {
        ActionView::DeleteShapes { removed_connectors, .. } => removed_connectors,
        _ => Seq::empty(),
    }
}

/// Deleting a selection removes a connector exactly when it is selected or
/// has an end among the selected shapes: the delete's undo entry records each
/// such connector with its position and value, and the connectors left are
/// the others.
pub proof fn law_delete_removes_selected_and_touching_connectors<F>(v: CanvasView<F>)
    requires
        v.selected.len() > 0,
        v.connectors.len() <= usize::MAX,
    ensures
        deleted_selected(v).undo.last() is DeleteShapes,
        forall|i: int|
            0 <= i < v.connectors.len() ==> ((v.selected_connectors.contains(i as usize)
                || v.selected.contains(v.connectors[i].source) || v.selected.contains(
                v.connectors[i].target,
            )) <==> exists|k: int|
                0 <= k < removed_connectors_of(deleted_selected(v).undo.last()).len()
                    && #[trigger] removed_connectors_of(deleted_selected(v).undo.last())[k] == (
                    i as usize,
                    v.connectors[i],
                )),
        deleted_selected(v).connectors.len() + removed_connectors_of(
            deleted_selected(v).undo.last(),
        ).len() == v.connectors.len(),
{
    let w = deleted_selected(v);
    let rc = doomed_connectors(v, 0);
    lemma_doomed_indices(v, 0);
    assert(w.undo.last() == ActionView::DeleteShapes {
        shapes: removed_desc(v.shapes, v.selected),
        removed_connectors: rc,
    });
    assert(removed_connectors_of(w.undo.last()) == rc);
    assert(w.connectors.len() == kept_connectors(v, 0).len());
    assert forall|i: int| 0 <= i < v.connectors.len() implies ((v.selected_connectors.contains(
        i as usize,
    ) || v.selected.contains(v.connectors[i].source) || v.selected.contains(
        v.connectors[i].target,
    )) <==> exists|k: int| 0 <= k < rc.len() && #[trigger] rc[k] == (i as usize, v.connectors[i])) by {
        let c = v.connectors[i];
        assert(doomed(v, i) == (v.selected_connectors.contains(i as usize) || v.selected.contains(
            c.source,
        ) || v.selected.contains(c.target)));
        if exists|k: int| 0 <= k < rc.len() && #[trigger] rc[k] == (i as usize, v.connectors[i]) {
            let k = choose|k: int| 0 <= k < rc.len() && #[trigger] rc[k] == (i as usize, v.connectors[i]);
            assert(doomed(v, rc[k].0 as int));
            assert(rc[k].0 as int == i);
        }
        if doomed(v, i) {
            assert(exists|k: int| 0 <= k < rc.len() && #[trigger] rc[k] == (i as usize, v.connectors[i]));
        }
    }
}

/// The connectors a delete keeps stay in order with their curvature, and each
/// end drops by the number of deleted shapes before it, so it names the same
/// shape at its new position.
pub proof fn law_delete_renumbers_kept_connectors<F>(v: CanvasView<F>)
    requires
        canvas_wf(v),
        v.selected.len() > 0,
    ensures
        deleted_selected(v).connectors.len() == kept_connectors(v, 0).len(),
        forall|j: int|
            0 <= j < kept_connectors(v, 0).len() ==> {
                let c = kept_connectors(v, 0)[j];
                let n = #[trigger] deleted_selected(v).connectors[j];
                &&& n.source == c.source - count_below(v.selected, c.source as int)
                &&& n.target == c.target - count_below(v.selected, c.target as int)
                &&& n.curvature == c.curvature
            },
{
    let kept = kept_connectors(v, 0);
    let w = deleted_selected(v);
    lemma_kept_untouched(v, 0);
    assert forall|j: int| 0 <= j < kept.len() implies {
        let c = kept[j];
        let n = #[trigger] w.connectors[j];
        &&& n.source == c.source - count_below(v.selected, c.source as int)
        &&& n.target == c.target - count_below(v.selected, c.target as int)
        &&& n.curvature == c.curvature
    } by {
        let c = kept[j];
        assert(w.connectors[j] == remap_down(c, v.selected));
        assert(!v.selected.contains(c.source) && !v.selected.contains(c.target));
        lemma_shift_down_count(v.selected, c.source as int);
        lemma_shift_down_count(v.selected, c.target as int);
        lemma_shift_down_bounds_law(v.selected, c.source as int);
        lemma_shift_down_bounds_law(v.selected, c.target as int);
    }
}

/// Each element kept by a filter is an element of the sequence.
proof fn lemma_filter_from<A>(s: Seq<A>, p: spec_fn(A) -> bool)
    ensures
        forall|j: int| 0 <= j < s.filter(p).len() ==> s.contains(#[trigger] s.filter(p)[j]),
    decreases s.len(),
{
    reveal(Seq::filter);
    if s.len() > 0 {
        let t = s.drop_last();
        lemma_filter_from(t, p);
        let f = s.filter(p);
        let f1 = t.filter(p);
        assert forall|j: int| 0 <= j < f.len() implies s.contains(#[trigger] f[j]) by {
            if j < f1.len() {
                assert(f[j] == f1[j]);
                assert(t.contains(f1[j]));
                let k = choose|k: int| 0 <= k < t.len() && t[k] == f1[j];
                assert(s[k] == f1[j]);
            } else {
                assert(f[j] == s.last());
                assert(s[s.len() - 1] == s.last());
            }
        }
    }
}

/// Undoing a paste leaves no shape and no connector selected.
pub proof fn law_undo_paste_clears_selection<F>(v: CanvasView<F>)
    requires
        v.undo.len() > 0,
        v.undo.last() is PasteShapes,
    ensures
        undone(v).selected.len() == 0,
        undone(v).selected_connectors.len() == 0,
{
}

/// The shape and connector selections point at existing shapes and connectors.
pub open spec fn selection_in_range<F>(v: CanvasView<F>) -> bool {
    &&& forall|j: int| 0 <= j < v.selected.len() ==> (#[trigger] v.selected[j] as int) < v.shapes.len()
    &&& forall|j: int|
        0 <= j < v.selected_connectors.len() ==> (#[trigger] v.selected_connectors[j] as int)
            < v.connectors.len()
}

/// Undoing any single recorded change keeps the selections pointing at
/// existing shapes and connectors, when they did before the change; after
/// undoing a paste nothing is selected.
pub proof fn law_undo_keeps_selection_in_range<F>(v: CanvasView<F>, a: CanvasAction<F>)
    requires
        action_ok(v, a),
        selection_in_range(v),
    ensures
        selection_in_range(undone(applied(v, a))),
        a is Paste ==> undone(applied(v, a)).selected.len() == 0
            && undone(applied(v, a)).selected_connectors.len() == 0,
{
    law_undo_reverts_action(v, a);
    let w = applied(v, a);
    let u = undone(w);
    match a {
        CanvasAction::AddShape(shape) => {
            let idx = v.shapes.len() as usize;
            let p = |i: usize| i != idx;
            assert(u.selected == v.selected.filter(p));
            lemma_filter_from(v.selected, p);
            assert forall|j: int| 0 <= j < u.selected.len() implies (#[trigger] u.selected[j] as int)
                < u.shapes.len() by {
                assert(v.selected.contains(u.selected[j]));
            }
        },
        CanvasAction::Move(index, center) => {},
        CanvasAction::Resize(shape) => {},
        CanvasAction::Paste(shapes, connectors) => {
            law_undo_paste_clears_selection(w);
        },
        CanvasAction::Delete => {},
        CanvasAction::AddConnector(source, target, curvature) => {},
        CanvasAction::RemoveConnector(index) => {},
    }
}

} // verus!
