//! Ranges of lines, and how many lines they cover together.

use vstd::prelude::*;
use vstd::set_lib::{lemma_int_range, lemma_set_disjoint_lens, set_int_range};

use crate::order::{
    key_before, ordered, ordered_bounds, ordered_is_complete, ordered_is_sorted, stable_order, Key, KeyView,
};
use crate::text::put;

verus! {

/// The lines, counted from 1, that some range holds.
pub open spec fn covered_by(ranges: Seq<(usize, usize)>) -> Set<int> {
    Set::new(|l: int| 1 <= l && exists|k: int| 0 <= k < ranges.len() && (#[trigger] ranges[k]).0 <= l <= ranges[k].1)
}

/// The sort key of a range: by start, then by end.
pub open spec fn range_key(r: (usize, usize)) -> KeyView {
    KeyView { a: r.0, b: r.1, s: Seq::empty(), c: 0 }
}

/// The sort keys of the ranges.
pub open spec fn range_keys(ranges: Seq<(usize, usize)>) -> Seq<KeyView> {
    Seq::new(ranges.len(), |i: int| range_key(ranges[i]))
}

/// The ranges are in order of their starts.
spec fn ascending(ranges: Seq<(usize, usize)>) -> bool {
    forall|i: int, j: int| 0 <= i < j < ranges.len() ==> (#[trigger] ranges[i]).0 <= (#[trigger] ranges[j]).0
}

fn sorted_ranges(ranges: &Vec<(usize, usize)>) -> (out: Vec<(usize, usize)>)
    ensures
        ascending(out@),
        covered_by(out@) == covered_by(ranges@),
{
    let ghost view = ranges@;
    let mut keys: Vec<Key> = Vec::new();
    let mut i: usize = 0;
    assert(keys.deep_view() =~= range_keys(view).take(0));
    while i < ranges.len()
        invariant
            i <= ranges.len(),
            view == ranges@,
            keys.deep_view() == range_keys(view).take(i as int),
        decreases ranges.len() - i,
    {
        let r: (usize, usize) = ranges[i];
        let empty = String::new();
        assert(empty@ =~= Seq::<char>::empty());
        put(&mut keys, Key { a: r.0, b: r.1, s: empty, c: 0 });
        assert(range_keys(view).take(i + 1) =~= range_keys(view).take(i as int).push(range_key(view[i as int])));
        i = i + 1;
    }
    assert(range_keys(view).take(view.len() as int) =~= range_keys(view));
    assert(keys.len() == keys.deep_view().len());
    let order = stable_order(&keys);
    let ghost kv = range_keys(view);
    let ghost n = view.len() as int;
    let mut out: Vec<(usize, usize)> = Vec::new();
    i = 0;
    while i < order.len()
        invariant
            i <= order.len() == ranges.len(),
            view == ranges@,
            forall|k: int| 0 <= k < order.len() ==> #[trigger] order@[k] < ranges.len(),
            out.len() == i,
            forall|k: int| 0 <= k < i ==> #[trigger] out@[k] == view[order@[k] as int],
        decreases order.len() - i,
    {
        out.push(ranges[order[i]]);
        i = i + 1;
    }
    proof {
        ordered_bounds(kv, n);
        ordered_is_sorted(kv, n);
        let at = ordered(kv, n);
        assert forall|a: int, b: int| 0 <= a < b < out@.len() implies (#[trigger] out@[a]).0 <= (#[trigger] out@[b]).0 by {
            assert(crate::tree::ints(order@)[a] == at[a]);
            assert(crate::tree::ints(order@)[b] == at[b]);
            assert(!key_before(kv[at[b]], kv[at[a]]));
        }
        assert forall|l: int| covered_by(out@).contains(l) == covered_by(view).contains(l) by {
            if covered_by(out@).contains(l) {
                let k = choose|k: int| 0 <= k < out@.len() && (#[trigger] out@[k]).0 <= l <= out@[k].1;
                assert(view[order@[k] as int].0 <= l <= view[order@[k] as int].1);
            }
            if covered_by(view).contains(l) {
                let k = choose|k: int| 0 <= k < view.len() && (#[trigger] view[k]).0 <= l <= view[k].1;
                ordered_is_complete(kv, n, k);
                let j = choose|j: int| 0 <= j < at.len() && at[j] == k;
                assert(crate::tree::ints(order@)[j] == k);
                assert(out@[j] == view[k]);
            }
        }
        assert(covered_by(out@) =~= covered_by(view));
    }
    out
}

/// How many lines the ranges cover together.
pub fn union_lines(ranges: &Vec<(usize, usize)>) -> (n: usize)
    ensures
        covered_by(ranges@).finite(),
        n == covered_by(ranges@).len(),
{
    let sorted = sorted_ranges(ranges);
    let ghost view = sorted@;
    let mut covered: usize = 0;
    let mut to: usize = 0;
    let mut k: usize = 0;
    assert(covered_by(view.take(0)) =~= Set::<int>::empty());
    while k < sorted.len()
        invariant
            k <= sorted.len(),
            view == sorted@,
            ascending(view),
            covered <= to,
            to == 0 || exists|j: int| 0 <= j < k && (#[trigger] view[j]).1 == to && view[j].0 <= to,
            forall|l: int| #[trigger] covered_by(view.take(k as int)).contains(l) ==> l <= to,
            covered_by(view.take(k as int)).finite(),
            covered == covered_by(view.take(k as int)).len(),
        decreases sorted.len() - k,
    {
        let r: (usize, usize) = sorted[k];
        let ghost old_set = covered_by(view.take(k as int));
        let ghost new_set = covered_by(view.take(k + 1));
        let ghost to_was = to as int;
        proof {
            assert forall|l: int| new_set.contains(l) == (old_set.contains(l) || (1 <= l && r.0 <= l <= r.1)) by {
                if new_set.contains(l) {
                    let j = choose|j: int|
                        0 <= j < k + 1 && (#[trigger] view.take(k + 1)[j]).0 <= l <= view.take(k + 1)[j].1;
                    if j < k {
                        assert(view.take(k as int)[j] == view[j]);
                    }
                }
                if old_set.contains(l) {
                    let j = choose|j: int|
                        0 <= j < k && (#[trigger] view.take(k as int)[j]).0 <= l <= view.take(k as int)[j].1;
                    assert(view.take(k + 1)[j] == view[j]);
                }
                if 1 <= l && r.0 <= l <= r.1 {
                    assert(view.take(k + 1)[k as int] == r);
                }
            }
            // a line of this range at or below `to` is already covered by the range that ends at `to`
            assert forall|l: int| 1 <= l && r.0 <= l <= r.1 && l <= to_was implies old_set.contains(l) by {
                let j = choose|j: int| 0 <= j < k && (#[trigger] view[j]).1 == to && view[j].0 <= to;
                assert(view[j].0 <= view[k as int].0);
                assert(view.take(k as int)[j] == view[j]);
            }
        }
        let s: usize = if to < usize::MAX && r.0 < to + 1 {
            to + 1
        } else {
            r.0
        };
        if to < usize::MAX && r.1 >= s {
            proof {
                let fresh = set_int_range(s as int, r.1 + 1);
                lemma_int_range(s as int, r.1 + 1);
                assert(old_set.disjoint(fresh));
                assert(new_set =~= old_set + fresh);
                lemma_set_disjoint_lens(old_set, fresh);
            }
            covered = covered + (r.1 - s) + 1;
            to = r.1;
            assert(view[k as int].1 == to);
        } else {
            assert(new_set =~= old_set);
        }
        k = k + 1;
    }
    assert(view.take(view.len() as int) =~= view);
    covered
}

} // verus!
