//! Stable orderings by a composite key.

use vstd::prelude::*;

use crate::text::{before, before_from, less, same, Chars};

verus! {

/// A sort key: compared by `a`, then `b`, then `s`, then `c`.
pub struct Key {
    pub a: usize,
    pub b: usize,
    pub s: String,
    pub c: usize,
}

/// A [`Key`] by its contents.
pub struct KeyView {
    pub a: usize,
    pub b: usize,
    pub s: Chars,
    pub c: usize,
}

impl DeepView for Key {
    type V = KeyView;

    open spec fn deep_view(&self) -> KeyView {
        KeyView { a: self.a, b: self.b, s: self.s@, c: self.c }
    }
}

/// `x` comes before `y`.
pub open spec fn key_before(x: KeyView, y: KeyView) -> bool {
    if x.a != y.a {
        x.a < y.a
    } else if x.b != y.b {
        x.b < y.b
    } else if x.s != y.s {
        before(x.s, y.s)
    } else {
        x.c < y.c
    }
}

/// `x` comes before `y`.
fn key_less(x: &Key, y: &Key) -> (r: bool)
    ensures
        r == key_before(x.deep_view(), y.deep_view()),
{
    if x.a != y.a {
        x.a < y.a
    } else if x.b != y.b {
        x.b < y.b
    } else if !same(x.s.as_str(), y.s.as_str()) {
        less(x.s.as_str(), y.s.as_str())
    } else {
        x.c < y.c
    }
}

/// The first place of `list`, from `k` on, whose key comes after that of `x`.
pub open spec fn slot(keys: Seq<KeyView>, list: Seq<int>, x: int, k: int) -> int
    decreases list.len() - k,
{
    if k < 0 || k >= list.len() {
        list.len() as int
    } else if key_before(keys[x], keys[list[k]]) {
        k
    } else {
        slot(keys, list, x, k + 1)
    }
}

/// The first `n` positions in the order of their keys; of equal keys the earlier one first.
pub open spec fn ordered(keys: Seq<KeyView>, n: int) -> Seq<int>
    decreases n,
{
    if n <= 0 {
        Seq::empty()
    } else {
        let list = ordered(keys, n - 1);
        list.insert(slot(keys, list, n - 1, 0), n - 1)
    }
}

/// Positions below `n`.
pub open spec fn below(list: Seq<int>, n: int) -> bool {
    forall|k: int| 0 <= k < list.len() ==> 0 <= #[trigger] list[k] < n
}

proof fn slot_bounds(keys: Seq<KeyView>, list: Seq<int>, x: int, k: int)
    requires
        0 <= k <= list.len(),
    ensures
        k <= slot(keys, list, x, k) <= list.len(),
        forall|j: int| k <= j < slot(keys, list, x, k) ==> !key_before(keys[x], keys[#[trigger] list[j]]),
        slot(keys, list, x, k) < list.len() ==> key_before(keys[x], keys[list[slot(keys, list, x, k)]]),
    decreases list.len() - k,
{
    if k < list.len() && !key_before(keys[x], keys[list[k]]) {
        slot_bounds(keys, list, x, k + 1);
    }
}

/// An ordering holds as many positions as it was given, each of them in range.
pub proof fn ordered_bounds(keys: Seq<KeyView>, n: int)
    requires
        0 <= n,
    ensures
        ordered(keys, n).len() == n,
        below(ordered(keys, n), n),
    decreases n,
{
    if n > 0 {
        ordered_bounds(keys, n - 1);
        let list = ordered(keys, n - 1);
        slot_bounds(keys, list, n - 1, 0);
        let at = slot(keys, list, n - 1, 0);
        assert forall|k: int| 0 <= k < list.len() + 1 implies 0 <= #[trigger] list.insert(at, n - 1)[k] < n by {
            if k < at {
                assert(list.insert(at, n - 1)[k] == list[k]);
            } else if k > at {
                assert(list.insert(at, n - 1)[k] == list[k - 1]);
            }
        }
    }
}

/// Every position occurs in an ordering.
pub proof fn ordered_is_complete(keys: Seq<KeyView>, n: int, i: int)
    requires
        0 <= i < n,
    ensures
        ordered(keys, n).contains(i),
    decreases n,
{
    ordered_bounds(keys, n - 1);
    let list = ordered(keys, n - 1);
    slot_bounds(keys, list, n - 1, 0);
    let at = slot(keys, list, n - 1, 0);
    if i == n - 1 {
        assert(ordered(keys, n)[at] == i);
    } else {
        ordered_is_complete(keys, n - 1, i);
        let k = choose|k: int| 0 <= k < list.len() && list[k] == i;
        if k < at {
            assert(ordered(keys, n)[k] == i);
        } else {
            assert(ordered(keys, n)[k + 1] == i);
        }
    }
}

/// The positions of `keys` in the order of their keys; of equal keys the earlier one first.
pub fn stable_order(keys: &Vec<Key>) -> (out: Vec<usize>)
    ensures
        crate::tree::ints(out@) == ordered(keys.deep_view(), keys.len() as int),
        out.len() == keys.len(),
        forall|k: int| 0 <= k < out.len() ==> #[trigger] out@[k] < keys.len(),
{
    let ghost view = keys.deep_view();
    let mut out: Vec<usize> = Vec::new();
    let mut n: usize = 0;
    assert(crate::tree::ints(out@) =~= Seq::<int>::empty());
    while n < keys.len()
        invariant
            n <= keys.len(),
            view == keys.deep_view(),
            out.len() == n,
            forall|k: int| 0 <= k < out.len() ==> #[trigger] out@[k] < keys.len(),
            crate::tree::ints(out@) == ordered(view, n as int),
        decreases keys.len() - n,
    {
        let ghost list = ordered(view, n as int);
        let mut k: usize = 0;
        while k < out.len() && !key_less(&keys[n], &keys[out[k]])
            invariant
                k <= out.len() == n,
                n < keys.len(),
                view == keys.deep_view(),
                list == crate::tree::ints(out@),
                forall|k: int| 0 <= k < out.len() ==> #[trigger] out@[k] < keys.len(),
                slot(view, list, n as int, 0) == slot(view, list, n as int, k as int),
            decreases out.len() - k,
        {
            assert(list[k as int] == out@[k as int]);
            k = k + 1;
        }
        if k < out.len() {
            assert(list[k as int] == out@[k as int]);
        }
        assert(slot(view, list, n as int, 0) == k);
        let ghost was = out@;
        out.insert(k, n);
        assert(crate::tree::ints(out@) =~= list.insert(k as int, n as int));
        assert forall|j: int| 0 <= j < out.len() implies #[trigger] out@[j] < keys.len() by {
            if j < k {
                assert(out@[j] == was[j]);
            } else if j > k {
                assert(out@[j] == was[j - 1]);
            }
        }
        n = n + 1;
    }
    out
}

// ---------- the order of strings and keys is total ----------

proof fn before_is_transitive_from(a: Chars, b: Chars, c: Chars, i: int)
    requires
        0 <= i,
        before_from(a, b, i),
        before_from(b, c, i),
    ensures
        before_from(a, c, i),
    decreases a.len() - i,
{
    if i < a.len() && i < b.len() && i < c.len() && a[i] == b[i] && b[i] == c[i] {
        before_is_transitive_from(a, b, c, i + 1);
    }
}

proof fn before_is_total_from(a: Chars, b: Chars, i: int)
    requires
        0 <= i,
        i <= a.len(),
        i <= b.len(),
        a.take(i) == b.take(i),
        a != b,
    ensures
        before_from(a, b, i) != before_from(b, a, i),
    decreases a.len() - i,
{
    if i < a.len() && i < b.len() && a[i] == b[i] {
        assert(a.take(i + 1) =~= a.take(i).push(a[i]));
        assert(b.take(i + 1) =~= b.take(i).push(b[i]));
        before_is_total_from(a, b, i + 1);
    } else if i >= a.len() && i >= b.len() {
        assert(a =~= a.take(i));
        assert(b =~= b.take(i));
    }
}

proof fn before_is_irreflexive_from(a: Chars, i: int)
    requires
        0 <= i,
    ensures
        !before_from(a, a, i),
    decreases a.len() - i,
{
    if i < a.len() {
        before_is_irreflexive_from(a, i + 1);
    }
}

/// The order of texts is transitive.
pub proof fn before_is_transitive(a: Chars, b: Chars, c: Chars)
    requires
        before(a, b),
        before(b, c),
    ensures
        before(a, c),
{
    before_is_transitive_from(a, b, c, 0);
}

/// Of two texts one comes before the other.
pub proof fn before_is_total(a: Chars, b: Chars)
    requires
        a != b,
    ensures
        before(a, b) != before(b, a),
{
    assert(a.take(0) =~= b.take(0));
    before_is_total_from(a, b, 0);
}

/// No text comes before itself.
pub proof fn before_is_irreflexive(a: Chars)
    ensures
        !before(a, a),
{
    before_is_irreflexive_from(a, 0);
}

/// The order of keys is transitive where it does not hold backwards: a key that does not come
/// before a second, which does not come before a third, does not come before the third.
pub proof fn key_order_is_transitive(x: KeyView, y: KeyView, z: KeyView)
    requires
        !key_before(y, x),
        !key_before(z, y),
    ensures
        !key_before(z, x),
{
    if x.a == y.a && y.a == z.a && x.b == y.b && y.b == z.b {
        before_is_irreflexive_from(x.s, 0);
        if x.s != y.s {
            assert(x.s.take(0) =~= y.s.take(0));
            before_is_total_from(x.s, y.s, 0);
        }
        if y.s != z.s {
            assert(y.s.take(0) =~= z.s.take(0));
            before_is_total_from(y.s, z.s, 0);
        }
        if x.s != z.s {
            assert(x.s.take(0) =~= z.s.take(0));
            before_is_total_from(x.s, z.s, 0);
        }
        if x.s != y.s && y.s != z.s {
            before_is_transitive_from(x.s, y.s, z.s, 0);
            if x.s == z.s {
                before_is_irreflexive_from(x.s, 0);
            }
        }
    }
}

/// A key never comes before another one that comes before it.
pub proof fn key_order_is_antisymmetric(x: KeyView, y: KeyView)
    requires
        key_before(x, y),
    ensures
        !key_before(y, x),
{
    if x.a == y.a && x.b == y.b && x.s != y.s {
        assert(x.s.take(0) =~= y.s.take(0));
        before_is_total_from(x.s, y.s, 0);
    }
}

/// An ordering is in order: no later position has a key that comes before an earlier one's.
pub proof fn ordered_is_sorted(keys: Seq<KeyView>, n: int)
    requires
        0 <= n <= keys.len(),
    ensures
        forall|i: int, j: int|
            0 <= i < j < ordered(keys, n).len() ==> !key_before(
                keys[#[trigger] ordered(keys, n)[j]],
                keys[#[trigger] ordered(keys, n)[i]],
            ),
    decreases n,
{
    if n > 0 {
        ordered_is_sorted(keys, n - 1);
        ordered_bounds(keys, n - 1);
        let list = ordered(keys, n - 1);
        let x = n - 1;
        slot_bounds(keys, list, x, 0);
        let at = slot(keys, list, x, 0);
        let out = list.insert(at, x);
        assert forall|i: int, j: int| 0 <= i < j < out.len() implies !key_before(
            keys[#[trigger] out[j]],
            keys[#[trigger] out[i]],
        ) by {
            let li = if i < at { i } else { i - 1 };
            let lj = if j < at { j } else { j - 1 };
            if i == at {
                // everything from `at` on comes no earlier than `list[at]`, which comes after `x`
                assert(out[j] == list[lj]);
                key_order_is_antisymmetric(keys[x], keys[list[at]]);
                if lj > at {
                    assert(!key_before(keys[list[lj]], keys[list[at]]));
                    key_order_is_transitive(keys[x], keys[list[at]], keys[list[lj]]);
                }
            } else if j == at {
                assert(out[i] == list[li]);
                assert(!key_before(keys[x], keys[list[li]]));
            } else {
                assert(out[i] == list[li]);
                assert(out[j] == list[lj]);
            }
        }
    }
}

// ---------- lists of strings ----------

/// A key that orders by a text alone.
pub open spec fn text_key(s: Chars) -> KeyView {
    KeyView { a: 0, b: 0, s, c: 0 }
}

/// The keys that order `list` as texts.
pub open spec fn text_keys(list: Seq<Chars>) -> Seq<KeyView> {
    Seq::new(list.len(), |i: int| text_key(list[i]))
}

/// The texts of `list` in order.
pub open spec fn sorted_texts(list: Seq<Chars>) -> Seq<Chars> {
    Seq::new(list.len(), |i: int| list[ordered(text_keys(list), list.len() as int)[i]])
}

/// `list` with one of each run of equal texts.
pub open spec fn deduped(list: Seq<Chars>) -> Seq<Chars>
    decreases list.len(),
{
    if list.len() == 0 {
        Seq::empty()
    } else {
        let rest = deduped(list.drop_last());
        if rest.len() > 0 && rest.last() == list.last() {
            rest
        } else {
            rest.push(list.last())
        }
    }
}

/// The strings of `list` in order.
pub fn sort_texts(list: &Vec<String>) -> (out: Vec<String>)
    ensures
        out.deep_view() == sorted_texts(list.deep_view()),
{
    let ghost view = list.deep_view();
    let mut keys: Vec<Key> = Vec::new();
    let mut i: usize = 0;
    assert(keys.deep_view() =~= text_keys(view).take(0));
    while i < list.len()
        invariant
            i <= list.len(),
            view == list.deep_view(),
            keys.deep_view() == text_keys(view).take(i as int),
        decreases list.len() - i,
    {
        crate::text::put(&mut keys, Key { a: 0, b: 0, s: list[i].clone(), c: 0 });
        assert(text_keys(view).take(i + 1) =~= text_keys(view).take(i as int).push(text_key(view[i as int])));
        i = i + 1;
    }
    assert(text_keys(view).take(view.len() as int) =~= text_keys(view));
    assert(keys.len() == keys.deep_view().len());
    let order = stable_order(&keys);
    let mut out: Vec<String> = Vec::new();
    i = 0;
    assert(out.deep_view() =~= sorted_texts(view).take(0));
    while i < order.len()
        invariant
            i <= order.len() == list.len(),
            view == list.deep_view(),
            crate::tree::ints(order@) == ordered(text_keys(view), view.len() as int),
            forall|k: int| 0 <= k < order.len() ==> #[trigger] order@[k] < list.len(),
            out.deep_view() == sorted_texts(view).take(i as int),
        decreases order.len() - i,
    {
        let at: usize = order[i];
        assert(crate::tree::ints(order@)[i as int] == at as int);
        crate::text::put(&mut out, list[at].clone());
        assert(sorted_texts(view).take(i + 1) =~= sorted_texts(view).take(i as int).push(view[at as int]));
        i = i + 1;
    }
    assert(sorted_texts(view).take(view.len() as int) =~= sorted_texts(view));
    out
}

/// `list` with one of each run of equal strings.
pub fn dedup_texts(list: &Vec<String>) -> (out: Vec<String>)
    ensures
        out.deep_view() == deduped(list.deep_view()),
{
    let ghost view = list.deep_view();
    let mut out: Vec<String> = Vec::new();
    let mut i: usize = 0;
    assert(view.take(0) =~= Seq::<Chars>::empty());
    assert(out.deep_view() =~= Seq::<Chars>::empty());
    while i < list.len()
        invariant
            i <= list.len(),
            view == list.deep_view(),
            out.deep_view() == deduped(view.take(i as int)),
        decreases list.len() - i,
    {
        assert(view.take(i + 1).drop_last() =~= view.take(i as int));
        assert(view[i as int] == list@[i as int]@);
        if out.len() > 0 && same(out[out.len() - 1].as_str(), list[i].as_str()) {
            assert(out.deep_view().last() == view[i as int]);
        } else {
            assert(out.len() > 0 ==> out.deep_view().last() == out@[out.len() - 1]@);
            crate::text::put(&mut out, list[i].clone());
        }
        i = i + 1;
    }
    assert(view.take(view.len() as int) =~= view);
    out
}

} // verus!
