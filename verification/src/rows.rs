//! Rows of a listing: each has a key it is ordered by, and the text it prints.

use vstd::prelude::*;

use crate::order::{ordered, stable_order, Key, KeyView};
use crate::text::{add_lines, lines_after, put, Chars};
use crate::tree::ints;

verus! {

/// The keys of a list of rows.
pub open spec fn keys_of(rows: Seq<(KeyView, Chars)>) -> Seq<KeyView> {
    Seq::new(rows.len(), |i: int| rows[i].0)
}

/// The first `top` rows in the order of their keys, as they print.
pub open spec fn top_rows(rows: Seq<(KeyView, Chars)>, top: nat) -> Seq<Chars> {
    let order = ordered(keys_of(rows), rows.len() as int);
    Seq::new(
        if rows.len() < top {
            rows.len()
        } else {
            top
        },
        |i: int| rows[order[i]].1,
    )
}

/// The first `top` rows in the order of their keys, as they print.
pub fn first_rows(rows: &Vec<(Key, String)>, top: usize) -> (out: Vec<String>)
    ensures
        out.deep_view() == top_rows(rows.deep_view(), top as nat),
{
    let ghost view = rows.deep_view();
    let mut keys: Vec<Key> = Vec::new();
    let mut k: usize = 0;
    assert(keys.deep_view() =~= keys_of(view).take(0));
    while k < rows.len()
        invariant
            k <= rows.len(),
            view == rows.deep_view(),
            keys.deep_view() == keys_of(view).take(k as int),
        decreases rows.len() - k,
    {
        let key = &rows[k].0;
        assert(view[k as int].0 == key.deep_view());
        put(&mut keys, Key { a: key.a, b: key.b, s: key.s.clone(), c: key.c });
        assert(keys_of(view).take(k + 1) =~= keys_of(view).take(k as int).push(view[k as int].0));
        k = k + 1;
    }
    assert(keys_of(view).take(view.len() as int) =~= keys_of(view));
    assert(keys.len() == keys.deep_view().len());
    let order = stable_order(&keys);
    let ghost want = top_rows(view, top as nat);
    let mut out: Vec<String> = Vec::new();
    k = 0;
    assert(out.deep_view() =~= want.take(0));
    while k < order.len() && k < top
        invariant
            k <= order.len() == rows.len(),
            k <= top,
            view == rows.deep_view(),
            want == top_rows(view, top as nat),
            ints(order@) == ordered(keys_of(view), view.len() as int),
            forall|j: int| 0 <= j < order.len() ==> #[trigger] order@[j] < rows.len(),
            out.deep_view() == want.take(k as int),
        decreases order.len() - k,
    {
        let o: usize = order[k];
        assert(ints(order@)[k as int] == o as int);
        assert(view[o as int].1 == rows@[o as int].1@);
        put(&mut out, rows[o].1.clone());
        assert(want.take(k + 1) =~= want.take(k as int).push(want[k as int]));
        k = k + 1;
    }
    assert(want.take(want.len() as int) =~= want);
    out
}

/// A listing, or the word that there is none.
pub open spec fn listing(acc: Chars, rows: Seq<(KeyView, Chars)>, top: nat) -> Chars {
    lines_after(
        acc + (if rows.len() == 0 {
            "  none\n"@
        } else {
            Seq::empty()
        }),
        top_rows(rows, top),
        "  "@,
        0,
    )
}

/// Adds the first `top` rows, or the word that there is none.
pub fn add_listing(o: &mut String, rows: &Vec<(Key, String)>, top: usize)
    ensures
        final(o)@ == listing(old(o)@, rows.deep_view(), top as nat),
{
    let mut none = String::new();
    assert(rows.len() == rows.deep_view().len());
    if rows.len() == 0 {
        none = "  none\n".to_owned();
    }
    o.append(none.as_str());
    add_lines(o, &first_rows(rows, top), "  ");
}

} // verus!
