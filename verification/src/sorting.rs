//! Sorting of long lists of integer rows.

use vstd::prelude::*;
use vstd::relations::{sorted_by, total_ordering};
use vstd::seq_lib::{group_to_multiset_ensures, lemma_multiset_commutative, lemma_sorted_unique};

verus! {

/// A row of integers; rows are ordered by their first difference.
pub type Row = (i128, i128, i128, i128, i128, i128);

/// `x` comes no later than `y`.
pub open spec fn row_le(x: Row, y: Row) -> bool {
    if x.0 != y.0 {
        x.0 < y.0
    } else if x.1 != y.1 {
        x.1 < y.1
    } else if x.2 != y.2 {
        x.2 < y.2
    } else if x.3 != y.3 {
        x.3 < y.3
    } else if x.4 != y.4 {
        x.4 < y.4
    } else {
        x.5 <= y.5
    }
}

/// The order of rows.
pub open spec fn row_order() -> spec_fn(Row, Row) -> bool {
    |x: Row, y: Row| row_le(x, y)
}

/// Rows in ascending order.
pub open spec fn sorted_rows(s: Seq<Row>) -> Seq<Row> {
    s.sort_by(row_order())
}

/// The order of rows is total.
pub proof fn row_order_is_total()
    ensures
        total_ordering(row_order()),
{
}

/// Sorted rows are in order and the same rows.
pub proof fn sorted_rows_are_sorted(s: Seq<Row>)
    ensures
        sorted_by(sorted_rows(s), row_order()),
        sorted_rows(s).to_multiset() == s.to_multiset(),
        sorted_rows(s).len() == s.len(),
{
    row_order_is_total();
    s.lemma_sort_by_ensures(row_order());
    broadcast use group_to_multiset_ensures;

    assert(sorted_rows(s).to_multiset().len() == s.to_multiset().len());
}

/// A row is among the sorted rows exactly where it is among the rows.
pub proof fn sorted_rows_hold(s: Seq<Row>, x: Row)
    ensures
        sorted_rows(s).contains(x) <==> s.contains(x),
{
    sorted_rows_are_sorted(s);
    broadcast use group_to_multiset_ensures;

    assert(sorted_rows(s).to_multiset().count(x) == s.to_multiset().count(x));
}

fn is_le(x: &Row, y: &Row) -> (r: bool)
    ensures
        r == row_le(*x, *y),
{
    if x.0 != y.0 {
        x.0 < y.0
    } else if x.1 != y.1 {
        x.1 < y.1
    } else if x.2 != y.2 {
        x.2 < y.2
    } else if x.3 != y.3 {
        x.3 < y.3
    } else if x.4 != y.4 {
        x.4 < y.4
    } else {
        x.5 <= y.5
    }
}

/// Every row of `a` comes no later than `x`.
spec fn all_below(a: Seq<Row>, x: Row) -> bool {
    forall|k: int| 0 <= k < a.len() ==> row_le(#[trigger] a[k], x)
}

proof fn take_grows(s: Seq<Row>, i: int)
    requires
        0 <= i < s.len(),
    ensures
        s.take(i + 1).to_multiset() == s.take(i).to_multiset().insert(s[i]),
{
    broadcast use group_to_multiset_ensures;

    assert(s.take(i + 1) =~= s.take(i).push(s[i]));
}

proof fn push_grows(s: Seq<Row>, x: Row)
    ensures
        s.push(x).to_multiset() == s.to_multiset().insert(x),
{
    broadcast use group_to_multiset_ensures;

}

fn merge(left: &Vec<Row>, right: &Vec<Row>) -> (out: Vec<Row>)
    requires
        sorted_by(left@, row_order()),
        sorted_by(right@, row_order()),
    ensures
        sorted_by(out@, row_order()),
        out@.to_multiset() == left@.to_multiset().add(right@.to_multiset()),
{
    broadcast use group_to_multiset_ensures;

    let ghost le = row_order();
    let mut out: Vec<Row> = Vec::new();
    let mut i: usize = 0;
    let mut j: usize = 0;
    proof {
        assert(left@.take(0) =~= Seq::<Row>::empty());
        assert(right@.take(0) =~= Seq::<Row>::empty());
        assert(out@ =~= Seq::<Row>::empty());
        assert(out@.to_multiset() =~= left@.take(0).to_multiset().add(right@.take(0).to_multiset()));
    }
    while i < left.len() || j < right.len()
        invariant
            i <= left.len(),
            j <= right.len(),
            le == row_order(),
            sorted_by(left@, le),
            sorted_by(right@, le),
            sorted_by(out@, le),
            i < left.len() ==> all_below(out@, left@[i as int]),
            j < right.len() ==> all_below(out@, right@[j as int]),
            out@.to_multiset() == left@.take(i as int).to_multiset().add(right@.take(j as int).to_multiset()),
        decreases left.len() - i + right.len() - j,
    {
        let ghost was = out@;
        let from_left = j == right.len() || (i < left.len() && is_le(&left[i], &right[j]));
        if from_left {
            let x: Row = left[i];
            proof {
                take_grows(left@, i as int);
                if i + 1 < left.len() {
                    assert(le(left@[i as int], left@[i + 1]));
                }
            }
            out.push(x);
            i = i + 1;
            proof {
                push_grows(was, x);
            }
            assert(out@.to_multiset() =~= left@.take(i as int).to_multiset().add(right@.take(j as int).to_multiset()));
            assert forall|k: int, l: int| 0 <= k < l < out@.len() implies #[trigger] le(out@[k], out@[l]) by {
                if l < was.len() {
                    assert(le(was[k], was[l]));
                } else {
                    assert(row_le(was[k], x));
                }
            }
        } else {
            let x: Row = right[j];
            proof {
                take_grows(right@, j as int);
                if j + 1 < right.len() {
                    assert(le(right@[j as int], right@[j + 1]));
                }
            }
            out.push(x);
            j = j + 1;
            proof {
                push_grows(was, x);
            }
            assert(out@.to_multiset() =~= left@.take(i as int).to_multiset().add(right@.take(j as int).to_multiset()));
            assert forall|k: int, l: int| 0 <= k < l < out@.len() implies #[trigger] le(out@[k], out@[l]) by {
                if l < was.len() {
                    assert(le(was[k], was[l]));
                } else {
                    assert(row_le(was[k], x));
                }
            }
        }
    }
    assert(left@.take(left@.len() as int) =~= left@);
    assert(right@.take(right@.len() as int) =~= right@);
    out
}

fn part(v: &Vec<Row>, from: usize, to: usize) -> (out: Vec<Row>)
    requires
        from <= to <= v.len(),
    ensures
        out@ == v@.subrange(from as int, to as int),
{
    let mut out: Vec<Row> = Vec::new();
    let mut k: usize = from;
    assert(out@ =~= v@.subrange(from as int, from as int));
    while k < to
        invariant
            from <= k <= to <= v.len(),
            out@ == v@.subrange(from as int, k as int),
        decreases to - k,
    {
        out.push(v[k]);
        assert(v@.subrange(from as int, k + 1) =~= v@.subrange(from as int, k as int).push(v@[k as int]));
        k = k + 1;
    }
    out
}

/// Rows in ascending order, by halves.
pub fn sort_rows(v: &Vec<Row>) -> (out: Vec<Row>)
    ensures
        out@ == sorted_rows(v@),
    decreases v.len(),
{
    proof {
        row_order_is_total();
        sorted_rows_are_sorted(v@);
    }
    if v.len() <= 1 {
        let out = part(v, 0, v.len());
        proof {
            assert(out@ =~= v@);
            lemma_sorted_unique(out@, sorted_rows(v@), row_order());
        }
        return out;
    }
    let mid: usize = v.len() / 2;
    let left = part(v, 0, mid);
    let right = part(v, mid, v.len());
    let a = sort_rows(&left);
    let b = sort_rows(&right);
    proof {
        sorted_rows_are_sorted(left@);
        sorted_rows_are_sorted(right@);
    }
    let out = merge(&a, &b);
    proof {
        assert(left@ + right@ =~= v@);
        lemma_multiset_commutative(left@, right@);
        lemma_sorted_unique(out@, sorted_rows(v@), row_order());
    }
    out
}

} // verus!
