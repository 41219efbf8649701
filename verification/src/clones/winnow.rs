//! Fingerprints of a token stream: every k-gram is hashed, and of each window of w hashes the
//! smallest is kept.

use vstd::prelude::*;

use crate::clones::tokens::{as_bytes, bytes_of, hash_run, run_hash};

verus! {

/// A setting that is at least 1.
pub open spec fn at_least_one(n: usize) -> usize {
    if n == 0 {
        1
    } else {
        n
    }
}

/// The hashes of all runs of `k` hashes.
pub open spec fn grams_of(hashes: Seq<u64>, k: int) -> Seq<u64> {
    if hashes.len() < k {
        Seq::empty()
    } else {
        Seq::new((hashes.len() - k + 1) as nat, |i: int| run_hash(hashes.subrange(i, i + k)))
    }
}

/// The place of the smallest of `from..to`, the last one of equals.
pub open spec fn pick(g: Seq<u64>, from: int, to: int) -> int
    decreases to - from,
{
    if to - from <= 1 {
        from
    } else {
        let p = pick(g, from, to - 1);
        if g[to - 1] <= g[p] {
            to - 1
        } else {
            p
        }
    }
}

/// Where a window ends.
pub open spec fn window_end(n: nat, w: int, start: int) -> int {
    if start + w < n {
        start + w
    } else {
        n as int
    }
}

/// How many windows of `w` there are: at least one where there is anything.
pub open spec fn windows(n: nat, w: int) -> int {
    if n == 0 {
        0
    } else if n <= w {
        1
    } else {
        n - w + 1
    }
}

/// The fingerprints of the first `n` windows: each pick once, while it stays the pick.
pub open spec fn picks(g: Seq<u64>, w: int, n: int) -> Seq<(usize, u64)>
    decreases n,
{
    if n <= 0 {
        Seq::empty()
    } else {
        let before = picks(g, w, n - 1);
        let at = pick(g, n - 1, window_end(g.len(), w, n - 1));
        if before.len() > 0 && before.last().0 == at {
            before
        } else {
            before.push((at as usize, g[at]))
        }
    }
}

/// The fingerprints of a token stream.
pub open spec fn winnowed(hashes: Seq<u64>, k: usize, w: usize) -> Seq<(usize, u64)> {
    let g = grams_of(hashes, at_least_one(k) as int);
    picks(g, at_least_one(w) as int, windows(g.len(), at_least_one(w) as int))
}

proof fn pick_bounds(g: Seq<u64>, from: int, to: int)
    requires
        from < to,
    ensures
        from <= pick(g, from, to) < to,
    decreases to - from,
{
    if to - from > 1 {
        pick_bounds(g, from, to - 1);
    }
}

fn picked(g: &Vec<u64>, from: usize, to: usize) -> (r: usize)
    requires
        from < to <= g.len(),
    ensures
        r as int == pick(g@, from as int, to as int),
        from <= r < to,
{
    let mut best: usize = from;
    let mut i: usize = from + 1;
    while i < to
        invariant
            from < i <= to <= g.len(),
            from <= best < i,
            best as int == pick(g@, from as int, i as int),
        decreases to - i,
    {
        if g[i] <= g[best] {
            best = i;
        }
        i = i + 1;
    }
    best
}

fn gram_list(hashes: &Vec<u64>, k: usize) -> (out: Vec<u64>)
    requires
        k > 0,
    ensures
        out@ == grams_of(hashes@, k as int),
{
    let mut out: Vec<u64> = Vec::new();
    if hashes.len() < k {
        assert(out@ =~= Seq::<u64>::empty());
        return out;
    }
    let bytes = as_bytes(hashes);
    let n: usize = hashes.len() - k + 1;
    let mut i: usize = 0;
    while i < n
        invariant
            i <= n,
            n == hashes.len() - k + 1,
            k > 0,
            k <= hashes.len(),
            bytes_of(bytes@, hashes@),
            out.len() == i,
            forall|j: int| 0 <= j < i ==> #[trigger] out@[j] == run_hash(hashes@.subrange(j, j + k)),
        decreases n - i,
    {
        out.push(hash_run(&bytes, i, k, Ghost(hashes@)));
        i = i + 1;
    }
    assert(out@ =~= grams_of(hashes@, k as int));
    out
}

/// The fingerprints of a token stream: of each window of `w` k-grams the smallest hash, the last one
/// on ties, each once.
pub fn winnow(hashes: &Vec<u64>, k: usize, w: usize) -> (out: Vec<(usize, u64)>)
    ensures
        out@ == winnowed(hashes@, k, w),
        forall|i: int| 0 <= i < out@.len() ==> (#[trigger] out@[i]).0 + at_least_one(k) <= hashes.len(),
{
    let k1: usize = if k == 0 {
        1
    } else {
        k
    };
    let w1: usize = if w == 0 {
        1
    } else {
        w
    };
    let g = gram_list(hashes, k1);
    let mut out: Vec<(usize, u64)> = Vec::new();
    assert(out@ =~= Seq::<(usize, u64)>::empty());
    if g.len() == 0 {
        return out;
    }
    let n: usize = if g.len() <= w1 {
        1
    } else {
        g.len() - w1 + 1
    };
    let mut s: usize = 0;
    while s < n
        invariant
            s <= n,
            n as int == windows(g@.len(), w1 as int),
            n <= g.len(),
            g.len() > 0,
            w1 > 0,
            out@ == picks(g@, w1 as int, s as int),
            forall|i: int| 0 <= i < out@.len() ==> (#[trigger] out@[i]).0 < g.len(),
        decreases n - s,
    {
        let end: usize = if w1 < g.len() - s {
            s + w1
        } else {
            g.len()
        };
        let at: usize = picked(&g, s, end);
        let again = out.len() > 0 && out[out.len() - 1].0 == at;
        if !again {
            out.push((at, g[at]));
        }
        s = s + 1;
    }
    out
}

// ---------- laws ----------

proof fn same_pick(a: Seq<u64>, b: Seq<u64>, i: int, j: int, m: int)
    requires
        1 <= m,
        0 <= i,
        0 <= j,
        i + m <= a.len(),
        j + m <= b.len(),
        a.subrange(i, i + m) == b.subrange(j, j + m),
    ensures
        pick(a, i, i + m) - i == pick(b, j, j + m) - j,
        i <= pick(a, i, i + m) < i + m,
    decreases m,
{
    if m > 1 {
        let x = a.subrange(i, i + m);
        let y = b.subrange(j, j + m);
        assert(a.subrange(i, i + m - 1) =~= x.take(m - 1));
        assert(b.subrange(j, j + m - 1) =~= y.take(m - 1));
        same_pick(a, b, i, j, m - 1);
        let p = pick(a, i, i + m - 1) - i;
        assert(x[m - 1] == a[i + m - 1] && y[m - 1] == b[j + m - 1]);
        assert(x[p] == a[i + p] && y[p] == b[j + p]);
    }
}

proof fn window_is_kept(g: Seq<u64>, w: int, n: int, s: int)
    requires
        0 <= s < n <= windows(g.len(), w),
        w > 0,
        g.len() <= usize::MAX,
    ensures
        ({
            let at = pick(g, s, window_end(g.len(), w, s));
            picks(g, w, n).contains((at as usize, g[at]))
        }),
    decreases n,
{
    let at = pick(g, s, window_end(g.len(), w, s));
    pick_bounds(g, s, window_end(g.len(), w, s));
    let all = picks(g, w, n);
    let before = picks(g, w, n - 1);
    if s < n - 1 {
        window_is_kept(g, w, n - 1, s);
        let x = choose|x: int| 0 <= x < before.len() && before[x] == (at as usize, g[at]);
        assert(all[x] == (at as usize, g[at]));
    } else {
        picks_are_grams(g, w, n - 1);
        assert(all.last() == (at as usize, g[at]));
        assert(all.contains(all.last()));
    }
}

proof fn picks_are_grams(g: Seq<u64>, w: int, n: int)
    requires
        n <= windows(g.len(), w),
        w > 0,
        g.len() <= usize::MAX,
    ensures
        forall|x: int|
            0 <= x < picks(g, w, n).len() ==> (#[trigger] picks(g, w, n)[x]).0 < g.len() && picks(g, w, n)[x].1 == g[picks(
                g,
                w,
                n,
            )[x].0 as int],
    decreases n,
{
    if n > 0 {
        picks_are_grams(g, w, n - 1);
        pick_bounds(g, n - 1, window_end(g.len(), w, n - 1));
        let before = picks(g, w, n - 1);
        let all = picks(g, w, n);
        assert forall|x: int| 0 <= x < all.len() implies (#[trigger] all[x]).0 < g.len() && all[x].1 == g[all[x].0 as int] by {
            if x < before.len() {
                assert(all[x] == before[x]);
            }
        }
    }
}

pub(crate) proof fn fingerprints_lie_inside(hashes: Seq<u64>, k: usize, w: usize)
    requires
        hashes.len() <= usize::MAX,
    ensures
        forall|x: int|
            0 <= x < winnowed(hashes, k, w).len() ==> (#[trigger] winnowed(hashes, k, w)[x]).0 + at_least_one(k) <= hashes.len(),
{
    let g = grams_of(hashes, at_least_one(k) as int);
    picks_are_grams(g, at_least_one(w) as int, windows(g.len(), at_least_one(w) as int));
}

/// Two token streams that share a run of at least k+w-1 tokens share a fingerprint inside it, at the
/// same place of the run.
pub proof fn a_shared_run_shares_a_fingerprint(a: Seq<u64>, b: Seq<u64>, i: int, j: int, n: int, k: usize, w: usize)
    requires
        k > 0,
        w > 0,
        0 <= i,
        0 <= j,
        n >= k + w - 1,
        i + n <= a.len() <= usize::MAX,
        j + n <= b.len() <= usize::MAX,
        a.subrange(i, i + n) == b.subrange(j, j + n),
    ensures
        exists|d: int, h: u64|
            0 <= d && d + k <= n && #[trigger] winnowed(a, k, w).contains(((i + d) as usize, h)) && winnowed(b, k, w).contains(
                ((j + d) as usize, h),
            ),
{
    let ga = grams_of(a, k as int);
    let gb = grams_of(b, k as int);
    let x = a.subrange(i, i + n);
    let y = b.subrange(j, j + n);
    let wa = ga.subrange(i, i + w);
    let wb = gb.subrange(j, j + w);
    assert forall|s: int| 0 <= s < w implies wa[s] == wb[s] by {
        assert(a.subrange(i + s, i + s + k) =~= x.subrange(s, s + k));
        assert(b.subrange(j + s, j + s + k) =~= y.subrange(s, s + k));
    }
    assert(wa =~= wb);
    same_pick(ga, gb, i, j, w as int);
    let d = pick(ga, i, i + w) - i;
    let h = ga[i + d];
    assert(wa[d] == ga[i + d] && wb[d] == gb[j + d]);
    window_is_kept(ga, w as int, windows(ga.len(), w as int), i);
    window_is_kept(gb, w as int, windows(gb.len(), w as int), j);
    assert(winnowed(a, k, w).contains(((i + d) as usize, h)));
    assert(winnowed(b, k, w).contains(((j + d) as usize, h)));
}

proof fn pick_is_least(g: Seq<u64>, from: int, to: int)
    requires
        from < to,
    ensures
        forall|x: int| from <= x < to ==> g[pick(g, from, to)] <= #[trigger] g[x],
    decreases to - from,
{
    if to - from > 1 {
        pick_is_least(g, from, to - 1);
    }
}

proof fn a_later_window_picks_no_earlier(g: Seq<u64>, from: int, to: int)
    requires
        from + 1 < to,
    ensures
        pick(g, from, to) <= pick(g, from + 1, to),
    decreases to - from,
{
    pick_bounds(g, from, to);
    pick_bounds(g, from + 1, to);
    if to - from > 2 {
        a_later_window_picks_no_earlier(g, from, to - 1);
        pick_bounds(g, from + 1, to - 1);
        pick_is_least(g, from, to - 1);
        assert(g[pick(g, from, to - 1)] <= g[pick(g, from + 1, to - 1)]);
    }
}

proof fn picks_rise(g: Seq<u64>, w: int, n: int)
    requires
        n <= windows(g.len(), w),
        w > 0,
        g.len() <= usize::MAX,
    ensures
        n > 0 ==> picks(g, w, n).len() > 0 && picks(g, w, n).last().0 == pick(g, n - 1, window_end(g.len(), w, n - 1)),
        forall|a: int, b: int| 0 <= a < b < picks(g, w, n).len() ==> (#[trigger] picks(g, w, n)[a]).0 < (#[trigger] picks(g, w, n)[b]).0,
    decreases n,
{
    if n > 0 {
        picks_rise(g, w, n - 1);
        let before = picks(g, w, n - 1);
        let all = picks(g, w, n);
        let end = window_end(g.len(), w, n - 1);
        let at = pick(g, n - 1, end);
        pick_bounds(g, n - 1, end);
        if n > 1 {
            let was = window_end(g.len(), w, n - 2);
            pick_bounds(g, n - 2, was);
            if n - 1 < was {
                a_later_window_picks_no_earlier(g, n - 2, was);
                assert(end == was || end == was + 1);
                pick_bounds(g, n - 1, was);
            }
            assert(before.last().0 <= at);
        }
        assert forall|a: int, b: int| 0 <= a < b < all.len() implies (#[trigger] all[a]).0 < (#[trigger] all[b]).0 by {
            if b < before.len() {
                assert(all[a] == before[a] && all[b] == before[b]);
            } else {
                assert(all[a] == before[a]);
                if a < before.len() - 1 {
                    assert(before[a].0 < before[before.len() - 1].0);
                }
            }
        }
    }
}

/// The places of fingerprints rise strictly: no place is listed twice.
pub proof fn fingerprints_rise(hashes: Seq<u64>, k: usize, w: usize)
    requires
        hashes.len() <= usize::MAX,
    ensures
        forall|a: int, b: int|
            0 <= a < b < winnowed(hashes, k, w).len() ==> (#[trigger] winnowed(hashes, k, w)[a]).0 < (#[trigger] winnowed(
                hashes,
                k,
                w,
            )[b]).0,
{
    let g = grams_of(hashes, at_least_one(k) as int);
    picks_rise(g, at_least_one(w) as int, windows(g.len(), at_least_one(w) as int));
}

} // verus!
